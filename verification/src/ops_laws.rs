//! What every operation promises together with its inverse: applying an
//! operation and then the inverse it returned restores the document exactly,
//! and hands back the operation first applied.

use crate::model::{
    comp_index, first_item, first_item_from, item_id, item_name, prop_of, with_name, with_prop,
    CompView, DocView, FolderView, FootageView, ItemView, LayerKindView, LayerView, SolidView,
    TransformProp, TransformView,
};
use crate::anim::AnimationView;
use crate::ops::{
    apply_spec, comp_at, first_layer, first_layer_from, locate, not_after, with_comp, with_layer, OpView,
};
use vstd::prelude::*;

verus! {

/// Every layer of the composition runs forward in time, and so does its work
/// area when it has one.
pub open spec fn comp_spans_valid(c: CompView) -> bool {
    &&& forall|li: int| 0 <= li < c.layers.len() ==> !not_after(#[trigger] c.layers[li].out_point, c.layers[li].in_point)
    &&& (c.work_area matches Some((a, b)) ==> !not_after(b, a))
}

/// Every composition of the document has valid spans.
pub open spec fn doc_spans_valid(d: DocView) -> bool {
    forall|ci: int| 0 <= ci < d.items.len() && (#[trigger] d.items[ci]) is Composition ==> comp_spans_valid(d.items[ci]->Composition_0)
}

/// An operation that adds something uses an id not already taken where it
/// lands: a new item's id is not an item id of the document, a new layer's id
/// is not a layer id of its composition.
pub open spec fn op_fresh(d: DocView, op: OpView) -> bool {
    match op {
        OpView::AddItem { item, .. } => first_item(d.items, item_id(item)) is None,
        OpView::AddLayer { comp, layer, .. } => comp_index(d.items, comp) matches Some(ci) ==> first_layer(
            comp_at(d, ci).layers,
            layer.id,
        ) is None,
        _ => true,
    }
}

/// The first-item search sees only ids.
proof fn lemma_first_item_ids(s1: Seq<ItemView>, s2: Seq<ItemView>, id: u128, k: int)
    requires
        s1.len() == s2.len(),
        forall|j: int| 0 <= j < s1.len() ==> item_id(#[trigger] s1[j]) == item_id(s2[j]),
    ensures
        first_item_from(s1, id, k) == first_item_from(s2, id, k),
    decreases s1.len() - k,
{
    if 0 <= k < s1.len() && item_id(s1[k]) != id {
        lemma_first_item_ids(s1, s2, id, k + 1);
    }
}

/// The first-layer search sees only ids.
proof fn lemma_first_layer_ids(s1: Seq<LayerView>, s2: Seq<LayerView>, id: u128, k: int)
    requires
        s1.len() == s2.len(),
        forall|j: int| 0 <= j < s1.len() ==> (#[trigger] s1[j]).id == s2[j].id,
    ensures
        first_layer_from(s1, id, k) == first_layer_from(s2, id, k),
    decreases s1.len() - k,
{
    if 0 <= k < s1.len() && s1[k].id != id {
        lemma_first_layer_ids(s1, s2, id, k + 1);
    }
}

/// A search that finds nothing from `k` on means no id from `k` on matches.
proof fn lemma_first_item_none(s: Seq<ItemView>, id: u128, k: int)
    requires
        0 <= k,
        first_item_from(s, id, k) is None,
    ensures
        forall|j: int| k <= j < s.len() ==> item_id(#[trigger] s[j]) != id,
    decreases s.len() - k,
{
    if k < s.len() {
        lemma_first_item_none(s, id, k + 1);
    }
}

/// A search that finds nothing from `k` on means no id from `k` on matches.
proof fn lemma_first_layer_none(s: Seq<LayerView>, id: u128, k: int)
    requires
        0 <= k,
        first_layer_from(s, id, k) is None,
    ensures
        forall|j: int| k <= j < s.len() ==> (#[trigger] s[j]).id != id,
    decreases s.len() - k,
{
    if k < s.len() {
        lemma_first_layer_none(s, id, k + 1);
    }
}

/// The first hit of a search is at an index whose id matches, after none that do.
proof fn lemma_first_item_some(s: Seq<ItemView>, id: u128, k: int)
    requires
        0 <= k,
        first_item_from(s, id, k) is Some,
    ensures
        ({
            let i = first_item_from(s, id, k)->Some_0;
            &&& k <= i < s.len()
            &&& item_id(s[i]) == id
        }),
    decreases s.len() - k,
{
    if k < s.len() && item_id(s[k]) != id {
        lemma_first_item_some(s, id, k + 1);
    }
}

/// The first hit of a search is at an index whose id matches.
proof fn lemma_first_layer_some(s: Seq<LayerView>, id: u128, k: int)
    requires
        0 <= k,
        first_layer_from(s, id, k) is Some,
    ensures
        ({
            let i = first_layer_from(s, id, k)->Some_0;
            &&& k <= i < s.len()
            &&& s[i].id == id
        }),
    decreases s.len() - k,
{
    if k < s.len() && s[k].id != id {
        lemma_first_layer_some(s, id, k + 1);
    }
}

/// Inserting an item under a fresh id puts the first item with that id at
/// the insertion index.
proof fn lemma_insert_fresh_item(s: Seq<ItemView>, i: int, x: ItemView, k: int)
    requires
        0 <= k <= i <= s.len(),
        first_item(s, item_id(x)) is None,
    ensures
        first_item_from(s.insert(i, x), item_id(x), k) == Some(i),
    decreases i - k,
{
    lemma_first_item_none(s, item_id(x), 0);
    if k < i {
        assert(s.insert(i, x)[k] == s[k]);
        lemma_insert_fresh_item(s, i, x, k + 1);
    }
}

/// Inserting a layer under a fresh id puts the first layer with that id at
/// the insertion index.
proof fn lemma_insert_fresh_layer(s: Seq<LayerView>, i: int, x: LayerView, k: int)
    requires
        0 <= k <= i <= s.len(),
        first_layer(s, x.id) is None,
    ensures
        first_layer_from(s.insert(i, x), x.id, k) == Some(i),
    decreases i - k,
{
    lemma_first_layer_none(s, x.id, 0);
    if k < i {
        assert(s.insert(i, x)[k] == s[k]);
        lemma_insert_fresh_layer(s, i, x, k + 1);
    }
}

/// Replacing a property and then putting the old animation back restores
/// the transform; the replaced property reads the new animation.
proof fn lemma_prop_round_trip(t: TransformView, p: TransformProp, a: AnimationView)
    ensures
        prop_of(with_prop(t, p, a), p) == a,
        with_prop(with_prop(t, p, a), p, prop_of(t, p)) == t,
{
}

/// Renaming and renaming back restores the item; the renamed item reads the
/// new name and keeps its id.
proof fn lemma_name_round_trip(it: ItemView, n: Seq<char>)
    ensures
        item_name(with_name(it, n)) == n,
        item_id(with_name(it, n)) == item_id(it),
        with_name(with_name(it, n), item_name(it)) == it,
{
    match it {
        ItemView::Footage(f) => {
            assert(FootageView { name: f.name, ..FootageView { name: n, ..f } } == f);
        },
        ItemView::Folder(f) => {
            assert(FolderView { name: f.name, ..FolderView { name: n, ..f } } == f);
        },
        ItemView::Composition(c) => {
            assert(CompView { name: c.name, ..CompView { name: n, ..c } } == c);
        },
        ItemView::Solid(x) => {
            assert(SolidView { name: x.name, ..SolidView { name: n, ..x } } == x);
        },
    }
}

/// Replacing composition `ci` by one with the same id keeps every lookup.
proof fn lemma_with_comp_lookups(d: DocView, ci: int, c: CompView, comp: u128)
    requires
        comp_index(d.items, comp) == Some(ci),
        c.id == comp_at(d, ci).id,
    ensures
        comp_index(with_comp(d, ci, c).items, comp) == Some(ci),
        comp_at(with_comp(d, ci, c), ci) == c,
{
    let s2 = with_comp(d, ci, c).items;
    lemma_first_item_some(d.items, comp, 0);
    assert forall|j: int| 0 <= j < d.items.len() implies item_id(#[trigger] d.items[j]) == item_id(s2[j]) by {
        if j == ci {
        }
    }
    lemma_first_item_ids(d.items, s2, comp, 0);
}

/// Replacing layer `li` by one with the same id keeps every lookup.
proof fn lemma_with_layer_lookups(d: DocView, comp: u128, layer: u128, ci: int, li: int, l: LayerView)
    requires
        locate(d, comp, layer) == Ok::<(int, int), crate::ops::OpError>((ci, li)),
        l.id == layer,
    ensures
        locate(with_layer(d, ci, li, l), comp, layer) == Ok::<(int, int), crate::ops::OpError>((ci, li)),
        comp_at(with_layer(d, ci, li, l), ci).layers[li] == l,
{
    let c = comp_at(d, ci);
    let c2 = CompView { layers: c.layers.update(li, l), ..c };
    lemma_with_comp_lookups(d, ci, c2, comp);
    lemma_first_layer_some(c.layers, layer, 0);
    assert forall|j: int| 0 <= j < c.layers.len() implies (#[trigger] c.layers[j]).id == c2.layers[j].id by {
        if j == li {
        }
    }
    lemma_first_layer_ids(c.layers, c2.layers, layer, 0);
}

/// The round trip for `AddItem`.
proof fn lemma_inverse_add_item(d: DocView, op: OpView)
    requires
        doc_spans_valid(d),
        op_fresh(d, op),
        apply_spec(d, op) is Ok,
        op is AddItem,
    ensures
        ({
            let (d2, inv) = apply_spec(d, op)->Ok_0;
            apply_spec(d2, inv) == Ok::<(DocView, OpView), crate::ops::OpError>((d, op))
        }),
{
    let (d2, inv) = apply_spec(d, op)->Ok_0;
    let index = op->AddItem_index;
    let item = op->AddItem_item;
    lemma_insert_fresh_item(d.items, index as int, item, 0);
    assert(d2.items.remove(index as int) =~= d.items);
}

/// The round trip for `RemoveItem`.
proof fn lemma_inverse_remove_item(d: DocView, op: OpView)
    requires
        doc_spans_valid(d),
        op_fresh(d, op),
        apply_spec(d, op) is Ok,
        op is RemoveItem,
    ensures
        ({
            let (d2, inv) = apply_spec(d, op)->Ok_0;
            apply_spec(d2, inv) == Ok::<(DocView, OpView), crate::ops::OpError>((d, op))
        }),
{
    let (d2, inv) = apply_spec(d, op)->Ok_0;
    let id = op->RemoveItem_id;
    lemma_first_item_some(d.items, id, 0);
    let i = first_item(d.items, id)->Some_0;
    assert(d2.items.insert(i, d.items[i]) =~= d.items);
}

/// The round trip for `RenameItem`.
proof fn lemma_inverse_rename_item(d: DocView, op: OpView)
    requires
        doc_spans_valid(d),
        op_fresh(d, op),
        apply_spec(d, op) is Ok,
        op is RenameItem,
    ensures
        ({
            let (d2, inv) = apply_spec(d, op)->Ok_0;
            apply_spec(d2, inv) == Ok::<(DocView, OpView), crate::ops::OpError>((d, op))
        }),
{
    let (d2, inv) = apply_spec(d, op)->Ok_0;
    let id = op->RenameItem_id;
    let name = op->RenameItem_name;
    lemma_first_item_some(d.items, id, 0);
    let i = first_item(d.items, id)->Some_0;
    lemma_name_round_trip(d.items[i], name);
    assert forall|j: int| 0 <= j < d.items.len() implies item_id(#[trigger] d.items[j]) == item_id(d2.items[j]) by {
        if j == i {
        }
    }
    lemma_first_item_ids(d.items, d2.items, id, 0);
    assert(d2.items.update(i, with_name(d2.items[i], item_name(d.items[i]))) =~= d.items);
}

/// The round trip for `AddLayer`.
proof fn lemma_inverse_add_layer(d: DocView, op: OpView)
    requires
        doc_spans_valid(d),
        op_fresh(d, op),
        apply_spec(d, op) is Ok,
        op is AddLayer,
    ensures
        ({
            let (d2, inv) = apply_spec(d, op)->Ok_0;
            apply_spec(d2, inv) == Ok::<(DocView, OpView), crate::ops::OpError>((d, op))
        }),
{
    let (d2, inv) = apply_spec(d, op)->Ok_0;
    let comp = op->AddLayer_comp;
    let index = op->AddLayer_index;
    let layer = op->AddLayer_layer;
    let ci = comp_index(d.items, comp)->Some_0;
    let c = comp_at(d, ci);
    let c2 = CompView { layers: c.layers.insert(index as int, layer), ..c };
    lemma_with_comp_lookups(d, ci, c2, comp);
    lemma_first_item_some(d.items, comp, 0);
    assert(d.items[ci] == ItemView::Composition(c));
    lemma_insert_fresh_layer(c.layers, index as int, layer, 0);
    assert(c2.layers.remove(index as int) =~= c.layers);
    assert(CompView { layers: c2.layers.remove(index as int), ..c2 } == c);
    assert(d2.items.update(ci, ItemView::Composition(c)) =~= d.items);
}

/// The round trip for `RemoveLayer`.
proof fn lemma_inverse_remove_layer(d: DocView, op: OpView)
    requires
        doc_spans_valid(d),
        op_fresh(d, op),
        apply_spec(d, op) is Ok,
        op is RemoveLayer,
    ensures
        ({
            let (d2, inv) = apply_spec(d, op)->Ok_0;
            apply_spec(d2, inv) == Ok::<(DocView, OpView), crate::ops::OpError>((d, op))
        }),
{
    let (d2, inv) = apply_spec(d, op)->Ok_0;
    let comp = op->RemoveLayer_comp;
    let layer = op->RemoveLayer_layer;
    let (ci, li) = locate(d, comp, layer)->Ok_0;
    lemma_first_item_some(d.items, comp, 0);
    let c = comp_at(d, ci);
    let c2 = CompView { layers: c.layers.remove(li), ..c };
    lemma_first_item_some(d.items, comp, 0);
    assert(d.items[ci] == ItemView::Composition(c));
    lemma_with_comp_lookups(d, ci, c2, comp);
    lemma_first_layer_some(c.layers, layer, 0);
    assert(comp_spans_valid(c)) by {
        assert(d.items[ci] is Composition);
    }
    assert(c2.layers.insert(li, c.layers[li]) =~= c.layers);
    assert(CompView { layers: c2.layers.insert(li, c.layers[li]), ..c2 } == c);
    assert(d2.items.update(ci, ItemView::Composition(c)) =~= d.items);
}

/// The round trip for `SetLayerSpan`.
proof fn lemma_inverse_set_layer_span(d: DocView, op: OpView)
    requires
        doc_spans_valid(d),
        op_fresh(d, op),
        apply_spec(d, op) is Ok,
        op is SetLayerSpan,
    ensures
        ({
            let (d2, inv) = apply_spec(d, op)->Ok_0;
            apply_spec(d2, inv) == Ok::<(DocView, OpView), crate::ops::OpError>((d, op))
        }),
{
    let (d2, inv) = apply_spec(d, op)->Ok_0;
    let comp = op->SetLayerSpan_comp;
    let layer = op->SetLayerSpan_layer;
    let in_point = op->SetLayerSpan_in_point;
    let out_point = op->SetLayerSpan_out_point;
    let start_offset = op->SetLayerSpan_start_offset;
    let (ci, li) = locate(d, comp, layer)->Ok_0;
    lemma_first_item_some(d.items, comp, 0);
    let c = comp_at(d, ci);
    let l = c.layers[li];
    lemma_first_layer_some(c.layers, layer, 0);
    let l2 = LayerView { in_point, out_point, start_offset, ..l };
    lemma_with_layer_lookups(d, comp, layer, ci, li, l2);
    assert(comp_spans_valid(c)) by {
        assert(d.items[ci] is Composition);
    }
    assert(!not_after(c.layers[li].out_point, c.layers[li].in_point));
    assert(LayerView { in_point: l.in_point, out_point: l.out_point, start_offset: l.start_offset, ..l2 } == l);
    assert(comp_at(d2, ci).layers.update(li, l) =~= c.layers);
    assert(d2.items.update(ci, ItemView::Composition(c)) =~= d.items);
}

/// The round trip for `RenameLayer`.
proof fn lemma_inverse_rename_layer(d: DocView, op: OpView)
    requires
        doc_spans_valid(d),
        op_fresh(d, op),
        apply_spec(d, op) is Ok,
        op is RenameLayer,
    ensures
        ({
            let (d2, inv) = apply_spec(d, op)->Ok_0;
            apply_spec(d2, inv) == Ok::<(DocView, OpView), crate::ops::OpError>((d, op))
        }),
{
    let (d2, inv) = apply_spec(d, op)->Ok_0;
    let comp = op->RenameLayer_comp;
    let layer = op->RenameLayer_layer;
    let name = op->RenameLayer_name;
    let (ci, li) = locate(d, comp, layer)->Ok_0;
    lemma_first_item_some(d.items, comp, 0);
    let c = comp_at(d, ci);
    let l = c.layers[li];
    lemma_first_layer_some(c.layers, layer, 0);
    let l2 = LayerView { name, ..l };
    lemma_with_layer_lookups(d, comp, layer, ci, li, l2);
    assert(LayerView { name: l.name, ..l2 } == l);
    assert(comp_at(d2, ci).layers.update(li, l) =~= c.layers);
    assert(d2.items.update(ci, ItemView::Composition(c)) =~= d.items);
}

/// The round trip for `SetTextDocument`.
proof fn lemma_inverse_set_text_document(d: DocView, op: OpView)
    requires
        doc_spans_valid(d),
        op_fresh(d, op),
        apply_spec(d, op) is Ok,
        op is SetTextDocument,
    ensures
        ({
            let (d2, inv) = apply_spec(d, op)->Ok_0;
            apply_spec(d2, inv) == Ok::<(DocView, OpView), crate::ops::OpError>((d, op))
        }),
{
    let (d2, inv) = apply_spec(d, op)->Ok_0;
    let comp = op->SetTextDocument_comp;
    let layer = op->SetTextDocument_layer;
    let document = op->SetTextDocument_document;
    let (ci, li) = locate(d, comp, layer)->Ok_0;
    lemma_first_item_some(d.items, comp, 0);
    let c = comp_at(d, ci);
    let l = c.layers[li];
    lemma_first_layer_some(c.layers, layer, 0);
    let l2 = LayerView { kind: LayerKindView::Text { document }, ..l };
    lemma_with_layer_lookups(d, comp, layer, ci, li, l2);
    assert(LayerView { kind: l.kind, ..l2 } == l);
    assert(comp_at(d2, ci).layers.update(li, l) =~= c.layers);
    assert(d2.items.update(ci, ItemView::Composition(c)) =~= d.items);
}

/// The round trip for `SetWorkArea`.
proof fn lemma_inverse_set_work_area(d: DocView, op: OpView)
    requires
        doc_spans_valid(d),
        op_fresh(d, op),
        apply_spec(d, op) is Ok,
        op is SetWorkArea,
    ensures
        ({
            let (d2, inv) = apply_spec(d, op)->Ok_0;
            apply_spec(d2, inv) == Ok::<(DocView, OpView), crate::ops::OpError>((d, op))
        }),
{
    let (d2, inv) = apply_spec(d, op)->Ok_0;
    let comp = op->SetWorkArea_comp;
    let work_area = op->SetWorkArea_work_area;
    let ci = comp_index(d.items, comp)->Some_0;
    let c = comp_at(d, ci);
    let c2 = CompView { work_area, ..c };
    lemma_with_comp_lookups(d, ci, c2, comp);
    assert(comp_spans_valid(c)) by {
        lemma_first_item_some(d.items, comp, 0);
        assert(d.items[ci] is Composition);
    }
    assert(CompView { work_area: c.work_area, ..c2 } == c);
    lemma_first_item_some(d.items, comp, 0);
    assert(d.items[ci] == ItemView::Composition(c));
    assert(d2.items.update(ci, ItemView::Composition(c)) =~= d.items);
}

/// The round trip for `SetLayerBlend`.
proof fn lemma_inverse_set_layer_blend(d: DocView, op: OpView)
    requires
        doc_spans_valid(d),
        op_fresh(d, op),
        apply_spec(d, op) is Ok,
        op is SetLayerBlend,
    ensures
        ({
            let (d2, inv) = apply_spec(d, op)->Ok_0;
            apply_spec(d2, inv) == Ok::<(DocView, OpView), crate::ops::OpError>((d, op))
        }),
{
    let (d2, inv) = apply_spec(d, op)->Ok_0;
    let comp = op->SetLayerBlend_comp;
    let layer = op->SetLayerBlend_layer;
    let blend = op->SetLayerBlend_blend;
    let (ci, li) = locate(d, comp, layer)->Ok_0;
    lemma_first_item_some(d.items, comp, 0);
    let c = comp_at(d, ci);
    let l = c.layers[li];
    lemma_first_layer_some(c.layers, layer, 0);
    let l2 = LayerView { blend, ..l };
    lemma_with_layer_lookups(d, comp, layer, ci, li, l2);
    assert(LayerView { blend: l.blend, ..l2 } == l);
    assert(comp_at(d2, ci).layers.update(li, l) =~= c.layers);
    assert(d2.items.update(ci, ItemView::Composition(c)) =~= d.items);
}

/// The round trip for `SetLayerMatte`.
proof fn lemma_inverse_set_layer_matte(d: DocView, op: OpView)
    requires
        doc_spans_valid(d),
        op_fresh(d, op),
        apply_spec(d, op) is Ok,
        op is SetLayerMatte,
    ensures
        ({
            let (d2, inv) = apply_spec(d, op)->Ok_0;
            apply_spec(d2, inv) == Ok::<(DocView, OpView), crate::ops::OpError>((d, op))
        }),
{
    let (d2, inv) = apply_spec(d, op)->Ok_0;
    let comp = op->SetLayerMatte_comp;
    let layer = op->SetLayerMatte_layer;
    let matte = op->SetLayerMatte_matte;
    let (ci, li) = locate(d, comp, layer)->Ok_0;
    lemma_first_item_some(d.items, comp, 0);
    let c = comp_at(d, ci);
    let l = c.layers[li];
    lemma_first_layer_some(c.layers, layer, 0);
    let l2 = LayerView { matte, ..l };
    lemma_with_layer_lookups(d, comp, layer, ci, li, l2);
    assert(LayerView { matte: l.matte, ..l2 } == l);
    assert(comp_at(d2, ci).layers.update(li, l) =~= c.layers);
    assert(d2.items.update(ci, ItemView::Composition(c)) =~= d.items);
}

/// The round trip for `SetTransformProperty`.
proof fn lemma_inverse_set_transform_property(d: DocView, op: OpView)
    requires
        doc_spans_valid(d),
        op_fresh(d, op),
        apply_spec(d, op) is Ok,
        op is SetTransformProperty,
    ensures
        ({
            let (d2, inv) = apply_spec(d, op)->Ok_0;
            apply_spec(d2, inv) == Ok::<(DocView, OpView), crate::ops::OpError>((d, op))
        }),
{
    let (d2, inv) = apply_spec(d, op)->Ok_0;
    let comp = op->SetTransformProperty_comp;
    let layer = op->SetTransformProperty_layer;
    let prop = op->SetTransformProperty_prop;
    let animation = op->SetTransformProperty_animation;
    let (ci, li) = locate(d, comp, layer)->Ok_0;
    lemma_first_item_some(d.items, comp, 0);
    let c = comp_at(d, ci);
    let l = c.layers[li];
    lemma_first_layer_some(c.layers, layer, 0);
    let l2 = LayerView { transform: with_prop(l.transform, prop, animation), ..l };
    lemma_with_layer_lookups(d, comp, layer, ci, li, l2);
    lemma_prop_round_trip(l.transform, prop, animation);
    lemma_first_item_some(d.items, comp, 0);
    assert(LayerView { transform: with_prop(l2.transform, prop, prop_of(l.transform, prop)), ..l2 } == l);
    assert(comp_at(d2, ci).layers == c.layers.update(li, l2));
    assert(comp_at(d2, ci).layers.update(li, l) =~= c.layers);
    assert(d2.items.update(ci, ItemView::Composition(c)) =~= d.items);
}

/// Applying an operation and then the inverse it returned restores the
/// document exactly and returns the operation first applied — for a document
/// whose layer spans and work areas run forward, and an operation that adds
/// nothing under an id already taken where it lands.
pub proof fn law_apply_inverse(d: DocView, op: OpView)
    requires
        doc_spans_valid(d),
        op_fresh(d, op),
        apply_spec(d, op) is Ok,
    ensures
        ({
            let (d2, inv) = apply_spec(d, op)->Ok_0;
            apply_spec(d2, inv) == Ok::<(DocView, OpView), crate::ops::OpError>((d, op))
        }),
{
    match op {
        OpView::AddItem { .. } => lemma_inverse_add_item(d, op),
        OpView::RemoveItem { .. } => lemma_inverse_remove_item(d, op),
        OpView::RenameItem { .. } => lemma_inverse_rename_item(d, op),
        OpView::AddLayer { .. } => lemma_inverse_add_layer(d, op),
        OpView::RemoveLayer { .. } => lemma_inverse_remove_layer(d, op),
        OpView::SetLayerSpan { .. } => lemma_inverse_set_layer_span(d, op),
        OpView::RenameLayer { .. } => lemma_inverse_rename_layer(d, op),
        OpView::SetTextDocument { .. } => lemma_inverse_set_text_document(d, op),
        OpView::SetWorkArea { .. } => lemma_inverse_set_work_area(d, op),
        OpView::SetLayerBlend { .. } => lemma_inverse_set_layer_blend(d, op),
        OpView::SetLayerMatte { .. } => lemma_inverse_set_layer_matte(d, op),
        OpView::SetTransformProperty { .. } => lemma_inverse_set_transform_property(d, op),
    }
}

} // verus!
