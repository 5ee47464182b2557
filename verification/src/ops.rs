//! Operations: small, invertible commands on the document. Applying an
//! operation yields its exact inverse; the journal of (operation, inverse)
//! pairs is the undo/redo stack and the crash-recovery log.

use crate::anim::{Animation, AnimationView};
use crate::model::{
    comp_index, first_item, item_id, item_name, item_views, layer_views, prop_of, with_name, with_prop,
    BlendMode, CompView, Composition, DocView, Document, ItemView, Layer, LayerKind, LayerKindView,
    LayerView, MatteRef, ProjectItem, TextDocument, TextView, TransformProp,
};
use crate::time::CompTime;
use vstd::prelude::*;

verus! {

/// Why an operation was refused.
#[derive(Debug, Clone, Copy, PartialEq, Eq, Structural)]
pub enum OpError {
    /// No project item has the id.
    UnknownItem,
    /// The id names no composition.
    UnknownComp,
    /// The composition has no such layer (or it is not of the kind the
    /// operation needs).
    UnknownLayer,
    /// An insertion index past the end.
    BadIndex,
    /// An out point not after its in point.
    InvalidSpan,
}

/// A document edit.
#[derive(Debug, PartialEq)]
pub enum Op {
    /// Insert a project item at an index in the Project panel order.
    AddItem { index: usize, item: Box<ProjectItem> },
    RemoveItem { id: u128 },
    RenameItem { id: u128, name: String },
    /// Insert a layer at a stack index (0 = top) of a comp.
    AddLayer { comp: u128, index: usize, layer: Box<Layer> },
    RemoveLayer { comp: u128, layer: u128 },
    /// Set a layer's span on the comp timeline.
    SetLayerSpan { comp: u128, layer: u128, in_point: CompTime, out_point: CompTime, start_offset: CompTime },
    RenameLayer { comp: u128, layer: u128, name: String },
    /// Replace a Text layer's document.
    SetTextDocument { comp: u128, layer: u128, document: TextDocument },
    SetWorkArea { comp: u128, work_area: Option<(CompTime, CompTime)> },
    SetLayerBlend { comp: u128, layer: u128, blend: BlendMode },
    /// Point a layer at another layer as its matte (or clear it).
    SetLayerMatte { comp: u128, layer: u128, matte: Option<MatteRef> },
    /// Replace one transform property's whole animation.
    SetTransformProperty { comp: u128, layer: u128, prop: TransformProp, animation: Animation },
}

/// What an operation holds.
pub enum OpView {
    AddItem { index: nat, item: ItemView },
    RemoveItem { id: u128 },
    RenameItem { id: u128, name: Seq<char> },
    AddLayer { comp: u128, index: nat, layer: LayerView },
    RemoveLayer { comp: u128, layer: u128 },
    SetLayerSpan { comp: u128, layer: u128, in_point: CompTime, out_point: CompTime, start_offset: CompTime },
    RenameLayer { comp: u128, layer: u128, name: Seq<char> },
    SetTextDocument { comp: u128, layer: u128, document: TextView },
    SetWorkArea { comp: u128, work_area: Option<(CompTime, CompTime)> },
    SetLayerBlend { comp: u128, layer: u128, blend: BlendMode },
    SetLayerMatte { comp: u128, layer: u128, matte: Option<MatteRef> },
    SetTransformProperty { comp: u128, layer: u128, prop: TransformProp, animation: AnimationView },
}

impl View for Op {
    type V = OpView;

    open spec fn view(&self) -> OpView {
        match self {
            Op::AddItem { index, item } => OpView::AddItem { index: *index as nat, item: item@ },
            Op::RemoveItem { id } => OpView::RemoveItem { id: *id },
            Op::RenameItem { id, name } => OpView::RenameItem { id: *id, name: name@ },
            Op::AddLayer { comp, index, layer } => OpView::AddLayer { comp: *comp, index: *index as nat, layer: layer@ },
            Op::RemoveLayer { comp, layer } => OpView::RemoveLayer { comp: *comp, layer: *layer },
            Op::SetLayerSpan { comp, layer, in_point, out_point, start_offset } => OpView::SetLayerSpan {
                comp: *comp,
                layer: *layer,
                in_point: *in_point,
                out_point: *out_point,
                start_offset: *start_offset,
            },
            Op::RenameLayer { comp, layer, name } => OpView::RenameLayer { comp: *comp, layer: *layer, name: name@ },
            Op::SetTextDocument { comp, layer, document } => OpView::SetTextDocument {
                comp: *comp,
                layer: *layer,
                document: document@,
            },
            Op::SetWorkArea { comp, work_area } => OpView::SetWorkArea { comp: *comp, work_area: *work_area },
            Op::SetLayerBlend { comp, layer, blend } => OpView::SetLayerBlend { comp: *comp, layer: *layer, blend: *blend },
            Op::SetLayerMatte { comp, layer, matte } => OpView::SetLayerMatte { comp: *comp, layer: *layer, matte: *matte },
            Op::SetTransformProperty { comp, layer, prop, animation } => OpView::SetTransformProperty {
                comp: *comp,
                layer: *layer,
                prop: *prop,
                animation: animation@,
            },
        }
    }
}

impl Clone for Op {
    fn clone(&self) -> (r: Self)
        ensures
            r@ == self@,
    {
        match self {
            Op::AddItem { index, item } => {
                let it: ProjectItem = (**item).clone();
                Op::AddItem { index: *index, item: Box::new(it) }
            },
            Op::RemoveItem { id } => Op::RemoveItem { id: *id },
            Op::RenameItem { id, name } => Op::RenameItem { id: *id, name: name.clone() },
            Op::AddLayer { comp, index, layer } => {
                let l: Layer = (**layer).clone();
                Op::AddLayer { comp: *comp, index: *index, layer: Box::new(l) }
            },
            Op::RemoveLayer { comp, layer } => Op::RemoveLayer { comp: *comp, layer: *layer },
            Op::SetLayerSpan { comp, layer, in_point, out_point, start_offset } => Op::SetLayerSpan {
                comp: *comp,
                layer: *layer,
                in_point: *in_point,
                out_point: *out_point,
                start_offset: *start_offset,
            },
            Op::RenameLayer { comp, layer, name } => Op::RenameLayer { comp: *comp, layer: *layer, name: name.clone() },
            Op::SetTextDocument { comp, layer, document } => Op::SetTextDocument {
                comp: *comp,
                layer: *layer,
                document: document.clone(),
            },
            Op::SetWorkArea { comp, work_area } => Op::SetWorkArea { comp: *comp, work_area: *work_area },
            Op::SetLayerBlend { comp, layer, blend } => Op::SetLayerBlend { comp: *comp, layer: *layer, blend: *blend },
            Op::SetLayerMatte { comp, layer, matte } => Op::SetLayerMatte { comp: *comp, layer: *layer, matte: *matte },
            Op::SetTransformProperty { comp, layer, prop, animation } => Op::SetTransformProperty {
                comp: *comp,
                layer: *layer,
                prop: *prop,
                animation: animation.clone(),
            },
        }
    }
}

/// `b` is not after `a` (an empty or inverted span from `a` to `b`).
pub open spec fn not_after(b: CompTime, a: CompTime) -> bool {
    b.0.spec_le(a.0)
}

/// The first index from `k` on whose layer has id `id`.
pub open spec fn first_layer_from(layers: Seq<LayerView>, id: u128, k: int) -> Option<int>
    decreases layers.len() - k,
{
    if k < 0 || k >= layers.len() {
        None
    } else if layers[k].id == id {
        Some(k)
    } else {
        first_layer_from(layers, id, k + 1)
    }
}

/// The first index whose layer has id `id`.
pub open spec fn first_layer(layers: Seq<LayerView>, id: u128) -> Option<int> {
    first_layer_from(layers, id, 0)
}

/// Composition `ci` of the document.
pub open spec fn comp_at(d: DocView, ci: int) -> CompView {
    d.items[ci]->Composition_0
}

/// The document with composition `ci` replaced by `c`.
pub open spec fn with_comp(d: DocView, ci: int, c: CompView) -> DocView {
    DocView { items: d.items.update(ci, ItemView::Composition(c)), ..d }
}

/// The document with layer `li` of composition `ci` replaced by `l`.
pub open spec fn with_layer(d: DocView, ci: int, li: int, l: LayerView) -> DocView {
    with_comp(d, ci, CompView { layers: comp_at(d, ci).layers.update(li, l), ..comp_at(d, ci) })
}

/// Locate composition `comp` and its layer `layer`, or the error the lookup
/// reports.
pub open spec fn locate(d: DocView, comp: u128, layer: u128) -> Result<(int, int), OpError> {
    match comp_index(d.items, comp) {
        None => Err(OpError::UnknownComp),
        Some(ci) => match first_layer(comp_at(d, ci).layers, layer) {
            None => Err(OpError::UnknownLayer),
            Some(li) => Ok((ci, li)),
        },
    }
}

/// What applying an operation does: the new document and the inverse
/// operation, or the error (and then the document is left as it was).
pub open spec fn apply_spec(d: DocView, op: OpView) -> Result<(DocView, OpView), OpError> {
    match op {
        OpView::AddItem { index, item } => if index > d.items.len() {
            Err(OpError::BadIndex)
        } else {
            Ok((DocView { items: d.items.insert(index as int, item), ..d }, OpView::RemoveItem { id: item_id(item) }))
        },
        OpView::RemoveItem { id } => match first_item(d.items, id) {
            None => Err(OpError::UnknownItem),
            Some(i) => Ok((DocView { items: d.items.remove(i), ..d }, OpView::AddItem { index: i as nat, item: d.items[i] })),
        },
        OpView::RenameItem { id, name } => match first_item(d.items, id) {
            None => Err(OpError::UnknownItem),
            Some(i) => Ok(
                (
                    DocView { items: d.items.update(i, with_name(d.items[i], name)), ..d },
                    OpView::RenameItem { id, name: item_name(d.items[i]) },
                ),
            ),
        },
        OpView::AddLayer { comp, index, layer } => match comp_index(d.items, comp) {
            None => Err(OpError::UnknownComp),
            Some(ci) => {
                let c = comp_at(d, ci);
                if index > c.layers.len() {
                    Err(OpError::BadIndex)
                } else if not_after(layer.out_point, layer.in_point) {
                    Err(OpError::InvalidSpan)
                } else {
                    Ok(
                        (
                            with_comp(d, ci, CompView { layers: c.layers.insert(index as int, layer), ..c }),
                            OpView::RemoveLayer { comp, layer: layer.id },
                        ),
                    )
                }
            },
        },
        OpView::RemoveLayer { comp, layer } => match locate(d, comp, layer) {
            Err(e) => Err(e),
            Ok((ci, li)) => {
                let c = comp_at(d, ci);
                Ok(
                    (
                        with_comp(d, ci, CompView { layers: c.layers.remove(li), ..c }),
                        OpView::AddLayer { comp, index: li as nat, layer: c.layers[li] },
                    ),
                )
            },
        },
        OpView::SetLayerSpan { comp, layer, in_point, out_point, start_offset } => if not_after(out_point, in_point) {
            Err(OpError::InvalidSpan)
        } else {
            match locate(d, comp, layer) {
                Err(e) => Err(e),
                Ok((ci, li)) => {
                    let l = comp_at(d, ci).layers[li];
                    Ok(
                        (
                            with_layer(d, ci, li, LayerView { in_point, out_point, start_offset, ..l }),
                            OpView::SetLayerSpan {
                                comp,
                                layer,
                                in_point: l.in_point,
                                out_point: l.out_point,
                                start_offset: l.start_offset,
                            },
                        ),
                    )
                },
            }
        },
        OpView::RenameLayer { comp, layer, name } => match locate(d, comp, layer) {
            Err(e) => Err(e),
            Ok((ci, li)) => {
                let l = comp_at(d, ci).layers[li];
                Ok((with_layer(d, ci, li, LayerView { name, ..l }), OpView::RenameLayer { comp, layer, name: l.name }))
            },
        },
        OpView::SetTextDocument { comp, layer, document } => match locate(d, comp, layer) {
            Err(e) => Err(e),
            Ok((ci, li)) => {
                let l = comp_at(d, ci).layers[li];
                match l.kind {
                    LayerKindView::Text { document: current } => Ok(
                        (
                            with_layer(d, ci, li, LayerView { kind: LayerKindView::Text { document }, ..l }),
                            OpView::SetTextDocument { comp, layer, document: current },
                        ),
                    ),
                    _ => Err(OpError::UnknownLayer),
                }
            },
        },
        OpView::SetWorkArea { comp, work_area } => if work_area matches Some((a, b)) && not_after(b, a) {
            Err(OpError::InvalidSpan)
        } else {
            match comp_index(d.items, comp) {
                None => Err(OpError::UnknownComp),
                Some(ci) => {
                    let c = comp_at(d, ci);
                    Ok(
                        (
                            with_comp(d, ci, CompView { work_area, ..c }),
                            OpView::SetWorkArea { comp, work_area: c.work_area },
                        ),
                    )
                },
            }
        },
        OpView::SetLayerBlend { comp, layer, blend } => match locate(d, comp, layer) {
            Err(e) => Err(e),
            Ok((ci, li)) => {
                let l = comp_at(d, ci).layers[li];
                Ok((with_layer(d, ci, li, LayerView { blend, ..l }), OpView::SetLayerBlend { comp, layer, blend: l.blend }))
            },
        },
        OpView::SetLayerMatte { comp, layer, matte } => match locate(d, comp, layer) {
            Err(e) => Err(e),
            Ok((ci, li)) => {
                let l = comp_at(d, ci).layers[li];
                Ok((with_layer(d, ci, li, LayerView { matte, ..l }), OpView::SetLayerMatte { comp, layer, matte: l.matte }))
            },
        },
        OpView::SetTransformProperty { comp, layer, prop, animation } => match locate(d, comp, layer) {
            Err(e) => Err(e),
            Ok((ci, li)) => {
                let l = comp_at(d, ci).layers[li];
                Ok(
                    (
                        with_layer(d, ci, li, LayerView { transform: with_prop(l.transform, prop, animation), ..l }),
                        OpView::SetTransformProperty { comp, layer, prop, animation: prop_of(l.transform, prop) },
                    ),
                )
            },
        },
    }
}

/// Removing the element at `i` and inserting `x` there replaces it.
proof fn lemma_remove_insert<A>(s: Seq<A>, i: int, x: A)
    requires
        0 <= i < s.len(),
    ensures
        s.remove(i).insert(i, x) == s.update(i, x),
{
    assert(s.remove(i).insert(i, x) =~= s.update(i, x));
}

/// The position of the first layer with id `id`.
fn layer_position(layers: &Vec<Layer>, id: u128) -> (r: Option<usize>)
    ensures
        match r {
            None => first_layer(layer_views(layers@), id) is None,
            Some(i) => first_layer(layer_views(layers@), id) == Some(i as int) && i < layers@.len(),
        },
{
    let ghost v = layer_views(layers@);
    let n = layers.len();
    let mut i: usize = 0;
    while i < n
        invariant
            n == layers@.len(),
            v == layer_views(layers@),
            i <= n,
            first_layer(v, id) == first_layer_from(v, id, i as int),
        decreases n - i,
    {
        assert(v[i as int] == layers@[i as int]@);
        if layers[i].id == id {
            return Some(i);
        }
        i = i + 1;
    }
    None
}

/// The position of the composition `id` names.
pub(crate) fn comp_position(doc: &Document, id: u128) -> (r: Option<usize>)
    ensures
        match r {
            None => comp_index(doc@.items, id) is None,
            Some(i) => comp_index(doc@.items, id) == Some(i as int) && i < doc.items@.len(),
        },
{
    match doc.item_index(id) {
        None => None,
        Some(i) => match &doc.items[i] {
            ProjectItem::Composition(_) => Some(i),
            _ => None,
        },
    }
}

/// Take item `i` out of the document.
fn take_item(doc: &mut Document, i: usize) -> (it: ProjectItem)
    requires
        i < old(doc).items@.len(),
    ensures
        it@ == old(doc)@.items[i as int],
        final(doc)@ == (DocView { items: old(doc)@.items.remove(i as int), ..old(doc)@ }),
        final(doc).items@.len() == old(doc).items@.len() - 1,
{
    let it = doc.items.remove(i);
    assert(crate::model::item_views(doc.items@) =~= old(doc)@.items.remove(i as int));
    it
}

/// Put `it` into the document at position `i`.
fn put_item(doc: &mut Document, i: usize, it: ProjectItem)
    requires
        i <= old(doc).items@.len(),
    ensures
        final(doc)@ == (DocView { items: old(doc)@.items.insert(i as int, it@), ..old(doc)@ }),
{
    let ghost v = it@;
    doc.items.insert(i, it);
    assert(crate::model::item_views(doc.items@) =~= old(doc)@.items.insert(i as int, v));
}

/// Take composition `comp` and its layer `layer` out of the document: the
/// composition leaves the item list and the layer leaves the composition.
fn take_located(doc: &mut Document, comp: u128, layer: u128) -> (r: Result<(usize, usize, Composition, Layer), OpError>)
    ensures
        match locate(old(doc)@, comp, layer) {
            Err(e) => r == Err::<(usize, usize, Composition, Layer), OpError>(e) && final(doc)@ == old(doc)@,
            Ok((ci, li)) => (r matches Ok((a, b, c, l)) && {
                &&& a == ci
                &&& b == li
                &&& 0 <= ci < old(doc)@.items.len()
                &&& 0 <= li < comp_at(old(doc)@, ci).layers.len()
                &&& old(doc)@.items[ci] == ItemView::Composition(comp_at(old(doc)@, ci))
                &&& c@ == (CompView { layers: comp_at(old(doc)@, ci).layers.remove(li), ..comp_at(old(doc)@, ci) })
                &&& l@ == comp_at(old(doc)@, ci).layers[li]
                &&& final(doc)@ == (DocView { items: old(doc)@.items.remove(ci), ..old(doc)@ })
                &&& final(doc).items@.len() == old(doc).items@.len() - 1
                &&& c.layers@.len() == comp_at(old(doc)@, ci).layers.len() - 1
            }),
        },
{
    let ci = match comp_position(doc, comp) {
        Some(ci) => ci,
        None => return Err(OpError::UnknownComp),
    };
    let li = match &doc.items[ci] {
        ProjectItem::Composition(c) => match layer_position(&c.layers, layer) {
            Some(li) => li,
            None => return Err(OpError::UnknownLayer),
        },
        _ => return Err(OpError::UnknownComp),
    };
    let item = take_item(doc, ci);
    match item {
        ProjectItem::Composition(mut c) => {
            let l = c.layers.remove(li);
            assert(layer_views(c.layers@) =~= layer_views(old(doc).items@[ci as int]->Composition_0.layers@).remove(li as int));
            Ok((ci, li, c, l))
        },
        _ => {
            put_item(doc, ci, item);
            Err(OpError::UnknownComp)
        },
    }
}

/// Put a located layer and its composition back where they were taken from.
fn put_located(doc: &mut Document, ci: usize, c: Composition, li: usize, l: Layer)
    requires
        ci <= old(doc).items@.len(),
        li <= c.layers@.len(),
    ensures
        final(doc)@ == (DocView {
            items: old(doc)@.items.insert(ci as int, ItemView::Composition(CompView { layers: c@.layers.insert(li as int, l@), ..c@ })),
            ..old(doc)@
        }),
{
    let mut c = c;
    let ghost c0 = c@;
    let ghost lv = l@;
    c.layers.insert(li, l);
    assert(layer_views(c.layers@) =~= c0.layers.insert(li as int, lv));
    put_item(doc, ci, ProjectItem::Composition(c));
}

/// `apply` for `AddItem`.
fn apply_add_item(doc: &mut Document, op: &Op) -> (r: Result<Op, OpError>)
    requires
        op is AddItem,
    ensures
        match apply_spec(old(doc)@, op@) {
            Ok((d2, inv)) => final(doc)@ == d2 && (r matches Ok(x) && x@ == inv),
            Err(e) => final(doc)@ == old(doc)@ && r == Err::<Op, OpError>(e),
        },
{
    let ghost d0 = doc@;
    let Op::AddItem { index, item } = op else {
        return Err(OpError::UnknownItem);
    };
    if *index > doc.items.len() {
        return Err(OpError::BadIndex);
    }
    let it: ProjectItem = (**item).clone();
    let id = item.id();
    put_item(doc, *index, it);
    Ok(Op::RemoveItem { id })
}

/// `apply` for `RemoveItem`.
fn apply_remove_item(doc: &mut Document, op: &Op) -> (r: Result<Op, OpError>)
    requires
        op is RemoveItem,
    ensures
        match apply_spec(old(doc)@, op@) {
            Ok((d2, inv)) => final(doc)@ == d2 && (r matches Ok(x) && x@ == inv),
            Err(e) => final(doc)@ == old(doc)@ && r == Err::<Op, OpError>(e),
        },
{
    let ghost d0 = doc@;
    let Op::RemoveItem { id } = op else {
        return Err(OpError::UnknownItem);
    };
    let index = match doc.item_index(*id) {
        Some(i) => i,
        None => return Err(OpError::UnknownItem),
    };
    let item = take_item(doc, index);
    Ok(Op::AddItem { index, item: Box::new(item) })
}

/// `apply` for `RenameItem`.
fn apply_rename_item(doc: &mut Document, op: &Op) -> (r: Result<Op, OpError>)
    requires
        op is RenameItem,
    ensures
        match apply_spec(old(doc)@, op@) {
            Ok((d2, inv)) => final(doc)@ == d2 && (r matches Ok(x) && x@ == inv),
            Err(e) => final(doc)@ == old(doc)@ && r == Err::<Op, OpError>(e),
        },
{
    let ghost d0 = doc@;
    let Op::RenameItem { id, name } = op else {
        return Err(OpError::UnknownItem);
    };
    let i = match doc.item_index(*id) {
        Some(i) => i,
        None => return Err(OpError::UnknownItem),
    };
    let mut item = take_item(doc, i);
    let previous = item.name().to_owned();
    item.set_name(name.clone());
    put_item(doc, i, item);
    proof {
        lemma_remove_insert(d0.items, i as int, with_name(d0.items[i as int], name@));
    }
    Ok(Op::RenameItem { id: *id, name: previous })
}

/// `apply` for `AddLayer`.
fn apply_add_layer(doc: &mut Document, op: &Op) -> (r: Result<Op, OpError>)
    requires
        op is AddLayer,
    ensures
        match apply_spec(old(doc)@, op@) {
            Ok((d2, inv)) => final(doc)@ == d2 && (r matches Ok(x) && x@ == inv),
            Err(e) => final(doc)@ == old(doc)@ && r == Err::<Op, OpError>(e),
        },
{
    let ghost d0 = doc@;
    let Op::AddLayer { comp, index, layer } = op else {
        return Err(OpError::UnknownItem);
    };
    let ci = match comp_position(doc, *comp) {
        Some(ci) => ci,
        None => return Err(OpError::UnknownComp),
    };
    let item = take_item(doc, ci);
    proof {
        lemma_remove_insert(d0.items, ci as int, d0.items[ci as int]);
        assert(d0.items.update(ci as int, d0.items[ci as int]) =~= d0.items);
    }
    let mut c = match item {
        ProjectItem::Composition(c) => c,
        _ => {
            put_item(doc, ci, item);
            return Err(OpError::UnknownComp);
        },
    };
    if *index > c.layers.len() {
        put_item(doc, ci, ProjectItem::Composition(c));
        return Err(OpError::BadIndex);
    }
    if layer.out_point.0.le(&layer.in_point.0) {
        put_item(doc, ci, ProjectItem::Composition(c));
        return Err(OpError::InvalidSpan);
    }
    let ghost c0 = c@;
    let ghost lv = layer@;
    c.layers.insert(*index, (**layer).clone());
    assert(layer_views(c.layers@) =~= c0.layers.insert(*index as int, lv));
    let lid = layer.id;
    put_item(doc, ci, ProjectItem::Composition(c));
    proof {
        lemma_remove_insert(d0.items, ci as int, ItemView::Composition(CompView { layers: c0.layers.insert(*index as int, lv), ..c0 }));
    }
    Ok(Op::RemoveLayer { comp: *comp, layer: lid })
}

/// `apply` for `RemoveLayer`.
fn apply_remove_layer(doc: &mut Document, op: &Op) -> (r: Result<Op, OpError>)
    requires
        op is RemoveLayer,
    ensures
        match apply_spec(old(doc)@, op@) {
            Ok((d2, inv)) => final(doc)@ == d2 && (r matches Ok(x) && x@ == inv),
            Err(e) => final(doc)@ == old(doc)@ && r == Err::<Op, OpError>(e),
        },
{
    let ghost d0 = doc@;
    let Op::RemoveLayer { comp, layer } = op else {
        return Err(OpError::UnknownItem);
    };
    match take_located(doc, *comp, *layer) {
        Err(e) => Err(e),
        Ok((ci, li, c, l)) => {
            let ghost lv = l@;
            put_item(doc, ci, ProjectItem::Composition(c));
            proof {
                lemma_remove_insert(d0.items, ci as int, ItemView::Composition(CompView { layers: comp_at(d0, ci as int).layers.remove(li as int), ..comp_at(d0, ci as int) }));
            }
            Ok(Op::AddLayer { comp: *comp, index: li, layer: Box::new(l) })
        },
    }
}

/// `apply` for `SetLayerSpan`.
fn apply_set_layer_span(doc: &mut Document, op: &Op) -> (r: Result<Op, OpError>)
    requires
        op is SetLayerSpan,
    ensures
        match apply_spec(old(doc)@, op@) {
            Ok((d2, inv)) => final(doc)@ == d2 && (r matches Ok(x) && x@ == inv),
            Err(e) => final(doc)@ == old(doc)@ && r == Err::<Op, OpError>(e),
        },
{
    let ghost d0 = doc@;
    let Op::SetLayerSpan { comp, layer, in_point, out_point, start_offset } = op else {
        return Err(OpError::UnknownItem);
    };
    if out_point.0.le(&in_point.0) {
        return Err(OpError::InvalidSpan);
    }
    match take_located(doc, *comp, *layer) {
        Err(e) => Err(e),
        Ok((ci, li, c, mut l)) => {
            let inverse = Op::SetLayerSpan {
                comp: *comp,
                layer: *layer,
                in_point: l.in_point,
                out_point: l.out_point,
                start_offset: l.start_offset,
            };
            l.in_point = *in_point;
            l.out_point = *out_point;
            l.start_offset = *start_offset;
            let ghost lv = l@;
            let ghost cv = c@;
            put_located(doc, ci, c, li, l);
            proof { lemma_put_back(d0, ci as int, li as int, lv); }
            Ok(inverse)
        },
    }
}

/// `apply` for `RenameLayer`.
fn apply_rename_layer(doc: &mut Document, op: &Op) -> (r: Result<Op, OpError>)
    requires
        op is RenameLayer,
    ensures
        match apply_spec(old(doc)@, op@) {
            Ok((d2, inv)) => final(doc)@ == d2 && (r matches Ok(x) && x@ == inv),
            Err(e) => final(doc)@ == old(doc)@ && r == Err::<Op, OpError>(e),
        },
{
    let ghost d0 = doc@;
    let Op::RenameLayer { comp, layer, name } = op else {
        return Err(OpError::UnknownItem);
    };
    match take_located(doc, *comp, *layer) {
        Err(e) => Err(e),
        Ok((ci, li, c, mut l)) => {
            let mut previous = name.clone();
            std::mem::swap(&mut l.name, &mut previous);
            let ghost lv = l@;
            put_located(doc, ci, c, li, l);
            proof { lemma_put_back(d0, ci as int, li as int, lv); }
            Ok(Op::RenameLayer { comp: *comp, layer: *layer, name: previous })
        },
    }
}

/// `apply` for `SetTextDocument`.
fn apply_set_text_document(doc: &mut Document, op: &Op) -> (r: Result<Op, OpError>)
    requires
        op is SetTextDocument,
    ensures
        match apply_spec(old(doc)@, op@) {
            Ok((d2, inv)) => final(doc)@ == d2 && (r matches Ok(x) && x@ == inv),
            Err(e) => final(doc)@ == old(doc)@ && r == Err::<Op, OpError>(e),
        },
{
    let ghost d0 = doc@;
    let Op::SetTextDocument { comp, layer, document } = op else {
        return Err(OpError::UnknownItem);
    };
    match take_located(doc, *comp, *layer) {
        Err(e) => Err(e),
        Ok((ci, li, c, mut l)) => {
            let ghost l0 = l@;
            match l.kind {
                LayerKind::Text { document: current } => {
                    l.kind = LayerKind::Text { document: document.clone() };
                    let ghost lv = l@;
                    put_located(doc, ci, c, li, l);
                    proof { lemma_put_back(d0, ci as int, li as int, lv); }
                    Ok(Op::SetTextDocument { comp: *comp, layer: *layer, document: current })
                },
                kind => {
                    l.kind = kind;
                    put_located(doc, ci, c, li, l);
                    proof { lemma_put_back(d0, ci as int, li as int, l0); lemma_update_same(d0, ci as int, li as int); }
                    Err(OpError::UnknownLayer)
                },
            }
        },
    }
}

/// `apply` for `SetWorkArea`.
fn apply_set_work_area(doc: &mut Document, op: &Op) -> (r: Result<Op, OpError>)
    requires
        op is SetWorkArea,
    ensures
        match apply_spec(old(doc)@, op@) {
            Ok((d2, inv)) => final(doc)@ == d2 && (r matches Ok(x) && x@ == inv),
            Err(e) => final(doc)@ == old(doc)@ && r == Err::<Op, OpError>(e),
        },
{
    let ghost d0 = doc@;
    let Op::SetWorkArea { comp, work_area } = op else {
        return Err(OpError::UnknownItem);
    };
    if let Some((a, b)) = work_area {
        if b.0.le(&a.0) {
            return Err(OpError::InvalidSpan);
        }
    }
    let ci = match comp_position(doc, *comp) {
        Some(ci) => ci,
        None => return Err(OpError::UnknownComp),
    };
    let item = take_item(doc, ci);
    proof {
        lemma_remove_insert(d0.items, ci as int, d0.items[ci as int]);
        assert(d0.items.update(ci as int, d0.items[ci as int]) =~= d0.items);
    }
    let mut c = match item {
        ProjectItem::Composition(c) => c,
        _ => {
            put_item(doc, ci, item);
            return Err(OpError::UnknownComp);
        },
    };
    let previous = c.work_area;
    c.work_area = *work_area;
    let ghost cv = c@;
    put_item(doc, ci, ProjectItem::Composition(c));
    proof {
        lemma_remove_insert(d0.items, ci as int, ItemView::Composition(cv));
    }
    Ok(Op::SetWorkArea { comp: *comp, work_area: previous })
}

/// `apply` for `SetLayerBlend`.
fn apply_set_layer_blend(doc: &mut Document, op: &Op) -> (r: Result<Op, OpError>)
    requires
        op is SetLayerBlend,
    ensures
        match apply_spec(old(doc)@, op@) {
            Ok((d2, inv)) => final(doc)@ == d2 && (r matches Ok(x) && x@ == inv),
            Err(e) => final(doc)@ == old(doc)@ && r == Err::<Op, OpError>(e),
        },
{
    let ghost d0 = doc@;
    let Op::SetLayerBlend { comp, layer, blend } = op else {
        return Err(OpError::UnknownItem);
    };
    match take_located(doc, *comp, *layer) {
        Err(e) => Err(e),
        Ok((ci, li, c, mut l)) => {
            let previous = l.blend;
            l.blend = *blend;
            let ghost lv = l@;
            put_located(doc, ci, c, li, l);
            proof { lemma_put_back(d0, ci as int, li as int, lv); }
            Ok(Op::SetLayerBlend { comp: *comp, layer: *layer, blend: previous })
        },
    }
}

/// `apply` for `SetLayerMatte`.
fn apply_set_layer_matte(doc: &mut Document, op: &Op) -> (r: Result<Op, OpError>)
    requires
        op is SetLayerMatte,
    ensures
        match apply_spec(old(doc)@, op@) {
            Ok((d2, inv)) => final(doc)@ == d2 && (r matches Ok(x) && x@ == inv),
            Err(e) => final(doc)@ == old(doc)@ && r == Err::<Op, OpError>(e),
        },
{
    let ghost d0 = doc@;
    let Op::SetLayerMatte { comp, layer, matte } = op else {
        return Err(OpError::UnknownItem);
    };
    match take_located(doc, *comp, *layer) {
        Err(e) => Err(e),
        Ok((ci, li, c, mut l)) => {
            let previous = l.matte;
            l.matte = *matte;
            let ghost lv = l@;
            put_located(doc, ci, c, li, l);
            proof { lemma_put_back(d0, ci as int, li as int, lv); }
            Ok(Op::SetLayerMatte { comp: *comp, layer: *layer, matte: previous })
        },
    }
}

/// `apply` for `SetTransformProperty`.
fn apply_set_transform_property(doc: &mut Document, op: &Op) -> (r: Result<Op, OpError>)
    requires
        op is SetTransformProperty,
    ensures
        match apply_spec(old(doc)@, op@) {
            Ok((d2, inv)) => final(doc)@ == d2 && (r matches Ok(x) && x@ == inv),
            Err(e) => final(doc)@ == old(doc)@ && r == Err::<Op, OpError>(e),
        },
{
    let ghost d0 = doc@;
    let Op::SetTransformProperty { comp, layer, prop, animation } = op else {
        return Err(OpError::UnknownItem);
    };
    match take_located(doc, *comp, *layer) {
        Err(e) => Err(e),
        Ok((ci, li, c, mut l)) => {
            let slot = l.transform.get_mut(*prop);
            let mut previous = animation.clone();
            std::mem::swap(&mut slot.animation, &mut previous);
            let ghost lv = l@;
            put_located(doc, ci, c, li, l);
            proof { lemma_put_back(d0, ci as int, li as int, lv); }
            Ok(Op::SetTransformProperty { comp: *comp, layer: *layer, prop: *prop, animation: previous })
        },
    }
}

/// Apply `op` to `doc`, returning the exact inverse operation; on an error
/// the document is left as it was.
pub fn apply(doc: &mut Document, op: &Op) -> (r: Result<Op, OpError>)
    ensures
        match apply_spec(old(doc)@, op@) {
            Ok((d2, inv)) => final(doc)@ == d2 && (r matches Ok(x) && x@ == inv),
            Err(e) => final(doc)@ == old(doc)@ && r == Err::<Op, OpError>(e),
        },
{
    match op {
        Op::AddItem { .. } => apply_add_item(doc, op),
        Op::RemoveItem { .. } => apply_remove_item(doc, op),
        Op::RenameItem { .. } => apply_rename_item(doc, op),
        Op::AddLayer { .. } => apply_add_layer(doc, op),
        Op::RemoveLayer { .. } => apply_remove_layer(doc, op),
        Op::SetLayerSpan { .. } => apply_set_layer_span(doc, op),
        Op::RenameLayer { .. } => apply_rename_layer(doc, op),
        Op::SetTextDocument { .. } => apply_set_text_document(doc, op),
        Op::SetWorkArea { .. } => apply_set_work_area(doc, op),
        Op::SetLayerBlend { .. } => apply_set_layer_blend(doc, op),
        Op::SetLayerMatte { .. } => apply_set_layer_matte(doc, op),
        Op::SetTransformProperty { .. } => apply_set_transform_property(doc, op),
    }
}

/// Taking a located layer out and putting `l` back in its place replaces it.
proof fn lemma_put_back(d: DocView, ci: int, li: int, l: LayerView)
    requires
        0 <= ci < d.items.len(),
        d.items[ci] is Composition,
        0 <= li < comp_at(d, ci).layers.len(),
    ensures
        ({
            let c = comp_at(d, ci);
            let c1 = CompView { layers: c.layers.remove(li), ..c };
            DocView {
                items: d.items.remove(ci).insert(ci, ItemView::Composition(CompView { layers: c1.layers.insert(li, l), ..c1 })),
                ..d
            } == with_layer(d, ci, li, l)
        }),
{
    let c = comp_at(d, ci);
    let c1 = CompView { layers: c.layers.remove(li), ..c };
    lemma_remove_insert(c.layers, li, l);
    lemma_remove_insert(d.items, ci, ItemView::Composition(CompView { layers: c1.layers.insert(li, l), ..c1 }));
}

/// Putting a layer back unchanged leaves the document as it was.
proof fn lemma_update_same(d: DocView, ci: int, li: int)
    requires
        0 <= ci < d.items.len(),
        d.items[ci] is Composition,
        0 <= li < comp_at(d, ci).layers.len(),
    ensures
        with_layer(d, ci, li, comp_at(d, ci).layers[li]) == d,
{
    let c = comp_at(d, ci);
    assert(c.layers.update(li, c.layers[li]) =~= c.layers);
    assert(CompView { layers: c.layers, ..c } == c);
    assert(d.items.update(ci, ItemView::Composition(c)) =~= d.items);
}


/// The views of a list of operations.
pub open spec fn op_views(ops: Seq<Op>) -> Seq<OpView> {
    ops.map_values(|o: Op| o@)
}

/// Replaying `ops` from index `i` on: each is applied in turn until one
/// fails; the document reached and the index of the first operation not
/// applied (`ops.len()` when all applied).
pub open spec fn replay_from(d: DocView, ops: Seq<OpView>, i: int) -> (DocView, int)
    decreases ops.len() - i,
{
    if i < 0 || i >= ops.len() {
        (d, i)
    } else {
        match apply_spec(d, ops[i]) {
            Err(_) => (d, i),
            Ok((d2, _)) => replay_from(d2, ops, i + 1),
        }
    }
}

/// Replay a journal of operations onto `doc` in order, stopping at the first
/// that fails (which, like every later one, is left unapplied). Returns how
/// many were applied.
pub fn replay(doc: &mut Document, ops: &[Op]) -> (k: usize)
    ensures
        (final(doc)@, k as int) == replay_from(old(doc)@, op_views(ops@), 0),
{
    let ghost v = op_views(ops@);
    let mut i: usize = 0;
    while i < ops.len()
        invariant
            v == op_views(ops@),
            i <= ops.len(),
            replay_from(doc@, v, i as int) == replay_from(old(doc)@, v, 0),
        decreases ops.len() - i,
    {
        assert(v[i as int] == ops@[i as int]@);
        match apply(doc, &ops[i]) {
            Ok(_) => {},
            Err(_) => {
                return i;
            },
        }
        i = i + 1;
    }
    i
}
} // verus!
