//! Composition nesting: which compositions a composition's Precomp layers
//! nest, and whether nesting one composition inside another would close a
//! loop.

use crate::model::{
    comp_index, default_transform, first_item, first_item_from, item_id, layer_views, BlendMode, CompView, DocView,
    Document, ItemView, Layer, LayerKind, LayerKindView, LayerView, ProjectItem, Switches, TransformGroup,
};
use crate::ops::{apply_spec, Op, OpView};
use crate::rational::Rational;
use crate::time::CompTime;
use vstd::prelude::*;

verus! {

/// The compositions the Precomp layers of `layers` nest, in layer order.
pub open spec fn precomp_ids(layers: Seq<LayerView>) -> Seq<u128>
    decreases layers.len(),
{
    if layers.len() == 0 {
        Seq::empty()
    } else {
        let rest = precomp_ids(layers.drop_last());
        match layers.last().kind {
            LayerKindView::Precomp { comp } => rest.push(comp),
            _ => rest,
        }
    }
}

/// The compositions composition `id` nests directly (none when `id` names no
/// composition).
pub open spec fn nested_comps(items: Seq<ItemView>, id: u128) -> Seq<u128> {
    match comp_index(items, id) {
        Some(ci) => precomp_ids(items[ci]->Composition_0.layers),
        None => Seq::empty(),
    }
}

/// `p` walks from composition to nested composition.
pub open spec fn is_nest_path(items: Seq<ItemView>, p: Seq<u128>) -> bool {
    &&& p.len() >= 1
    &&& forall|k: int| 0 <= k < p.len() - 1 ==> nested_comps(items, #[trigger] p[k]).contains(p[k + 1])
}

/// Composition `b` is `a` or is nested, at any depth, inside `a`.
pub open spec fn reaches(items: Seq<ItemView>, a: u128, b: u128) -> bool {
    exists|p: Seq<u128>| #[trigger] is_nest_path(items, p) && p[0] == a && p.last() == b
}

/// How many compositions of `items[..k]` have an id outside `seen`.
pub open spec fn unseen_comps(items: Seq<ItemView>, seen: Seq<u128>, k: int) -> nat
    decreases k,
{
    if k <= 0 {
        0
    } else {
        unseen_comps(items, seen, k - 1) + if items[k - 1] is Composition && !seen.contains(item_id(items[k - 1])) {
            1nat
        } else {
            0nat
        }
    }
}

/// Seeing one more id never adds unseen compositions, and seeing a
/// composition's id for the first time removes at least one.
proof fn lemma_unseen_shrinks(items: Seq<ItemView>, seen: Seq<u128>, x: u128, k: int, ci: int)
    requires
        0 <= k <= items.len(),
    ensures
        unseen_comps(items, seen.push(x), k) <= unseen_comps(items, seen, k),
        0 <= ci < k && items[ci] is Composition && item_id(items[ci]) == x && !seen.contains(x) ==> unseen_comps(
            items,
            seen.push(x),
            k,
        ) < unseen_comps(items, seen, k),
    decreases k,
{
    broadcast use vstd::seq_lib::group_seq_properties;

    if k > 0 {
        lemma_unseen_shrinks(items, seen, x, k - 1, ci);
    }
}

/// A path extended by one nesting step is still a path.
proof fn lemma_extend(items: Seq<ItemView>, p: Seq<u128>, y: u128)
    requires
        is_nest_path(items, p),
        nested_comps(items, p.last()).contains(y),
    ensures
        is_nest_path(items, p.push(y)),
        p.push(y)[0] == p[0],
        p.push(y).last() == y,
{
    let q = p.push(y);
    assert forall|k: int| 0 <= k < q.len() - 1 implies nested_comps(items, #[trigger] q[k]).contains(q[k + 1]) by {
        if k < p.len() - 1 {
            assert(q[k] == p[k] && q[k + 1] == p[k + 1]);
        } else {
            assert(q[k] == p.last());
        }
    }
}

/// Along a path that starts in a nesting-closed set, every step stays in it.
proof fn lemma_closed_path(items: Seq<ItemView>, seen: Seq<u128>, p: Seq<u128>, k: int)
    requires
        is_nest_path(items, p),
        seen.contains(p[0]),
        forall|x: u128, y: u128| seen.contains(x) && nested_comps(items, x).contains(y) ==> seen.contains(y),
        0 <= k < p.len(),
    ensures
        seen.contains(p[k]),
    decreases k,
{
    if k > 0 {
        lemma_closed_path(items, seen, p, k - 1);
        assert(nested_comps(items, p[k - 1]).contains(p[k]));
    }
}

/// The first item found for an id has that id.
proof fn lemma_found_has_id(items: Seq<ItemView>, id: u128, k: int)
    requires
        0 <= k,
        first_item_from(items, id, k) is Some,
    ensures
        k <= first_item_from(items, id, k)->Some_0 < items.len(),
        item_id(items[first_item_from(items, id, k)->Some_0]) == id,
    decreases items.len() - k,
{
    if k < items.len() && item_id(items[k]) != id {
        lemma_found_has_id(items, id, k + 1);
    }
}

/// Whether `v` holds `x`.
fn holds(v: &Vec<u128>, x: u128) -> (r: bool)
    ensures
        r == v@.contains(x),
{
    for i in 0..v.len()
        invariant
            !v@.subrange(0, i as int).contains(x),
    {
        if v[i] == x {
            assert(v@[i as int] == x);
            return true;
        }
        assert(v@.subrange(0, i + 1) =~= v@.subrange(0, i as int).push(v@[i as int]));
        proof {
            broadcast use vstd::seq_lib::group_seq_properties;
        }
    }
    assert(v@.subrange(0, v@.len() as int) =~= v@);
    false
}

/// Push the compositions the Precomp layers of `layers` nest onto `stack`,
/// in layer order.
fn push_precomps(stack: &mut Vec<u128>, layers: &Vec<crate::model::Layer>)
    ensures
        final(stack)@ == old(stack)@ + precomp_ids(layer_views(layers@)),
{
    let ghost lv = layer_views(layers@);
    for j in 0..layers.len()
        invariant
            lv == layer_views(layers@),
            stack@ == old(stack)@ + precomp_ids(lv.subrange(0, j as int)),
    {
        let ghost before = stack@;
        proof {
            let s = lv.subrange(0, j + 1);
            assert(s.drop_last() =~= lv.subrange(0, j as int));
            assert(s.last() == layers@[j as int]@);
        }
        if let LayerKind::Precomp { comp } = &layers[j].kind {
            stack.push(*comp);
        }
        assert(stack@ =~= old(stack)@ + precomp_ids(lv.subrange(0, j + 1)));
    }
    assert(lv.subrange(0, lv.len() as int) =~= lv);
}

/// Would nesting `nested` inside `target` close a loop? True exactly when
/// `target` is `nested` or is nested, at any depth, inside `nested`.
pub fn would_cycle(doc: &Document, nested: u128, target: u128) -> (r: bool)
    ensures
        r == reaches(doc@.items, nested, target),
{
    let ghost items = doc@.items;
    let mut stack: Vec<u128> = Vec::new();
    stack.push(nested);
    let mut seen: Vec<u128> = Vec::new();
    proof {
        assert(is_nest_path(items, seq![nested]));
        assert(seq![nested][0] == nested && seq![nested].last() == nested);
        assert(stack@ == seq![nested]);
    }
    loop
        invariant
            items == doc@.items,
            forall|x: u128| #[trigger] stack@.contains(x) ==> reaches(items, nested, x),
            forall|x: u128| #[trigger] seen@.contains(x) ==> reaches(items, nested, x),
            !seen@.contains(target),
            seen@.contains(nested) || stack@.contains(nested),
            forall|x: u128, y: u128|
                seen@.contains(x) && #[trigger] nested_comps(items, x).contains(y) ==> seen@.contains(y)
                    || stack@.contains(y),
        decreases unseen_comps(items, seen@, items.len() as int), stack@.len(),
    {
        let ghost st0 = stack@;
        let ghost seen0 = seen@;
        let id = match stack.pop() {
            Some(id) => id,
            None => {
                proof {
                    assert(seen@.contains(nested));
                    if reaches(items, nested, target) {
                        let p = choose|p: Seq<u128>| #[trigger] is_nest_path(items, p) && p[0] == nested && p.last() == target;
                        lemma_closed_path(items, seen@, p, p.len() - 1);
                    }
                }
                return false;
            },
        };
        proof {
            broadcast use vstd::seq_lib::group_seq_properties;

            assert(st0 == stack@.push(id));
            assert(st0.contains(id));
            assert forall|x: u128| #[trigger] stack@.contains(x) implies reaches(items, nested, x) by {
                assert(st0.contains(x));
            }
        }
        if id == target {
            return true;
        }
        if holds(&seen, id) {
            proof {
                broadcast use vstd::seq_lib::group_seq_properties;

                assert forall|x: u128, y: u128|
                    seen@.contains(x) && #[trigger] nested_comps(items, x).contains(y) implies seen@.contains(y)
                        || stack@.contains(y) by {
                    assert(st0.contains(y) ==> (stack@.contains(y) || y == id));
                }
            }
            continue;
        }
        seen.push(id);
        proof {
            broadcast use vstd::seq_lib::group_seq_properties;

            assert(seen@ == seen0.push(id));
        }
        match crate::ops::comp_position(doc, id) {
            None => {
                proof {
                    broadcast use vstd::seq_lib::group_seq_properties;

                    lemma_unseen_shrinks(items, seen0, id, items.len() as int, 0);
                    assert(nested_comps(items, id) =~= Seq::<u128>::empty());
                    assert forall|x: u128, y: u128|
                        seen@.contains(x) && #[trigger] nested_comps(items, x).contains(y) implies seen@.contains(y)
                            || stack@.contains(y) by {
                        if x != id {
                            assert(seen0.contains(x));
                        }
                    }
                }
            },
            Some(ci) => {
                let ghost st1 = stack@;
                match &doc.items[ci] {
                    ProjectItem::Composition(c) => {
                        push_precomps(&mut stack, &c.layers);
                        proof {
                            broadcast use vstd::seq_lib::group_seq_properties;

                            lemma_found_has_id(items, id, 0);
                            lemma_unseen_shrinks(items, seen0, id, items.len() as int, ci as int);
                            let kids = nested_comps(items, id);
                            assert(kids == precomp_ids(layer_views(c.layers@)));
                            assert(stack@ == st1 + kids);
                            let p0 = choose|p: Seq<u128>| #[trigger] is_nest_path(items, p) && p[0] == nested && p.last() == id;
                            assert forall|x: u128| #[trigger] stack@.contains(x) implies reaches(items, nested, x) by {
                                if st1.contains(x) {
                                } else {
                                    let w = choose|w: int| 0 <= w < stack@.len() && stack@[w] == x;
                                    assert(kids[w - st1.len()] == x);
                                    assert(kids.contains(x));
                                    lemma_extend(items, p0, x);
                                }
                            }
                            assert forall|x: u128, y: u128|
                                seen@.contains(x) && #[trigger] nested_comps(items, x).contains(y) implies seen@.contains(y)
                                    || stack@.contains(y) by {
                                if x == id {
                                    let w = choose|w: int| 0 <= w < kids.len() && kids[w] == y;
                                    assert(stack@[st1.len() + w] == y);
                                } else {
                                    assert(seen0.contains(x));
                                    if st1.contains(y) {
                                        let w = choose|w: int| 0 <= w < st1.len() && st1[w] == y;
                                        assert(stack@[w] == y);
                                    }
                                }
                            }
                            assert(seen@.contains(nested) || stack@.contains(nested)) by {
                                if st1.contains(nested) {
                                    let w = choose|w: int| 0 <= w < st1.len() && st1[w] == nested;
                                    assert(stack@[w] == nested);
                                }
                            }
                        }
                    },
                    _ => {
                        proof {
                            assert(false);
                        }
                    },
                }
            },
        }
    }
}


/// No composition nests itself, at any depth.
pub open spec fn nest_acyclic(items: Seq<ItemView>) -> bool {
    forall|p: Seq<u128>| #[trigger] is_nest_path(items, p) && p.len() >= 2 ==> p[0] != p.last()
}

/// `y` is among the Precomp targets of `layers` exactly when some layer is a
/// Precomp of `y`.
proof fn lemma_precomp_contains(layers: Seq<LayerView>, y: u128)
    ensures
        precomp_ids(layers).contains(y) <==> exists|k: int|
            0 <= k < layers.len() && #[trigger] layers[k].kind == (LayerKindView::Precomp { comp: y }),
    decreases layers.len(),
{
    broadcast use vstd::seq_lib::group_seq_properties;

    if layers.len() > 0 {
        let init = layers.drop_last();
        lemma_precomp_contains(init, y);
        if precomp_ids(layers).contains(y) {
            if precomp_ids(init).contains(y) {
                let k = choose|k: int| 0 <= k < init.len() && #[trigger] init[k].kind == (LayerKindView::Precomp { comp: y });
                assert(layers[k] == init[k]);
            } else {
                assert(layers[layers.len() - 1].kind == (LayerKindView::Precomp { comp: y }));
            }
        }
        if exists|k: int| 0 <= k < layers.len() && #[trigger] layers[k].kind == (LayerKindView::Precomp { comp: y }) {
            let k = choose|k: int| 0 <= k < layers.len() && #[trigger] layers[k].kind == (LayerKindView::Precomp { comp: y });
            if k < init.len() {
                assert(init[k] == layers[k]);
            }
        }
    }
}

/// Two item lists with the same ids, position by position, find an id at the
/// same place.
proof fn lemma_first_item_same_ids(a: Seq<ItemView>, b: Seq<ItemView>, id: u128, k: int)
    requires
        a.len() == b.len(),
        forall|i: int| 0 <= i < a.len() ==> item_id(#[trigger] a[i]) == item_id(b[i]),
    ensures
        first_item_from(a, id, k) == first_item_from(b, id, k),
    decreases a.len() - k,
{
    if 0 <= k < a.len() {
        lemma_first_item_same_ids(a, b, id, k + 1);
    }
}

/// After inserting a Precomp layer of `nested` into composition `target`,
/// every nesting step was already there or is the new one.
proof fn lemma_new_edges(d: DocView, target: u128, index: nat, layer: LayerView, nested: u128, x: u128, y: u128)
    requires
        layer.kind == (LayerKindView::Precomp { comp: nested }),
        apply_spec(d, OpView::AddLayer { comp: target, index, layer }) is Ok,
        nested_comps(apply_spec(d, OpView::AddLayer { comp: target, index, layer })->Ok_0.0.items, x).contains(y),
    ensures
        nested_comps(d.items, x).contains(y) || (x == target && y == nested),
{
    let ci = comp_index(d.items, target)->Some_0;
    let c = d.items[ci]->Composition_0;
    let layers2 = c.layers.insert(index as int, layer);
    let items = d.items;
    let items2 = items.update(ci, ItemView::Composition(CompView { layers: layers2, ..c }));
    assert(apply_spec(d, OpView::AddLayer { comp: target, index, layer })->Ok_0.0.items == items2);
    lemma_found_has_id(items, target, 0);
    assert forall|i: int| 0 <= i < items.len() implies item_id(#[trigger] items[i]) == item_id(items2[i]) by {}
    lemma_first_item_same_ids(items, items2, x, 0);
    assert(comp_index(items2, x) == comp_index(items, x)) by {
        if first_item(items, x) is Some {
            lemma_found_has_id(items, x, 0);
            let fi = first_item(items, x)->Some_0;
            if fi != ci {
                assert(items2[fi] == items[fi]);
            }
        }
    }
    let cx = comp_index(items, x)->Some_0;
    lemma_found_has_id(items, x, 0);
    if cx == ci {
        assert(x == target);
        lemma_precomp_contains(layers2, y);
        lemma_precomp_contains(c.layers, y);
        let k = choose|k: int| 0 <= k < layers2.len() && #[trigger] layers2[k].kind == (LayerKindView::Precomp { comp: y });
        if k < index {
            assert(layers2[k] == c.layers[k]);
        } else if k > index {
            assert(layers2[k] == c.layers[k - 1]);
        }
    } else {
        assert(items2[cx] == items[cx]);
    }
}

/// Along a path in the new document, once a step is reachable from `nested`
/// in the old document, so is every later step.
proof fn lemma_stays_reachable(
    d: DocView,
    target: u128,
    index: nat,
    layer: LayerView,
    nested: u128,
    q: Seq<u128>,
    i: int,
    j: int,
)
    requires
        layer.kind == (LayerKindView::Precomp { comp: nested }),
        apply_spec(d, OpView::AddLayer { comp: target, index, layer }) is Ok,
        is_nest_path(apply_spec(d, OpView::AddLayer { comp: target, index, layer })->Ok_0.0.items, q),
        0 <= i <= j < q.len(),
        reaches(d.items, nested, q[i]),
    ensures
        reaches(d.items, nested, q[j]),
    decreases j - i,
{
    if j > i {
        lemma_stays_reachable(d, target, index, layer, nested, q, i, j - 1);
        let items2 = apply_spec(d, OpView::AddLayer { comp: target, index, layer })->Ok_0.0.items;
        assert(nested_comps(items2, q[j - 1]).contains(q[j - 1 + 1]));
        lemma_new_edges(d, target, index, layer, nested, q[j - 1], q[j]);
        if nested_comps(d.items, q[j - 1]).contains(q[j]) {
            let p = choose|p: Seq<u128>| #[trigger] is_nest_path(d.items, p) && p[0] == nested && p.last() == q[j - 1];
            lemma_extend(d.items, p, q[j]);
        } else {
            assert(is_nest_path(d.items, seq![nested]));
            assert(seq![nested][0] == nested && seq![nested].last() == nested);
        }
    }
}

/// Nesting guarded the way the editor guards it keeps compositions free of
/// loops: when no composition nests itself and `target` is not reachable from
/// `nested`, adding a Precomp layer of `nested` to `target` leaves a document
/// in which still no composition nests itself.
pub proof fn law_guarded_nesting_stays_acyclic(d: DocView, target: u128, index: nat, layer: LayerView, nested: u128)
    requires
        nest_acyclic(d.items),
        !reaches(d.items, nested, target),
        layer.kind == (LayerKindView::Precomp { comp: nested }),
        apply_spec(d, OpView::AddLayer { comp: target, index, layer }) is Ok,
    ensures
        nest_acyclic(apply_spec(d, OpView::AddLayer { comp: target, index, layer })->Ok_0.0.items),
{
    let items2 = apply_spec(d, OpView::AddLayer { comp: target, index, layer })->Ok_0.0.items;
    assert forall|p: Seq<u128>| #[trigger] is_nest_path(items2, p) && p.len() >= 2 implies p[0] != p.last() by {
        if p[0] == p.last() {
            if exists|k: int| 0 <= k < p.len() - 1 && !nested_comps(d.items, #[trigger] p[k]).contains(p[k + 1]) {
                let k = choose|k: int| 0 <= k < p.len() - 1 && !nested_comps(d.items, #[trigger] p[k]).contains(p[k + 1]);
                assert(nested_comps(items2, p[k]).contains(p[k + 1]));
                lemma_new_edges(d, target, index, layer, nested, p[k], p[k + 1]);
                assert(is_nest_path(d.items, seq![nested]));
                assert(seq![nested][0] == nested && seq![nested].last() == nested);
                lemma_stays_reachable(d, target, index, layer, nested, p, k + 1, p.len() - 1);
                lemma_stays_reachable(d, target, index, layer, nested, p, 0, k);
                assert(false);
            } else {
                assert(is_nest_path(d.items, p));
                assert(false);
            }
        }
    }
}


/// Why a composition could not be nested.
#[derive(Debug, Clone, Copy, PartialEq, Eq, Structural)]
pub enum NestError {
    /// The target is the nested composition or lies inside it.
    WouldLoop,
    /// One of the two ids names no composition.
    UnknownComp,
}

/// The Precomp layer `id` that nests composition `nested` (which holds `n`)
/// inside a composition holding `t`: named after the nested composition, from
/// zero to the shorter of the two durations, with the identity transform.
pub open spec fn precomp_layer(id: u128, nested: u128, n: CompView, t: CompView) -> LayerView {
    LayerView {
        id,
        name: n.name,
        kind: LayerKindView::Precomp { comp: nested },
        in_point: CompTime(Rational::spec_zero()),
        out_point: CompTime(
            if n.duration.0.spec_lt(t.duration.0) {
                n.duration.0
            } else {
                t.duration.0
            },
        ),
        start_offset: CompTime(Rational::spec_zero()),
        transform: default_transform(),
        matte: None,
        blend: BlendMode::Normal,
        switches: Switches { visible: true, audible: true, locked: false, three_d: false },
    }
}

/// The nested layer fits both compositions: it starts at zero and ends at
/// the shorter of the two durations, so it never runs past the end of the
/// composition it is laid into nor past the end of the one it shows; it is
/// a visible, audible, unlocked 2D Precomp layer of `nested` with the
/// identity transform, no matte and normal blending.
pub proof fn law_precomp_layer_fits(id: u128, nested: u128, n: CompView, t: CompView)
    ensures
        ({
            let l = precomp_layer(id, nested, n, t);
            let out = l.out_point.0;
            &&& out == n.duration.0 || out == t.duration.0
            &&& !t.duration.0.spec_lt(out)
            &&& !n.duration.0.spec_lt(out)
            &&& l.in_point.0 == Rational::spec_zero()
            &&& l.start_offset.0 == Rational::spec_zero()
            &&& l.kind == (LayerKindView::Precomp { comp: nested })
            &&& l.id == id
            &&& l.name == n.name
            &&& l.switches.visible && l.switches.audible && !l.switches.locked && !l.switches.three_d
            &&& l.matte is None
            &&& l.blend == BlendMode::Normal
            &&& l.transform == default_transform()
        }),
{
}

/// The edit that nests composition `nested` inside `target` as a new top
/// Precomp layer with id `layer_id`, refused when it would close a loop
/// (`target` is `nested` or is nested inside it) or when either id names no
/// composition.
pub fn nest_precomp(doc: &Document, target: u128, nested: u128, layer_id: u128) -> (r: Result<Op, NestError>)
    ensures
        r == Err::<Op, NestError>(NestError::WouldLoop) <==> reaches(doc@.items, nested, target),
        r == Err::<Op, NestError>(NestError::UnknownComp) <==> !reaches(doc@.items, nested, target) && (comp_index(
            doc@.items,
            target,
        ) is None || comp_index(doc@.items, nested) is None),
        r matches Ok(op) ==> op@ == (OpView::AddLayer {
            comp: target,
            index: 0,
            layer: precomp_layer(
                layer_id,
                nested,
                doc@.items[comp_index(doc@.items, nested)->Some_0]->Composition_0,
                doc@.items[comp_index(doc@.items, target)->Some_0]->Composition_0,
            ),
        }),
        r matches Ok(op) ==> (op@ matches OpView::AddLayer { comp, index, layer } && comp == target && index == 0
            && !doc@.items[comp_index(doc@.items, target)->Some_0]->Composition_0.duration.0.spec_lt(layer.out_point.0)
            && !doc@.items[comp_index(doc@.items, nested)->Some_0]->Composition_0.duration.0.spec_lt(layer.out_point.0)
            && layer.switches.visible && layer.kind == (LayerKindView::Precomp { comp: nested })),
{
    if target == nested {
        proof {
            assert(is_nest_path(doc@.items, seq![nested]));
            assert(seq![nested][0] == nested && seq![nested].last() == nested);
        }
        return Err(NestError::WouldLoop);
    }
    if would_cycle(doc, nested, target) {
        return Err(NestError::WouldLoop);
    }
    let t = match doc.comp(target) {
        Some(c) => c,
        None => return Err(NestError::UnknownComp),
    };
    let n = match doc.comp(nested) {
        Some(c) => c,
        None => return Err(NestError::UnknownComp),
    };
    let out = if n.duration.0.lt(&t.duration.0) {
        n.duration.0
    } else {
        t.duration.0
    };
    let layer = Layer {
        id: layer_id,
        name: n.name.clone(),
        kind: LayerKind::Precomp { comp: nested },
        in_point: CompTime(Rational::zero()),
        out_point: CompTime(out),
        start_offset: CompTime(Rational::zero()),
        transform: TransformGroup::default(),
        matte: None,
        blend: BlendMode::default(),
        switches: Switches::default(),
    };
    proof {
        law_precomp_layer_fits(layer_id, nested, n@, t@);
    }
    Ok(Op::AddLayer { comp: target, index: 0, layer: Box::new(layer) })
}

} // verus!
