//! The edits the editor builds for its commands: a new composition at the
//! end of the project, and a footage item laid into a composition.

use crate::model::{
    comp_index, default_transform, first_item, BlendMode, CompView, Composition, Document, ItemView, Layer,
    LayerKind, LayerKindView, LayerView, LinearColour, ProjectItem, Switches, TransformGroup,
};
use crate::ops::{Op, OpView};
use crate::rational::{from_parts_spec, rat, Rational};
use crate::retime::ok_or_zero;
use crate::shell::{all_digits, decimal, digits_value, law_decimal_reads_back, push_decimal, text_of};
use crate::time::{CompTime, Duration, FrameRate};
use vstd::prelude::*;

verus! {

/// A fresh composition `id` numbered `number`: "Comp <number>", 1920×1080 at
/// `fps` frames a second, 30 s long, black, with no work area, layers or
/// markers.
pub open spec fn new_comp_view(id: u128, number: u64, fps: Rational) -> CompView {
    CompView {
        id,
        name: seq!['C', 'o', 'm', 'p', ' '] + decimal(number as nat),
        width: 1920,
        height: 1080,
        frame_rate: FrameRate(fps),
        duration: Duration(ok_or_zero(from_parts_spec(30, 1))),
        background: LinearColour([0u32, 0u32, 0u32, 0x3F80_0000u32]),
        work_area: None,
        layers: Seq::empty(),
        markers: Seq::empty(),
    }
}

/// A fresh composition is opaque black (colour channels zero, alpha the
/// `f32` bit pattern of 1.0), 1920×1080, with no work area, layers or
/// markers, and its name is "Comp " followed by digits that read back as its
/// number.
pub proof fn law_new_comp_defaults(id: u128, number: u64, fps: Rational)
    ensures
        ({
            let c = new_comp_view(id, number, fps);
            &&& c.background.0[0] == 0 && c.background.0[1] == 0 && c.background.0[2] == 0
            &&& c.background.0[3] == 0x3F80_0000u32
            &&& c.width == 1920 && c.height == 1080
            &&& c.id == id
            &&& c.frame_rate == FrameRate(fps)
            &&& c.work_area is None
            &&& c.layers.len() == 0 && c.markers.len() == 0
            &&& c.name.subrange(0, 5) == seq!['C', 'o', 'm', 'p', ' ']
            &&& all_digits(c.name.subrange(5, c.name.len() as int))
            &&& digits_value(c.name.subrange(5, c.name.len() as int)) == number
        }),
{
    law_decimal_reads_back(number as nat);
    let c = new_comp_view(id, number, fps);
    assert(c.name.subrange(0, 5) =~= seq!['C', 'o', 'm', 'p', ' ']);
    assert(c.name.subrange(5, c.name.len() as int) =~= decimal(number as nat));
}

/// The edit that adds a fresh composition `id`, numbered `number`, after
/// every item of the project (None only if 60 fps cannot be built).
pub fn new_composition_op(doc: &Document, id: u128, number: u64) -> (r: Option<Op>)
    ensures
        match from_parts_spec(60, 1) {
            Err(_) => r is None,
            Ok(fps) => r matches Some(op) && op@ == (OpView::AddItem {
                index: doc@.items.len(),
                item: ItemView::Composition(new_comp_view(id, number, fps)),
            }),
        },
        r matches Some(op) ==> (op@ matches OpView::AddItem { item, .. } && item matches ItemView::Composition(c)
            && c.background == LinearColour([0u32, 0u32, 0u32, 0x3F80_0000u32]) && c.width == 1920 && c.height == 1080
            && c.layers.len() == 0),
{
    proof {
        law_new_comp_defaults(id, number, ok_or_zero(from_parts_spec(60, 1)));
    }
    let frame_rate = match FrameRate::new(60, 1) {
        Ok(fr) => fr,
        Err(_) => return None,
    };
    let mut cs: Vec<char> = vec!['C', 'o', 'm', 'p', ' '];
    push_decimal(&mut cs, number);
    let name = text_of(&cs);
    let comp = Composition {
        id,
        name,
        width: 1920,
        height: 1080,
        frame_rate,
        duration: Duration(rat(30, 1)),
        background: LinearColour::black(),
        work_area: None,
        layers: Vec::new(),
        markers: Vec::new(),
    };
    proof {
        assert(crate::model::layer_views(comp.layers@) =~= Seq::<LayerView>::empty());
        assert(crate::markers::marker_views(comp.markers@) =~= Seq::<crate::markers::MarkerView>::empty());
        assert(comp.name@ =~= seq!['C', 'o', 'm', 'p', ' '] + decimal(number as nat));
    }
    Some(Op::AddItem { index: doc.items.len(), item: Box::new(ProjectItem::Composition(comp)) })
}

/// The footage layer `id` that shows footage item `item` (named `name`) in a
/// composition lasting `comp_duration`: from zero to `media_end` when that is
/// known and earlier, else to the composition's end, with the identity
/// transform.
pub open spec fn footage_layer(id: u128, item: u128, name: Seq<char>, comp_duration: Rational, media_end: Option<Rational>) -> LayerView {
    LayerView {
        id,
        name,
        kind: LayerKindView::Footage { item, retime: None },
        in_point: CompTime(Rational::spec_zero()),
        out_point: CompTime(
            match media_end {
                Some(e) => if e.spec_lt(comp_duration) {
                    e
                } else {
                    comp_duration
                },
                None => comp_duration,
            },
        ),
        start_offset: CompTime(Rational::spec_zero()),
        transform: default_transform(),
        matte: None,
        blend: BlendMode::Normal,
        switches: Switches { visible: true, audible: true, locked: false, three_d: false },
    }
}

/// A laid-in footage layer shows and plays: its switches are the defaults
/// (visible, audible, unlocked, 2D), it starts at zero with the identity
/// transform, no matte and normal blending, and it ends at the earlier of
/// the media's end and the composition's end, never past either.
pub proof fn law_footage_layer_fits(id: u128, item: u128, name: Seq<char>, comp_duration: Rational, media_end: Option<Rational>)
    ensures
        ({
            let l = footage_layer(id, item, name, comp_duration, media_end);
            let out = l.out_point.0;
            &&& l.switches == Switches { visible: true, audible: true, locked: false, three_d: false }
            &&& l.in_point.0 == Rational::spec_zero()
            &&& l.start_offset.0 == Rational::spec_zero()
            &&& l.kind == (LayerKindView::Footage { item, retime: None })
            &&& l.id == id && l.name == name
            &&& l.matte is None && l.blend == BlendMode::Normal && l.transform == default_transform()
            &&& !comp_duration.spec_lt(out)
            &&& (media_end matches Some(e) ==> !e.spec_lt(out) && (out == e || out == comp_duration))
            &&& (media_end is None ==> out == comp_duration)
        }),
{
}

/// The edit that lays footage item `item` into composition `comp` as a new
/// top layer `layer_id` (see `footage_layer`); None when `comp` names no
/// composition or `item` no footage.
pub fn footage_layer_op(doc: &Document, comp: u128, item: u128, layer_id: u128, media_end: Option<Rational>) -> (r: Option<
    Op,
>)
    ensures
        r is Some <==> (comp_index(doc@.items, comp) is Some && (first_item(doc@.items, item) matches Some(k)
            && doc@.items[k] is Footage)),
        r matches Some(op) ==> op@ == (OpView::AddLayer {
            comp,
            index: 0,
            layer: footage_layer(
                layer_id,
                item,
                doc@.items[first_item(doc@.items, item)->Some_0]->Footage_0.name,
                doc@.items[comp_index(doc@.items, comp)->Some_0]->Composition_0.duration.0,
                media_end,
            ),
        }),
        r matches Some(op) ==> (op@ matches OpView::AddLayer { comp: c, index, layer } && c == comp && index == 0
            && layer.switches == Switches { visible: true, audible: true, locked: false, three_d: false }
            && !doc@.items[comp_index(doc@.items, comp)->Some_0]->Composition_0.duration.0.spec_lt(layer.out_point.0)
            && (media_end matches Some(e) ==> !e.spec_lt(layer.out_point.0))),
{
    let c = match doc.comp(comp) {
        Some(c) => c,
        None => return None,
    };
    let f = match doc.item(item) {
        Some(ProjectItem::Footage(f)) => f,
        _ => return None,
    };
    let dur = c.duration.0;
    let out = match media_end {
        Some(e) => if e.lt(&dur) {
            e
        } else {
            dur
        },
        None => dur,
    };
    let layer = Layer {
        id: layer_id,
        name: f.name.clone(),
        kind: LayerKind::Footage { item, retime: None },
        in_point: CompTime(Rational::zero()),
        out_point: CompTime(out),
        start_offset: CompTime(Rational::zero()),
        transform: TransformGroup::default(),
        matte: None,
        blend: BlendMode::default(),
        switches: Switches::default(),
    };
    proof {
        law_footage_layer_fits(layer_id, item, f@.name, dur, media_end);
    }
    Some(Op::AddLayer { comp, index: 0, layer: Box::new(layer) })
}

} // verus!
