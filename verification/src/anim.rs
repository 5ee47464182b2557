//! Keyframes and animatable properties. Keyframe times are exact rationals;
//! values, speeds and influences are carried as the IEEE-754 bit patterns of
//! their `f64` values, so they compare and round-trip exactly. Curve
//! evaluation happens in the float domain outside this library.

use crate::rational::Rational;
use vstd::prelude::*;

verus! {

/// Bit pattern of the `f64` value 1/3, the easy-ease influence.
pub const THIRD_BITS: u64 = 0x3FD5_5555_5555_5555;

/// Per-side interpolation of a keyframe.
#[derive(Debug, Clone, Copy, PartialEq, Eq, Structural)]
pub enum SideInterp {
    /// Keep the value until the next key.
    Hold,
    /// Straight line to the neighbouring key.
    Linear,
    /// Bezier handle: speed in value-units per second and influence in
    /// (0, 1], both as `f64` bit patterns.
    Bezier { speed: u64, influence: u64 },
}

/// The easy-ease side: speed 0, influence 1/3.
pub open spec fn easy_ease_spec() -> SideInterp {
    SideInterp::Bezier { speed: 0, influence: THIRD_BITS }
}

/// The easy-ease side: speed 0, influence 1/3.
pub fn easy_ease() -> (r: SideInterp)
    ensures
        r == easy_ease_spec(),
{
    SideInterp::Bezier { speed: 0, influence: THIRD_BITS }
}

/// A scalar keyframe: an exact time, a value, and the interpolation on
/// either side.
#[derive(Debug, Clone, Copy, PartialEq, Eq, Structural)]
pub struct Keyframe {
    /// Time in the owner's timebase.
    pub time: Rational,
    /// The value, as an `f64` bit pattern.
    pub value: u64,
    /// Approaching this key.
    pub interp_in: SideInterp,
    /// Leaving this key.
    pub interp_out: SideInterp,
}

impl Keyframe {
    /// This keyframe made linear on both sides; time and value unchanged.
    pub fn to_linear(self) -> (r: Keyframe)
        ensures
            r == (Keyframe { interp_in: SideInterp::Linear, interp_out: SideInterp::Linear, ..self }),
    {
        Keyframe { interp_in: SideInterp::Linear, interp_out: SideInterp::Linear, ..self }
    }

    /// This keyframe eased on both sides (speed 0, influence 1/3); time and
    /// value unchanged, so the curve still passes exactly through the key.
    pub fn to_bezier(self) -> (r: Keyframe)
        ensures
            r == (Keyframe { interp_in: easy_ease_spec(), interp_out: easy_ease_spec(), ..self }),
    {
        Keyframe { interp_in: easy_ease(), interp_out: easy_ease(), ..self }
    }

    /// True when either side is a bezier (an eased key).
    pub fn is_bezier(&self) -> (r: bool)
        ensures
            r == (self.interp_in is Bezier || self.interp_out is Bezier),
    {
        matches!(self.interp_in, SideInterp::Bezier { .. }) || matches!(self.interp_out, SideInterp::Bezier { .. })
    }
}

/// A copy of a list of plain values.
pub fn copy_vec<T: Copy>(v: &Vec<T>) -> (r: Vec<T>)
    ensures
        r@ == v@,
{
    let mut r: Vec<T> = Vec::new();
    for i in 0..v.len()
        invariant
            r@ == v@.subrange(0, i as int),
    {
        let x: T = v[i];
        r.push(x);
        assert(r@ =~= v@.subrange(0, i + 1));
    }
    assert(r@ =~= v@);
    r
}

/// An animatable scalar slot: a fixed value, or keyframes sorted by time.
#[derive(Debug, PartialEq)]
pub enum Animation {
    /// A fixed value (`f64` bit pattern).
    Static(u64),
    /// Sorted by time, unique times.
    Keyframed(Vec<Keyframe>),
}

/// What an animation holds.
pub enum AnimationView {
    Static(u64),
    Keyframed(Seq<Keyframe>),
}

impl View for Animation {
    type V = AnimationView;

    open spec fn view(&self) -> AnimationView {
        match self {
            Animation::Static(v) => AnimationView::Static(*v),
            Animation::Keyframed(k) => AnimationView::Keyframed(k@),
        }
    }
}

impl Clone for Animation {
    fn clone(&self) -> (r: Self)
        ensures
            r@ == self@,
    {
        match self {
            Animation::Static(v) => Animation::Static(*v),
            Animation::Keyframed(k) => Animation::Keyframed(copy_vec(k)),
        }
    }
}

/// An animatable property.
#[derive(Debug, PartialEq)]
pub struct Property {
    pub animation: Animation,
}

impl View for Property {
    type V = AnimationView;

    open spec fn view(&self) -> AnimationView {
        self.animation@
    }
}

impl Clone for Property {
    fn clone(&self) -> (r: Self)
        ensures
            r@ == self@,
    {
        Property { animation: self.animation.clone() }
    }
}

impl Property {
    /// A property fixed at zero.
    pub fn zero() -> (r: Property)
        ensures
            r@ == AnimationView::Static(0),
    {
        Property::fixed(0)
    }

    /// A property fixed at `value` (an `f64` bit pattern).
    pub fn fixed(value: u64) -> (r: Property)
        ensures
            r@ == AnimationView::Static(value),
    {
        Property { animation: Animation::Static(value) }
    }

    /// True when the property carries at least one keyframe.
    pub fn is_animated(&self) -> (r: bool)
        ensures
            r == (self@ matches AnimationView::Keyframed(k) && k.len() > 0),
    {
        match &self.animation {
            Animation::Static(_) => false,
            Animation::Keyframed(keys) => keys.len() > 0,
        }
    }
}

} // verus!
