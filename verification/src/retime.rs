//! The retime curve: the map from a clip's local time to source time.
//!
//! A retime is a run of segments between boundaries. A *Rate* segment is
//! speed-defined (play at 200 %, easing down to 50 %); a *Map* segment is a
//! value-defined cubic from one boundary's source position to the next. Every
//! boundary stores its local time and its source position as exact rationals,
//! so cutting and re-editing never nudges a frame off a beat. This module holds
//! the exact structure and its edits; sampling the curve in floating point is
//! the renderer's business.

use crate::divisor::gcd;
use crate::rational::{
    fits_i64, from_parts_spec, grid_count, grid_round_spec, lemma_from_parts, lemma_num_den_bound, lemma_prod_bound,
    round_half_away, round_onto_grid, Rational, TimeError, FLICK_DEN,
};
use vstd::prelude::*;

verus! {

/// What can go wrong inside retime maths or structure checks.
#[derive(Debug, Clone, Copy, PartialEq, Eq)]
pub enum RetimeError {
    /// Rational arithmetic failed.
    Arithmetic(TimeError),
    /// The store's shape breaks an invariant.
    InvalidStructure(&'static str),
}

/// The shape of a speed transition inside a [`RateSegment`].
#[derive(Debug, Clone, Copy, PartialEq, Eq, Structural)]
pub enum Ease {
    /// Straight speed ramp.
    Linear,
    /// Lingers at the starting speed, transitions late.
    Slow,
    /// Transitions early, settles at the ending speed.
    Fast,
    /// S-curve: gentle at both ends.
    Smooth,
    /// Inverse S-curve: brisk at both ends.
    Sharp,
}

/// E(1) for each ease as a fraction: the share of the speed change that
/// contributes to the source advance over a whole segment.
pub open spec fn ease_frac(e: Ease) -> (int, int) {
    match e {
        Ease::Linear | Ease::Smooth | Ease::Sharp => (1, 2),
        Ease::Slow => (1, 3),
        Ease::Fast => (2, 3),
    }
}

/// E(1) as the rational `e_at_1` returns.
pub open spec fn e1_spec(e: Ease) -> Rational {
    match from_parts_spec(ease_frac(e).0, ease_frac(e).1) {
        Ok(r) => r,
        Err(_) => Rational::spec_zero(),
    }
}

/// E(1) is exactly the table fraction, already in lowest terms.
pub proof fn lemma_e1(e: Ease)
    ensures
        e1_spec(e).wf(),
        e1_spec(e).n() == ease_frac(e).0,
        e1_spec(e).d() == ease_frac(e).1,
{
    reveal_with_fuel(gcd, 4);
    assert(gcd(1, 2) == 1);
    assert(gcd(1, 3) == 1);
    assert(gcd(2, 3) == 1);
    lemma_from_parts(ease_frac(e).0, ease_frac(e).1);
    assert(1int / 1int == 1 && 2int / 1int == 2 && 3int / 1int == 3);
}

impl Ease {
    /// E(1), the exact integral of the ease over the whole segment: 1/2 for
    /// Linear, Smooth and Sharp, 1/3 for Slow, 2/3 for Fast.
    pub fn e_at_1(self) -> (r: Rational)
        ensures
            r == e1_spec(self),
            r.n() == ease_frac(self).0,
            r.d() == ease_frac(self).1,
    {
        proof {
            lemma_e1(self);
        }
        let (num, den): (i64, i64) = match self {
            Ease::Linear | Ease::Smooth | Ease::Sharp => (1, 2),
            Ease::Slow => (1, 3),
            Ease::Fast => (2, 3),
        };
        match Rational::new(num, den) {
            Ok(r) => r,
            Err(_) => Rational::zero(),
        }
    }
}

/// Optical-flow parameters (no fields of its own yet).
#[derive(Debug, Clone, Copy, PartialEq, Eq, Structural)]
pub struct FlowParams {}

/// How fractional source positions become pixels — a per-clip render policy,
/// orthogonal to the retime map itself.
#[derive(Debug, Clone, Copy, PartialEq, Eq, Structural)]
pub enum Interpolation {
    /// Round to the nearest source frame (the default).
    Nearest,
    /// Crossfade the two neighbouring frames.
    Blend,
    /// Optical-flow synthesis of the in-between frame.
    Flow(FlowParams),
}

/// One point where two segments meet (or the curve starts or ends): the
/// exact local time and the exact source position there.
#[derive(Debug, Clone, Copy, PartialEq, Eq, Structural)]
pub struct Boundary {
    /// Local time (seconds into the clip).
    pub t: Rational,
    /// Source time, shared by both adjacent segments.
    pub s: Rational,
    /// When true, edits keep the speed equal on both sides; evaluation ignores it.
    pub smooth: bool,
}

impl Boundary {
    /// A boundary at local time `t`, source position `s`, not smooth.
    pub fn new(t: Rational, s: Rational) -> (b: Boundary)
        ensures
            b == (Boundary { t, s, smooth: false }),
    {
        Boundary { t, s, smooth: false }
    }
}

/// Speed-defined segment: speed runs from `v0` to `v1` along `ease`.
#[derive(Debug, Clone, Copy, PartialEq, Eq, Structural)]
pub struct RateSegment {
    /// Speed at the segment start (1 = 100 %, 0 = freeze).
    pub v0: Rational,
    /// Speed at the segment end.
    pub v1: Rational,
    /// Shape of the speed transition.
    pub ease: Ease,
}

impl RateSegment {
    /// A rate segment from `v0` to `v1` along `ease`.
    pub fn new(v0: Rational, v1: Rational, ease: Ease) -> (r: RateSegment)
        ensures
            r == (RateSegment { v0, v1, ease }),
    {
        RateSegment { v0, v1, ease }
    }
}

/// Value-defined segment: a cubic bezier in (t, s) whose endpoints are the two
/// boundaries; this stores only the handles (speeds and influences).
#[derive(Debug, Clone, Copy, PartialEq, Eq, Structural)]
pub struct MapSegment {
    /// Outgoing speed at the start.
    pub m0: Rational,
    /// Incoming speed at the end.
    pub m1: Rational,
    /// Outgoing influence, in (0, 1].
    pub b0: Rational,
    /// Incoming influence, in (0, 1].
    pub b1: Rational,
}

impl MapSegment {
    /// A map segment with the given handle speeds and influences.
    pub fn new(m0: Rational, m1: Rational, b0: Rational, b1: Rational) -> (r: MapSegment)
        ensures
            r == (MapSegment { m0, m1, b0, b1 }),
    {
        MapSegment { m0, m1, b0, b1 }
    }
}

/// One span of the retime curve.
#[derive(Debug, Clone, Copy, PartialEq, Eq, Structural)]
pub enum RetimeSegment {
    /// Speed-native: constant or eased speed.
    Rate(RateSegment),
    /// Value-native: cubic source-time curve.
    Cubic(MapSegment),
}

/// One retime store.
#[derive(Debug, PartialEq)]
pub struct Retime {
    /// n + 1 boundaries for n segments; the first at local time 0, strictly
    /// increasing in t.
    pub boundaries: Vec<Boundary>,
    /// n segments; `segments[i]` spans `boundaries[i] .. boundaries[i + 1]`.
    pub segments: Vec<RetimeSegment>,
    /// Reverse gate: while off, Rate speeds below zero count as zero.
    pub allow_reverse: bool,
    /// Frame interpolation policy.
    pub interpolation: Interpolation,
}

/// What a retime store holds.
pub struct RetimeView {
    pub boundaries: Seq<Boundary>,
    pub segments: Seq<RetimeSegment>,
    pub allow_reverse: bool,
    pub interpolation: Interpolation,
}

impl View for Retime {
    type V = RetimeView;

    open spec fn view(&self) -> RetimeView {
        RetimeView {
            boundaries: self.boundaries@,
            segments: self.segments@,
            allow_reverse: self.allow_reverse,
            interpolation: self.interpolation,
        }
    }
}

impl Clone for Retime {
    fn clone(&self) -> (r: Self)
        ensures
            r.boundaries@ == self.boundaries@,
            r.segments@ == self.segments@,
            r.allow_reverse == self.allow_reverse,
            r.interpolation == self.interpolation,
            r@ == self@,
    {
        Retime {
            boundaries: copy_boundaries(&self.boundaries),
            segments: copy_segments(&self.segments),
            allow_reverse: self.allow_reverse,
            interpolation: self.interpolation,
        }
    }
}

/// A copy of a boundary list.
fn copy_boundaries(v: &Vec<Boundary>) -> (r: Vec<Boundary>)
    ensures
        r@ == v@,
{
    let mut r: Vec<Boundary> = Vec::new();
    for i in 0..v.len()
        invariant
            r@ == v@.subrange(0, i as int),
    {
        r.push(v[i]);
    }
    r
}

/// A copy of a segment list.
fn copy_segments(v: &Vec<RetimeSegment>) -> (r: Vec<RetimeSegment>)
    ensures
        r@ == v@,
{
    let mut r: Vec<RetimeSegment> = Vec::new();
    for i in 0..v.len()
        invariant
            r@ == v@.subrange(0, i as int),
    {
        r.push(v[i]);
    }
    r
}

// ---------------------------------------------------------------------------
// The exact model of structure checks and boundary recomputation.
// ---------------------------------------------------------------------------

/// Boundary times strictly increase.
pub open spec fn strictly_increasing(bs: Seq<Boundary>) -> bool {
    forall|i: int| 0 <= i < bs.len() - 1 ==> #[trigger] bs[i].t.spec_lt(bs[i + 1].t)
}

/// The structural verdict of `validate`, first failing rule first.
pub open spec fn validate_spec(bs: Seq<Boundary>, segs: Seq<RetimeSegment>) -> Result<(), RetimeError> {
    if segs.len() == 0 {
        Err(RetimeError::InvalidStructure("a retime needs at least one segment"))
    } else if bs.len() != segs.len() + 1 {
        Err(RetimeError::InvalidStructure("boundary count must be segment count plus one"))
    } else if bs[0].t != Rational::spec_zero() {
        Err(RetimeError::InvalidStructure("the first boundary must sit at local time zero"))
    } else if !strictly_increasing(bs) {
        Err(RetimeError::InvalidStructure("boundary times must strictly increase"))
    } else {
        Ok(())
    }
}

/// Lift a rational error into a retime error.
pub open spec fn lift(r: Result<Rational, TimeError>) -> Result<Rational, RetimeError> {
    match r {
        Ok(v) => Ok(v),
        Err(e) => Err(RetimeError::Arithmetic(e)),
    }
}

/// The speed a Rate segment averages over its length, exactly:
/// `v0 + (v1 − v0) · E(1)`.
pub open spec fn inner_spec(v0: Rational, v1: Rational, ease: Ease) -> Result<Rational, TimeError> {
    match v1.spec_sub(v0) {
        Err(e) => Err(e),
        Ok(dv) => match dv.spec_mul(e1_spec(ease)) {
            Err(e) => Err(e),
            Ok(w) => v0.spec_add(w),
        },
    }
}

/// The flick-grid count nearest `v`.
pub open spec fn grid_units(v: Rational) -> int {
    round_half_away(v.n() * FLICK_DEN, v.d())
}

/// Fits a signed 128-bit integer with room to negate.
pub open spec fn fits_wide(x: int) -> bool {
    -0x7fff_ffff_ffff_ffff_ffff_ffff_ffff_ffff <= x <= 0x7fff_ffff_ffff_ffff_ffff_ffff_ffff_ffff
}

/// The advance `d · (v0·w0 + v1·w1) / q` taken coarsely, for when the exact
/// speed mix does not fit: both speeds are first rounded onto the flick grid,
/// the advance of those grid speeds is taken exactly and rounded onto the
/// grid. `Overflow` when a grid speed or that exact advance's numerator is out
/// of range.
#[verifier::opaque]
pub open spec fn coarse_mix_spec(d: Rational, v0: Rational, v1: Rational, w0: int, w1: int, q: int) -> Result<Rational, TimeError> {
    let a = grid_units(v0);
    let b = grid_units(v1);
    if !fits_i64(a) || !fits_i64(b) {
        Err(TimeError::Overflow)
    } else {
        let num = d.n() * (a * w0 + b * w1);
        if !fits_wide(num) {
            Err(TimeError::Overflow)
        } else {
            grid_round_spec(num, d.d() * FLICK_DEN * q)
        }
    }
}

/// The source advance of a Rate segment of length `d`:
/// `d · [v0 + (v1 − v0) · E(1)]`, exactly. When the exact value does not fit
/// it is rounded onto the flick grid instead: the exact product rounded when
/// the average speed fits, else the coarse advance of the grid-rounded speeds.
pub open spec fn rate_advance_spec(d: Rational, v0: Rational, v1: Rational, ease: Ease) -> Result<
    Rational,
    RetimeError,
> {
    match inner_spec(v0, v1, ease) {
        Ok(inner) => match d.spec_mul(inner) {
            Ok(x) => Ok(x),
            Err(_) => lift(grid_round_spec(d.n() * inner.n(), d.d() * inner.d())),
        },
        Err(_) => lift(coarse_mix_spec(d, v0, v1, ease_frac(ease).1 - ease_frac(ease).0, ease_frac(ease).0, ease_frac(ease).1)),
    }
}

/// `a + b`, exact; on overflow the exact sum rounded onto the flick grid.
pub open spec fn add_fallback_spec(a: Rational, b: Rational) -> Result<Rational, RetimeError> {
    match a.spec_add(b) {
        Ok(v) => Ok(v),
        Err(TimeError::Overflow) => lift(
            grid_round_spec(a.n() * b.d() + b.n() * a.d(), a.d() * b.d()),
        ),
        Err(e) => Err(RetimeError::Arithmetic(e)),
    }
}

/// The endpoint speeds a Rate segment evaluates with: below-zero speeds count
/// as zero while the reverse gate is off.
pub open spec fn clamped_spec(seg: RateSegment, allow_reverse: bool) -> (Rational, Rational) {
    if allow_reverse {
        (seg.v0, seg.v1)
    } else {
        (
            if seg.v0.n() < 0 {
                Rational::spec_zero()
            } else {
                seg.v0
            },
            if seg.v1.n() < 0 {
                Rational::spec_zero()
            } else {
                seg.v1
            },
        )
    }
}

/// The source position at the end of Rate segment `i`, from the start
/// boundary's source position and the segment's exact advance.
pub open spec fn rate_end_spec(bs: Seq<Boundary>, i: int, seg: RateSegment, allow_reverse: bool) -> Result<
    Rational,
    RetimeError,
> {
    let (v0, v1) = clamped_spec(seg, allow_reverse);
    match bs[i + 1].t.spec_sub(bs[i].t) {
        Err(e) => Err(RetimeError::Arithmetic(e)),
        Ok(d) => match rate_advance_spec(d, v0, v1, seg.ease) {
            Err(e) => Err(e),
            Ok(adv) => add_fallback_spec(bs[i].s, adv),
        },
    }
}

/// Boundary list `bs` with boundary `i`'s source position replaced by `s`.
pub open spec fn with_source(bs: Seq<Boundary>, i: int, s: Rational) -> Seq<Boundary> {
    bs.update(i, Boundary { s, ..bs[i] })
}

/// Recompute from segment `i` on: each Rate segment rewrites the source
/// position of its end boundary; Map segments leave theirs. Stops at the
/// first error, keeping what was already rewritten.
pub open spec fn recompute_from(
    bs: Seq<Boundary>,
    segs: Seq<RetimeSegment>,
    allow_reverse: bool,
    i: nat,
) -> (Seq<Boundary>, Result<(), RetimeError>)
    decreases segs.len() - i,
{
    if i >= segs.len() {
        (bs, Ok(()))
    } else {
        match segs[i as int] {
            RetimeSegment::Cubic(_) => recompute_from(bs, segs, allow_reverse, i + 1),
            RetimeSegment::Rate(seg) => match rate_end_spec(bs, i as int, seg, allow_reverse) {
                Err(e) => (bs, Err(e)),
                Ok(s) => recompute_from(
                    with_source(bs, i + 1 as int, s),
                    segs,
                    allow_reverse,
                    i + 1,
                ),
            },
        }
    }
}

/// What `recompute_boundaries` leaves and reports: the structure check
/// first, then the exact recomputation.
pub open spec fn recompute_spec(bs: Seq<Boundary>, segs: Seq<RetimeSegment>, allow_reverse: bool) -> (
    Seq<Boundary>,
    Result<(), RetimeError>,
) {
    match validate_spec(bs, segs) {
        Err(e) => (bs, Err(e)),
        Ok(_) => recompute_from(bs, segs, allow_reverse, 0),
    }
}


// ---------------------------------------------------------------------------
// Models of the builders and queries.
// ---------------------------------------------------------------------------

/// The Rate segment inside a segment (meaningful for Rate segments only).
pub open spec fn rate_of(seg: RetimeSegment) -> RateSegment {
    match seg {
        RetimeSegment::Rate(r) => r,
        RetimeSegment::Cubic(_) => RateSegment {
            v0: Rational::spec_zero(),
            v1: Rational::spec_zero(),
            ease: Ease::Linear,
        },
    }
}

/// A Rate segment with the Linear ease.
pub open spec fn is_linear_rate(seg: RetimeSegment) -> bool {
    seg matches RetimeSegment::Rate(r) && r.ease == Ease::Linear
}

/// Keyframe times: at least two keys, the first at zero, strictly increasing.
pub open spec fn keys_ok(keys: Seq<(Rational, Rational)>) -> bool {
    &&& keys.len() >= 2
    &&& keys[0].0 == Rational::spec_zero()
    &&& forall|i: int| 0 <= i < keys.len() - 1 ==> #[trigger] keys[i].0.spec_lt(keys[i + 1].0)
}

/// Boundaries at the key times, every source position `source_in`.
pub open spec fn speed_key_boundaries(source_in: Rational, keys: Seq<(Rational, Rational)>) -> Seq<
    Boundary,
> {
    Seq::new(keys.len(), |i: int| Boundary { t: keys[i].0, s: source_in, smooth: false })
}

/// Linear Rate segments from each key's speed to the next key's speed.
pub open spec fn speed_key_segments(keys: Seq<(Rational, Rational)>) -> Seq<RetimeSegment> {
    Seq::new(
        (keys.len() - 1) as nat,
        |i: int|
            RetimeSegment::Rate(RateSegment { v0: keys[i].1, v1: keys[i + 1].1, ease: Ease::Linear }),
    )
}

/// What building a store from speed keys gives: a store exactly when the
/// keys are well formed and integrating them from `source_in` succeeds.
pub open spec fn speed_keys_outcome(source_in: Rational, keys: Seq<(Rational, Rational)>, r: Option<Retime>) -> bool {
    match r {
        None => !keys_ok(keys) || recompute_spec(
            speed_key_boundaries(source_in, keys),
            speed_key_segments(keys),
            any_negative_speed(keys),
        ).1 is Err,
        Some(x) => {
            &&& keys_ok(keys)
            &&& recompute_spec(speed_key_boundaries(source_in, keys), speed_key_segments(keys), any_negative_speed(keys))
                == (x.boundaries@, Ok::<(), RetimeError>(()))
            &&& x.segments@ == speed_key_segments(keys)
            &&& x.allow_reverse == any_negative_speed(keys)
            &&& x.interpolation == Interpolation::Nearest
        },
    }
}

/// Some key carries a below-zero speed.
pub open spec fn any_negative_speed(keys: Seq<(Rational, Rational)>) -> bool {
    exists|i: int| 0 <= i < keys.len() && #[trigger] keys[i].1.n() < 0
}

/// The constant speed between value keys `i` and `i + 1`: Δsource / Δlocal.
pub open spec fn value_rate_spec(keys: Seq<(Rational, Rational)>, i: int) -> Result<Rational, TimeError> {
    match keys[i + 1].0.spec_sub(keys[i].0) {
        Err(e) => Err(e),
        Ok(dt) => match keys[i + 1].1.spec_sub(keys[i].1) {
            Err(e) => Err(e),
            Ok(ds) => ds.spec_div(dt),
        },
    }
}

/// The value of an `Ok` rational (zero otherwise).
pub open spec fn ok_or_zero(r: Result<Rational, TimeError>) -> Rational {
    match r {
        Ok(v) => v,
        Err(_) => Rational::spec_zero(),
    }
}

/// Every span between value keys has a representable constant speed.
pub open spec fn value_rates_ok(keys: Seq<(Rational, Rational)>) -> bool {
    forall|i: int| 0 <= i < keys.len() - 1 ==> (#[trigger] value_rate_spec(keys, i)) is Ok
}

/// Boundaries exactly at the value keys.
pub open spec fn value_key_boundaries(keys: Seq<(Rational, Rational)>) -> Seq<Boundary> {
    Seq::new(keys.len(), |i: int| Boundary { t: keys[i].0, s: keys[i].1, smooth: false })
}

/// One constant-speed Linear Rate segment per span between value keys.
pub open spec fn value_key_segments(keys: Seq<(Rational, Rational)>) -> Seq<RetimeSegment> {
    Seq::new(
        (keys.len() - 1) as nat,
        |i: int|
            RetimeSegment::Rate(
                RateSegment {
                    v0: ok_or_zero(value_rate_spec(keys, i)),
                    v1: ok_or_zero(value_rate_spec(keys, i)),
                    ease: Ease::Linear,
                },
            ),
    )
}

/// Some span between value keys runs backwards.
pub open spec fn any_negative_value_rate(keys: Seq<(Rational, Rational)>) -> bool {
    exists|i: int| 0 <= i < keys.len() - 1 && #[trigger] ok_or_zero(value_rate_spec(keys, i)).n() < 0
}

/// The speed keyframes of an all-Linear-Rate store: each segment's start
/// time and start speed, then the last segment's end time and end speed.
pub open spec fn speed_keys_spec(bs: Seq<Boundary>, segs: Seq<RetimeSegment>) -> Option<
    Seq<(Rational, Rational)>,
> {
    if !(forall|i: int| 0 <= i < segs.len() ==> #[trigger] is_linear_rate(segs[i])) {
        None
    } else if segs.len() == 0 {
        Some(Seq::empty())
    } else {
        Some(
            Seq::new(
                segs.len() + 1,
                |i: int|
                    if i < segs.len() {
                        (bs[i].t, rate_of(segs[i]).v0)
                    } else {
                        (bs[i].t, rate_of(segs[i - 1]).v1)
                    },
            ),
        )
    }
}

/// The store's boundaries reach far enough for `speed_keyframes` to read
/// every boundary it visits.
pub open spec fn speed_keys_safe(bs: Seq<Boundary>, segs: Seq<RetimeSegment>) -> bool {
    forall|i: int|
        0 <= i < segs.len() && #[trigger] linear_prefix(segs, i) ==> i < bs.len() && (i + 1
            == segs.len() ==> i + 1 < bs.len())
}

/// Segments `0..=i` are all Linear Rate segments.
pub open spec fn linear_prefix(segs: Seq<RetimeSegment>, i: int) -> bool {
    forall|j: int| 0 <= j <= i ==> #[trigger] is_linear_rate(segs[j])
}

/// The segment search for `t` stays inside the boundary list: the store has
/// a boundary past every segment, or `t` is outside the domain, or `t` lies
/// strictly before the last boundary (so the search stops in time).
pub open spec fn index_safe(bs: Seq<Boundary>, segs: Seq<RetimeSegment>, t: Rational) -> bool {
    bs.len() == 0 || bs.len() > segs.len() || !in_domain(bs, segs, t) || t.spec_lt(bs[bs.len() - 1].t)
}

/// `t` lies in the store's local domain `[t_0, t_last]`.
pub open spec fn in_domain(bs: Seq<Boundary>, segs: Seq<RetimeSegment>, t: Rational) -> bool {
    &&& bs.len() > 0
    &&& segs.len() > 0
    &&& !t.spec_lt(bs[0].t)
    &&& !bs[bs.len() - 1].t.spec_lt(t)
}

/// The first segment index from `k` on whose end boundary lies after `t`,
/// or the last segment (`n − 1`) when none does.
pub open spec fn first_after(bs: Seq<Boundary>, t: Rational, k: int, n: int) -> int
    decreases n - k,
{
    if k >= n - 1 {
        n - 1
    } else if t.spec_lt(bs[k + 1].t) {
        k
    } else {
        first_after(bs, t, k + 1, n)
    }
}

/// The index of the segment covering `t`; the domain end resolves to the last segment.
pub open spec fn segment_index_spec(bs: Seq<Boundary>, segs: Seq<RetimeSegment>, t: Rational) -> Option<
    int,
> {
    if in_domain(bs, segs, t) {
        Some(first_after(bs, t, 0, segs.len() as int))
    } else {
        None
    }
}

/// In a well-shaped store, the segment found for a time in the domain
/// covers it: it starts at or before `t` and ends after `t`, or it is the
/// last segment and `t` is the end of the domain.
pub proof fn lemma_segment_index_covers(bs: Seq<Boundary>, segs: Seq<RetimeSegment>, t: Rational)
    ensures
        bs.len() == segs.len() + 1 && in_domain(bs, segs, t) ==> ({
            let i = segment_index_spec(bs, segs, t)->Some_0;
            &&& segment_index_spec(bs, segs, t) is Some
            &&& 0 <= i < segs.len()
            &&& !t.spec_lt(bs[i].t)
            &&& !bs[i + 1].t.spec_lt(t)
            &&& (t.spec_lt(bs[i + 1].t) || i + 1 == segs.len())
        }),
{
    if bs.len() == segs.len() + 1 && in_domain(bs, segs, t) {
        lemma_first_after(bs, t, 0, segs.len() as int);
        let i = first_after(bs, t, 0, segs.len() as int);
        if i + 1 == segs.len() {
            assert(bs[i + 1] == bs[bs.len() - 1]);
        }
    }
}

/// The search for `t` from segment `k` on stops at a segment that starts at
/// or before `t` and either ends after `t` or is the last one.
pub proof fn lemma_first_after(bs: Seq<Boundary>, t: Rational, k: int, n: int)
    requires
        0 <= k <= n - 1,
        bs.len() >= n + 1,
        !t.spec_lt(bs[k].t),
    ensures
        k <= first_after(bs, t, k, n) <= n - 1,
        !t.spec_lt(bs[first_after(bs, t, k, n)].t),
        t.spec_lt(bs[first_after(bs, t, k, n) + 1].t) || first_after(bs, t, k, n) == n - 1,
    decreases n - k,
{
    if k < n - 1 && !t.spec_lt(bs[k + 1].t) {
        lemma_first_after(bs, t, k + 1, n);
    }
}

/// Every source position shifted by `delta`, if every sum is representable.
pub open spec fn shift_spec(bs: Seq<Boundary>, delta: Rational) -> Option<Seq<Boundary>> {
    if forall|i: int| 0 <= i < bs.len() ==> (#[trigger] bs[i].s.spec_add(delta)) is Ok {
        Some(Seq::new(bs.len(), |i: int| Boundary { s: ok_or_zero(bs[i].s.spec_add(delta)), ..bs[i] }))
    } else {
        None
    }
}

/// A two-boundary store over `[0, duration]` whose one segment is `seg`.
pub open spec fn single_boundaries(duration: Rational, s0: Rational, s1: Rational) -> Seq<Boundary> {
    seq![
        Boundary { t: Rational::spec_zero(), s: s0, smooth: false },
        Boundary { t: duration, s: s1, smooth: false },
    ]
}

/// The pass-through store's end source position: `source_in + duration`,
/// or `source_in` itself if even the grid fallback fails.
pub open spec fn identity_end(source_in: Rational, duration: Rational) -> Rational {
    match add_fallback_spec(source_in, duration) {
        Ok(v) => v,
        Err(_) => source_in,
    }
}


/// The exact rational 1/3 (the polynomial-influence handle reach).
pub open spec fn third_spec() -> Rational {
    ok_or_zero(from_parts_spec(1, 3))
}

/// Building 1/3 always succeeds.
pub proof fn lemma_third()
    ensures
        from_parts_spec(1, 3) == Ok::<Rational, TimeError>(third_spec()),
        third_spec().wf(),
        third_spec().n() == 1,
        third_spec().d() == 3,
{
    lemma_e1(Ease::Slow);
    Rational::lemma_zero();
}

/// The outer handle (speed, influence) a merged segment inherits from its
/// left neighbour: a Rate segment's start speed at influence 1/3, or a
/// Cubic segment's own outgoing handle.
pub open spec fn out_handle(seg: RetimeSegment) -> (Rational, Rational) {
    match seg {
        RetimeSegment::Rate(s) => (s.v0, third_spec()),
        RetimeSegment::Cubic(s) => (s.m0, s.b0),
    }
}

/// The outer handle a merged segment inherits from its right neighbour.
pub open spec fn in_handle(seg: RetimeSegment) -> (Rational, Rational) {
    match seg {
        RetimeSegment::Rate(s) => (s.v1, third_spec()),
        RetimeSegment::Cubic(s) => (s.m1, s.b1),
    }
}

/// Whether merging at interior boundary `j` keeps a single Linear Rate
/// segment: both neighbours are Linear Rates and the Linear Rate from the
/// left's start speed to the right's end speed reproduces the outer source
/// advance exactly. None when that check itself cannot be computed.
pub open spec fn merge_stays_rate(bs: Seq<Boundary>, segs: Seq<RetimeSegment>, j: int) -> Option<bool> {
    if is_linear_rate(segs[j - 1]) && is_linear_rate(segs[j]) {
        match bs[j + 1].t.spec_sub(bs[j - 1].t) {
            Err(_) => None,
            Ok(d) => match bs[j + 1].s.spec_sub(bs[j - 1].s) {
                Err(_) => None,
                Ok(ds) => match rate_advance_spec(d, rate_of(segs[j - 1]).v0, rate_of(segs[j]).v1, Ease::Linear) {
                    Err(_) => None,
                    Ok(adv) => Some(adv == ds),
                },
            },
        }
    } else {
        Some(false)
    }
}

/// The single segment that replaces segments `j − 1` and `j`.
pub open spec fn merged_segment(segs: Seq<RetimeSegment>, j: int, stays_rate: bool) -> RetimeSegment {
    let (m0, b0) = out_handle(segs[j - 1]);
    let (m1, b1) = in_handle(segs[j]);
    if stays_rate {
        RetimeSegment::Rate(RateSegment { v0: m0, v1: m1, ease: Ease::Linear })
    } else {
        RetimeSegment::Cubic(MapSegment { m0, m1, b0, b1 })
    }
}


/// Chain a rational computation.
pub open spec fn rbind(r: Result<Rational, TimeError>, f: spec_fn(Rational) -> Result<Rational, TimeError>) -> Result<
    Rational,
    TimeError,
> {
    match r {
        Ok(v) => f(v),
        Err(e) => Err(e),
    }
}

/// The end speed that pins a Rate segment from `lo` to `hi` starting at
/// speed `v0` with shape `ease` to the boundaries' exact source advance:
/// `v1 = v0 + (Δs/Δt − v0) / E(1)`.
pub open spec fn pinned_v1_spec(lo: Boundary, hi: Boundary, v0: Rational, ease: Ease) -> Result<Rational, TimeError> {
    rbind(
        rbind(hi.s.spec_sub(lo.s), |ds: Rational| rbind(hi.t.spec_sub(lo.t), |dt: Rational| ds.spec_div(dt))),
        |c: Rational| rbind(rbind(c.spec_sub(v0), |x: Rational| x.spec_div(e1_spec(ease))), |w: Rational| v0.spec_add(w)),
    )
}

/// The integer `c` as a rational.
pub open spec fn int_rat(c: int) -> Result<Rational, TimeError> {
    from_parts_spec(c, 1)
}

/// `c0 + c1·u + c2·u2 + c3·u3`, evaluated left to right in exact arithmetic.
pub open spec fn hpoly_spec(c: Seq<int>, u: Rational, u2: Rational, u3: Rational) -> Result<Rational, TimeError> {
    rbind(
        int_rat(c[0]),
        |a: Rational|
            rbind(
                rbind(int_rat(c[1]), |b: Rational| b.spec_mul(u)),
                |bu: Rational|
                    rbind(
                        a.spec_add(bu),
                        |s1: Rational|
                            rbind(
                                rbind(int_rat(c[2]), |b: Rational| b.spec_mul(u2)),
                                |cu: Rational|
                                    rbind(
                                        s1.spec_add(cu),
                                        |s2: Rational|
                                            rbind(
                                                rbind(int_rat(c[3]), |b: Rational| b.spec_mul(u3)),
                                                |du: Rational| s2.spec_add(du),
                                            ),
                                    ),
                            ),
                    ),
            ),
    )
}

/// `Σ hpoly(c_k)·x_k` over four basis terms, left to right.
pub open spec fn hermite_sum(
    c: Seq<Seq<int>>,
    x: Seq<Rational>,
    u: Rational,
    u2: Rational,
    u3: Rational,
) -> Result<Rational, TimeError> {
    rbind(
        rbind(hpoly_spec(c[0], u, u2, u3), |h: Rational| h.spec_mul(x[0])),
        |a: Rational|
            rbind(
                rbind(hpoly_spec(c[1], u, u2, u3), |h: Rational| h.spec_mul(x[1])),
                |b: Rational|
                    rbind(
                        a.spec_add(b),
                        |ab: Rational|
                            rbind(
                                rbind(hpoly_spec(c[2], u, u2, u3), |h: Rational| h.spec_mul(x[2])),
                                |cc: Rational|
                                    rbind(
                                        ab.spec_add(cc),
                                        |abc: Rational|
                                            rbind(
                                                rbind(hpoly_spec(c[3], u, u2, u3), |h: Rational| h.spec_mul(x[3])),
                                                |dd: Rational| abc.spec_add(dd),
                                            ),
                                    ),
                            ),
                    ),
            ),
    )
}

/// The Hermite basis coefficients for the source position.
pub open spec fn pos_basis() -> Seq<Seq<int>> {
    seq![seq![1int, 0, -3, 2], seq![0int, 1, -2, 1], seq![0int, 0, 3, -2], seq![0int, 0, -1, 1]]
}

/// The Hermite basis coefficients for the source-position derivative in u.
pub open spec fn vel_basis() -> Seq<Seq<int>> {
    seq![seq![0int, -6, 6, 0], seq![1int, -4, 3, 0], seq![0int, 6, -6, 0], seq![0int, -2, 3, 0]]
}

/// The exact Hermite evaluation at local time `t` between `lo` and `hi` with
/// end speeds `m0`, `m1`: the source position (`want_speed` false) or the
/// speed (`want_speed` true, the u-derivative divided by the span).
#[verifier::opaque]
pub open spec fn hermite_spec(lo: Boundary, hi: Boundary, m0: Rational, m1: Rational, t: Rational, want_speed: bool) -> Result<
    Rational,
    TimeError,
> {
    rbind(
        hi.t.spec_sub(lo.t),
        |d: Rational|
            rbind(
                rbind(t.spec_sub(lo.t), |x: Rational| x.spec_div(d)),
                |u: Rational|
                    rbind(
                        u.spec_mul(u),
                        |u2: Rational|
                            rbind(
                                rbind(u.spec_mul(u), |uu: Rational| uu.spec_mul(u)),
                                |u3: Rational|
                                    rbind(
                                        d.spec_mul(m0),
                                        |dm0: Rational|
                                            rbind(
                                                d.spec_mul(m1),
                                                |dm1: Rational|
                                                    if want_speed {
                                                        rbind(
                                                            hermite_sum(vel_basis(), seq![lo.s, dm0, hi.s, dm1], u, u2, u3),
                                                            |dydu: Rational| dydu.spec_div(d),
                                                        )
                                                    } else {
                                                        hermite_sum(pos_basis(), seq![lo.s, dm0, hi.s, dm1], u, u2, u3)
                                                    },
                                            ),
                                    ),
                            ),
                    ),
            ),
    )
}

/// `c0·F³ + c1·U·F² + c2·U²·F + c3·U³`: a cubic basis polynomial at
/// `U / F` (grid ticks), scaled by `F³`.
pub open spec fn cubic_ticks(c: Seq<int>, un: int) -> int {
    c[0] * (FLICK_DEN * FLICK_DEN * FLICK_DEN) + c[1] * un * (FLICK_DEN * FLICK_DEN) + c[2] * un * un * FLICK_DEN
        + c[3] * un * un * un
}

/// The grid-tick value of a basis polynomial at `U / F`.
pub open spec fn basis_units(c: Seq<int>, un: int) -> int {
    round_half_away(cubic_ticks(c, un) * FLICK_DEN, FLICK_DEN * FLICK_DEN * FLICK_DEN)
}

/// Within 2⁴⁰ grid ticks (far beyond what a basis value on [−1, 1] reaches).
pub open spec fn small_units(h: int) -> bool {
    -0x100_0000_0000 <= h <= 0x100_0000_0000
}

/// The coarse Hermite evaluation used when the exact one overflows: the
/// curve parameter, the end positions and the end handles `d·m` are first
/// rounded onto the flick grid, the basis is evaluated there and rounded onto
/// the grid, and the weighted sum (divided by the grid span for a speed) is
/// rounded onto the grid. `Overflow` when the span is not positive, the
/// parameter lies outside [−1, 1], or a grid value is out of range.
#[verifier::opaque]
pub open spec fn coarse_hermite_spec(lo: Boundary, hi: Boundary, m0: Rational, m1: Rational, t: Rational, want_speed: bool) -> Result<
    Rational,
    TimeError,
> {
    match hi.t.spec_sub(lo.t) {
        Err(e) => Err(e),
        Ok(d) => match t.spec_sub(lo.t) {
            Err(e) => Err(e),
            Ok(x) => if d.n() <= 0 {
                Err(TimeError::Overflow)
            } else {
                let un = round_half_away(x.n() * d.d() * FLICK_DEN, x.d() * d.n());
                let x0 = grid_units(lo.s);
                let x1 = round_half_away(d.n() * m0.n() * FLICK_DEN, d.d() * m0.d());
                let x2 = grid_units(hi.s);
                let x3 = round_half_away(d.n() * m1.n() * FLICK_DEN, d.d() * m1.d());
                let cs = if want_speed { vel_basis() } else { pos_basis() };
                let h0 = basis_units(cs[0], un);
                let h1 = basis_units(cs[1], un);
                let h2 = basis_units(cs[2], un);
                let h3 = basis_units(cs[3], un);
                let dt = grid_units(d);
                if !fits_i64(un) || un < -FLICK_DEN || un > FLICK_DEN || !fits_i64(x0) || !fits_i64(x1) || !fits_i64(x2)
                    || !fits_i64(x3) || !small_units(h0) || !small_units(h1) || !small_units(h2) || !small_units(h3) {
                    Err(TimeError::Overflow)
                } else {
                    let total = h0 * x0 + h1 * x1 + h2 * x2 + h3 * x3;
                    if !fits_wide(total) {
                        Err(TimeError::Overflow)
                    } else if want_speed {
                        if !fits_i64(dt) || dt <= 0 {
                            Err(TimeError::Overflow)
                        } else {
                            grid_round_spec(total, FLICK_DEN * dt)
                        }
                    } else {
                        grid_round_spec(total, FLICK_DEN * FLICK_DEN)
                    }
                }
            },
        },
    }
}

/// The Hermite evaluation exactly, or, when the exact arithmetic overflows,
/// the coarse evaluation rounded onto the flick grid.
#[verifier::opaque]
pub open spec fn hermite_fb_spec(lo: Boundary, hi: Boundary, m0: Rational, m1: Rational, t: Rational, want_speed: bool) -> Result<
    Rational,
    TimeError,
> {
    match hermite_spec(lo, hi, m0, m1, t, want_speed) {
        Ok(v) => Ok(v),
        Err(TimeError::Overflow) => coarse_hermite_spec(lo, hi, m0, m1, t, want_speed),
        Err(e) => Err(e),
    }
}

/// The first segment index from `k` whose half-open span `[t_k, t_{k+1})`
/// contains `t`.
pub open spec fn cut_from(bs: Seq<Boundary>, t: Rational, k: int, n: int) -> Option<int>
    decreases n - k,
{
    if k >= n {
        None
    } else if bs[k].t.spec_le(t) && t.spec_lt(bs[k + 1].t) {
        Some(k)
    } else {
        cut_from(bs, t, k + 1, n)
    }
}

/// Boundaries `from..` moved `t` earlier in local time (not smooth), if
/// every shifted time is representable.
pub open spec fn shifted_from(bs: Seq<Boundary>, from: int, t: Rational) -> Option<Seq<Boundary>> {
    if forall|k: int| from <= k < bs.len() ==> (#[trigger] bs[k].t.spec_sub(t)) is Ok {
        Some(
            Seq::new(
                (bs.len() - from) as nat,
                |k: int| Boundary { t: ok_or_zero(bs[from + k].t.spec_sub(t)), s: bs[from + k].s, smooth: false },
            ),
        )
    } else {
        None
    }
}

/// The speed at the cut of Linear Rate segment `i`:
/// `v0 + (v1 − v0) · (t − t_i) / (t_{i+1} − t_i)`.
pub open spec fn linear_cut_speed(bs: Seq<Boundary>, i: int, t: Rational, v0: Rational, v1: Rational) -> Result<
    Rational,
    TimeError,
> {
    rbind(
        bs[i + 1].t.spec_sub(bs[i].t),
        |seg_d: Rational|
            rbind(
                rbind(t.spec_sub(bs[i].t), |d_left: Rational| d_left.spec_div(seg_d)),
                |u: Rational|
                    rbind(
                        rbind(v1.spec_sub(v0), |dv: Rational| dv.spec_mul(u)),
                        |w: Rational| v0.spec_add(w),
                    ),
            ),
    )
}

/// A half of a split, as (boundaries, segments) after recomputation.
pub type Half = (Seq<Boundary>, Seq<RetimeSegment>);

/// Splitting Linear Rate segment `i` at `t`: both halves stay Linear Rates
/// meeting at the exact cut speed; the right half's first source position is
/// the left half's recomputed end.
pub open spec fn split_linear_spec(bs: Seq<Boundary>, segs: Seq<RetimeSegment>, allow: bool, i: int, t: Rational) -> Option<
    (Half, Half),
> {
    let v0 = rate_of(segs[i]).v0;
    let v1 = rate_of(segs[i]).v1;
    match linear_cut_speed(bs, i, t, v0, v1) {
        Err(_) => None,
        Ok(vat) => {
            let lb = bs.subrange(0, i + 1).push(Boundary { t, s: bs[i].s, smooth: false });
            let ls = segs.subrange(0, i).push(RetimeSegment::Rate(RateSegment { v0, v1: vat, ease: Ease::Linear }));
            let lr = recompute_spec(lb, ls, allow);
            if lr.1 is Err {
                None
            } else {
                match shifted_from(bs, i + 1, t) {
                    None => None,
                    Some(sh) => {
                        let rb = seq![Boundary { t: Rational::spec_zero(), s: lr.0.last().s, smooth: false }] + sh;
                        let rs = seq![RetimeSegment::Rate(RateSegment { v0: vat, v1, ease: Ease::Linear })]
                            + segs.subrange(i + 1, segs.len() as int);
                        let rr = recompute_spec(rb, rs, allow);
                        if rr.1 is Err {
                            None
                        } else {
                            Some(((lr.0, ls), (rr.0, rs)))
                        }
                    },
                }
            }
        },
    }
}

/// `v0 · half + (v1 − v0) · e_half`, exactly.
pub open spec fn mid_inner_spec(v0: Rational, v1: Rational, half: Rational, e_half: Rational) -> Result<Rational, TimeError> {
    rbind(
        v1.spec_sub(v0),
        |dv: Rational| rbind(v0.spec_mul(half), |a: Rational| rbind(dv.spec_mul(e_half), |b: Rational| a.spec_add(b))),
    )
}

/// The source position halfway through an eased Rate segment starting at
/// `s0` and lasting `d`: `s0 + d · (v0 · half + (v1 − v0) · e_half)`, exactly,
/// or rounded onto the flick grid where a step does not fit (the product
/// rounded when the speed mix fits, else the coarse advance of the speeds
/// mixed as `(v0·w0 + v1·w1) / q`; the sum rounded when it does not fit).
#[verifier::opaque]
pub open spec fn mid_source_spec(
    s0: Rational,
    d: Rational,
    v0: Rational,
    v1: Rational,
    half: Rational,
    e_half: Rational,
    w0: int,
    w1: int,
    q: int,
) -> Result<Rational, RetimeError> {
    let adv = match mid_inner_spec(v0, v1, half, e_half) {
        Ok(inner) => match d.spec_mul(inner) {
            Ok(x) => Ok(x),
            Err(_) => grid_round_spec(d.n() * inner.n(), d.d() * inner.d()),
        },
        Err(_) => coarse_mix_spec(d, v0, v1, w0, w1, q),
    };
    match adv {
        Err(e) => Err(RetimeError::Arithmetic(e)),
        Ok(a) => add_fallback_spec(s0, a),
    }
}

/// The polynomial Cubic decomposition of segment `i` as (segment, upper
/// boundary) pieces: one piece for Slow/Fast and for an already-polynomial
/// Cubic, two for Smooth/Sharp (split exactly at the middle). None for a
/// Linear Rate, a general-influence Cubic, or when a value does not fit.
pub open spec fn pieces_spec(bs: Seq<Boundary>, segs: Seq<RetimeSegment>, i: int) -> Option<
    Seq<(MapSegment, Boundary)>,
> {
    let lo = bs[i];
    let hi = bs[i + 1];
    let third = third_spec();
    match segs[i] {
        RetimeSegment::Rate(seg) => match seg.ease {
            Ease::Linear => None,
            Ease::Slow | Ease::Fast => Some(seq![(MapSegment { m0: seg.v0, m1: seg.v1, b0: third, b1: third }, hi)]),
            Ease::Smooth | Ease::Sharp => {
                let half = ok_or_zero(from_parts_spec(1, 2));
                let e_half = if seg.ease == Ease::Smooth {
                    ok_or_zero(from_parts_spec(1, 12))
                } else {
                    ok_or_zero(from_parts_spec(1, 6))
                };
                match hi.t.spec_sub(lo.t) {
                    Err(_) => None,
                    Ok(d_seg) => match rbind(d_seg.spec_mul(half), |x: Rational| lo.t.spec_add(x)) {
                        Err(_) => None,
                        Ok(mid_t) => match rbind(seg.v0.spec_add(seg.v1), |x: Rational| x.spec_mul(half)) {
                            Err(_) => None,
                            Ok(vmid) => match mid_source_spec(
                            lo.s,
                            d_seg,
                            seg.v0,
                            seg.v1,
                            half,
                            e_half,
                            if seg.ease == Ease::Smooth { 5 } else { 2 },
                            1,
                            if seg.ease == Ease::Smooth { 12 } else { 6 },
                        ) {
                                Err(_) => None,
                                Ok(s_mid) => Some(
                                    seq![
                                        (
                                            MapSegment { m0: seg.v0, m1: vmid, b0: third, b1: third },
                                            Boundary { t: mid_t, s: s_mid, smooth: false },
                                        ),
                                        (MapSegment { m0: vmid, m1: seg.v1, b0: third, b1: third }, hi),
                                    ],
                                ),
                            },
                        },
                    },
                }
            },
        },
        RetimeSegment::Cubic(seg) => if seg.b0.n() == 1 && seg.b0.d() == 3 && seg.b1.n() == 1 && seg.b1.d() == 3 {
            Some(seq![(seg, hi)])
        } else {
            None
        },
    }
}

/// Lay the pieces `k..` down after lower boundary `lo`, splitting the first
/// piece that contains `t` at the exact Hermite position and speed. Returns
/// the extended (boundaries, segments, cut index), or None when the Hermite
/// evaluation fails.
pub open spec fn assemble_from(
    pieces: Seq<(MapSegment, Boundary)>,
    k: nat,
    lo: Boundary,
    t: Rational,
    eb: Seq<Boundary>,
    es: Seq<RetimeSegment>,
    cut: Option<int>,
) -> Option<(Seq<Boundary>, Seq<RetimeSegment>, Option<int>)>
    decreases pieces.len() - k,
{
    if k >= pieces.len() {
        Some((eb, es, cut))
    } else {
        let pmap = pieces[k as int].0;
        let phi = pieces[k as int].1;
        let third = third_spec();
        if cut is None && lo.t.spec_le(t) && t.spec_lt(phi.t) {
            match (hermite_fb_spec(lo, phi, pmap.m0, pmap.m1, t, false), hermite_fb_spec(lo, phi, pmap.m0, pmap.m1, t, true)) {
                (Ok(s_cut), Ok(v_cut)) => assemble_from(
                    pieces,
                    k + 1,
                    phi,
                    t,
                    eb.push(Boundary { t, s: s_cut, smooth: false }).push(phi),
                    es.push(RetimeSegment::Cubic(MapSegment { m0: pmap.m0, m1: v_cut, b0: third, b1: third })).push(
                        RetimeSegment::Cubic(MapSegment { m0: v_cut, m1: pmap.m1, b0: third, b1: third }),
                    ),
                    Some(eb.len() as int),
                ),
                _ => None,
            }
        } else {
            assemble_from(pieces, k + 1, phi, t, eb.push(phi), es.push(RetimeSegment::Cubic(pmap)), cut)
        }
    }
}

/// Splitting segment `i` at `t` through its polynomial decomposition: every
/// piece becomes a polynomial Cubic segment, the one containing `t` is cut at
/// the exact Hermite position, and the store is partitioned there.
pub open spec fn split_general_spec(bs: Seq<Boundary>, segs: Seq<RetimeSegment>, allow: bool, i: int, t: Rational) -> Option<
    (Half, Half),
> {
    match pieces_spec(bs, segs, i) {
        None => None,
        Some(pieces) => match assemble_from(pieces, 0, bs[i], t, bs.subrange(0, i + 1), segs.subrange(0, i), None) {
            None => None,
            Some((eb0, es0, cut)) => match cut {
                None => None,
                Some(c) => {
                    let eb = eb0 + bs.subrange(i + 2, bs.len() as int);
                    let es = es0 + segs.subrange(i + 1, segs.len() as int);
                    match shifted_from(eb, c + 1, t) {
                        None => None,
                        Some(sh) => {
                            let lr = recompute_spec(eb.subrange(0, c + 1), es.subrange(0, c), allow);
                            let rb = seq![Boundary { t: Rational::spec_zero(), s: eb[c].s, smooth: false }] + sh;
                            let rr = recompute_spec(rb, es.subrange(c, es.len() as int), allow);
                            if lr.1 is Err || rr.1 is Err {
                                None
                            } else {
                                Some(((lr.0, es.subrange(0, c)), (rr.0, es.subrange(c, es.len() as int))))
                            }
                        },
                    }
                },
            },
        },
    }
}

/// Splitting a store at local time `t` into halves covering `[0, t]` and
/// `[t, D]`, each starting at zero: a Linear Rate segment stays two Linear
/// Rates, anything else goes through the polynomial decomposition.
pub open spec fn split_spec(bs: Seq<Boundary>, segs: Seq<RetimeSegment>, allow: bool, t: Rational) -> Option<
    (Half, Half),
> {
    if bs.len() == 0 || !(Rational::spec_zero().spec_lt(t) && t.spec_lt(bs.last().t)) {
        None
    } else {
        match cut_from(bs, t, 0, segs.len() as int) {
            None => None,
            Some(i) => if is_linear_rate(segs[i]) {
                split_linear_spec(bs, segs, allow, i, t)
            } else {
                split_general_spec(bs, segs, allow, i, t)
            },
        }
    }
}


/// Recomputation only rewrites source positions past the first boundary:
/// the length, every local time and smooth flag, and the first boundary stay.
pub proof fn lemma_recompute_from_shape(bs: Seq<Boundary>, segs: Seq<RetimeSegment>, allow: bool, i: nat)
    requires
        bs.len() == segs.len() + 1,
    ensures
        recompute_from(bs, segs, allow, i).0.len() == bs.len(),
        forall|k: int| 0 <= k < bs.len() ==> (#[trigger] recompute_from(bs, segs, allow, i).0[k]).t == bs[k].t,
        forall|k: int| 0 <= k < bs.len() ==> (#[trigger] recompute_from(bs, segs, allow, i).0[k]).smooth == bs[k].smooth,
        forall|k: int| 0 <= k <= i && k < bs.len() ==> #[trigger] recompute_from(bs, segs, allow, i).0[k] == bs[k],
    decreases segs.len() - i,
{
    if i < segs.len() {
        match segs[i as int] {
            RetimeSegment::Cubic(_) => {
                lemma_recompute_from_shape(bs, segs, allow, i + 1);
            },
            RetimeSegment::Rate(seg) => match rate_end_spec(bs, i as int, seg, allow) {
                Err(_) => {},
                Ok(sv) => {
                    lemma_recompute_from_shape(with_source(bs, i + 1 as int, sv), segs, allow, i + 1);
                },
            },
        }
    }
}

/// What a recomputation keeps, and that success means the structure was valid
/// (and still is).
pub proof fn lemma_recompute_shape(bs: Seq<Boundary>, segs: Seq<RetimeSegment>, allow: bool)
    ensures
        recompute_spec(bs, segs, allow).0.len() == bs.len(),
        forall|k: int| 0 <= k < bs.len() ==> (#[trigger] recompute_spec(bs, segs, allow).0[k]).t == bs[k].t,
        forall|k: int| 0 <= k < bs.len() ==> (#[trigger] recompute_spec(bs, segs, allow).0[k]).smooth == bs[k].smooth,
        bs.len() > 0 ==> recompute_spec(bs, segs, allow).0[0] == bs[0],
        recompute_spec(bs, segs, allow).1 is Ok ==> validate_spec(bs, segs) is Ok,
        recompute_spec(bs, segs, allow).1 is Ok ==> validate_spec(recompute_spec(bs, segs, allow).0, segs) is Ok,
{
    if validate_spec(bs, segs) is Ok {
        lemma_recompute_from_shape(bs, segs, allow, 0);
        let out = recompute_spec(bs, segs, allow).0;
        assert(out[0].t == bs[0].t);
        assert forall|k: int| 0 <= k < out.len() - 1 implies #[trigger] out[k].t.spec_lt(out[k + 1].t) by {
            assert(out[k].t == bs[k].t);
            assert(out[k + 1].t == bs[k + 1].t);
            assert(bs[k].t.spec_lt(bs[k + 1].t));
        }
    }
}


/// The halves of a successful split are structurally valid stores, the left
/// one ending at the cut.
pub proof fn lemma_split_shapes(bs: Seq<Boundary>, segs: Seq<RetimeSegment>, allow: bool, t: Rational)
    requires
        split_spec(bs, segs, allow, t) is Some,
    ensures
        ({
            let ((lb, ls), (rb, rs)) = split_spec(bs, segs, allow, t)->Some_0;
            &&& validate_spec(lb, ls) is Ok
            &&& validate_spec(rb, rs) is Ok
            &&& lb.len() == ls.len() + 1
            &&& rb.len() == rs.len() + 1
        }),
{
    let i = cut_from(bs, t, 0, segs.len() as int)->Some_0;
    if is_linear_rate(segs[i]) {
        let v0 = rate_of(segs[i]).v0;
        let v1 = rate_of(segs[i]).v1;
        let vat = linear_cut_speed(bs, i, t, v0, v1)->Ok_0;
        let lb = bs.subrange(0, i + 1).push(Boundary { t, s: bs[i].s, smooth: false });
        let ls = segs.subrange(0, i).push(RetimeSegment::Rate(RateSegment { v0, v1: vat, ease: Ease::Linear }));
        lemma_recompute_shape(lb, ls, allow);
        let lr = recompute_spec(lb, ls, allow);
        let sh = shifted_from(bs, i + 1, t)->Some_0;
        let rb = seq![Boundary { t: Rational::spec_zero(), s: lr.0.last().s, smooth: false }] + sh;
        let rs = seq![RetimeSegment::Rate(RateSegment { v0: vat, v1, ease: Ease::Linear })] + segs.subrange(i + 1, segs.len() as int);
        lemma_recompute_shape(rb, rs, allow);
    } else {
        let pieces = pieces_spec(bs, segs, i)->Some_0;
        let (eb0, es0, cut) = assemble_from(pieces, 0, bs[i], t, bs.subrange(0, i + 1), segs.subrange(0, i), None)->Some_0;
        let c = cut->Some_0;
        let eb = eb0 + bs.subrange(i + 2, bs.len() as int);
        let es = es0 + segs.subrange(i + 1, segs.len() as int);
        let sh = shifted_from(eb, c + 1, t)->Some_0;
        lemma_recompute_shape(eb.subrange(0, c + 1), es.subrange(0, c), allow);
        let rb = seq![Boundary { t: Rational::spec_zero(), s: eb[c].s, smooth: false }] + sh;
        lemma_recompute_shape(rb, es.subrange(c, es.len() as int), allow);
    }
}

/// The store `insert_freeze` assembles before recomputing and cropping: the
/// left half of the split at `at`, a zero-speed hold to `at + duration`, then
/// the right half moved that far along.
pub open spec fn freeze_parts(bs: Seq<Boundary>, segs: Seq<RetimeSegment>, allow: bool, at: Rational, duration: Rational) -> Option<
    Half,
> {
    match split_spec(bs, segs, allow, at) {
        None => None,
        Some(((lb, ls), (rb, rs))) => match at.spec_add(duration) {
            Err(_) => None,
            Ok(fe) => match moved_later(rb, fe) {
                None => None,
                Some(mv) => Some(
                    (
                        lb.push(Boundary { t: fe, s: lb.last().s, smooth: false }) + mv,
                        ls.push(
                            RetimeSegment::Rate(
                                RateSegment { v0: Rational::spec_zero(), v1: Rational::spec_zero(), ease: Ease::Linear },
                            ),
                        ) + rs,
                    ),
                ),
            },
        },
    }
}

/// `insert_freeze`: the assembled store recomputed, then cropped back to the
/// starting domain by a second split at the starting duration.
pub open spec fn freeze_spec(bs: Seq<Boundary>, segs: Seq<RetimeSegment>, allow: bool, at: Rational, duration: Rational) -> Option<
    Half,
> {
    if bs.len() == 0 || !(Rational::spec_zero().spec_lt(at) && at.spec_lt(bs.last().t) && Rational::spec_zero().spec_lt(
        duration,
    )) {
        None
    } else {
        match freeze_parts(bs, segs, allow, at, duration) {
            None => None,
            Some((ab, as_)) => {
                let ar = recompute_spec(ab, as_, allow);
                if ar.1 is Err {
                    None
                } else {
                    match split_spec(ar.0, as_, allow, bs.last().t) {
                        None => None,
                        Some((left, _)) => Some(left),
                    }
                }
            },
        }
    }
}

// ---------------------------------------------------------------------------
// Exact arithmetic helpers.
// ---------------------------------------------------------------------------

/// Endpoint speeds with the reverse gate applied: while `allow_reverse` is
/// off, negative speeds evaluate as zero.
pub fn clamped_speeds(seg: &RateSegment, allow_reverse: bool) -> (r: (Rational, Rational))
    ensures
        r == clamped_spec(*seg, allow_reverse),
{
    if allow_reverse {
        (seg.v0, seg.v1)
    } else {
        let a = if seg.v0.is_negative() {
            Rational::zero()
        } else {
            seg.v0
        };
        let b = if seg.v1.is_negative() {
            Rational::zero()
        } else {
            seg.v1
        };
        (a, b)
    }
}

/// `a + b`, exact. When the exact sum overflows, the sum is recomputed wide
/// and rounded onto the flick grid (1/705 600 000 s) instead.
pub fn add_with_flick_fallback(a: Rational, b: Rational) -> (r: Result<Rational, RetimeError>)
    ensures
        r == add_fallback_spec(a, b),
{
    match a.checked_add(b) {
        Ok(v) => Ok(v),
        Err(TimeError::Overflow) => {
            proof {
                use_type_invariant(&a);
                use_type_invariant(&b);
                lemma_num_den_bound(a.n(), b.d());
                lemma_num_den_bound(b.n(), a.d());
                lemma_prod_bound(a.d(), b.d());
                assert(a.d() * b.d() > 0) by (nonlinear_arith)
                    requires
                        a.d() > 0,
                        b.d() > 0,
                ;
            }
            let num = (a.num() as i128) * (b.den() as i128) + (b.num() as i128) * (a.den() as i128);
            let den = (a.den() as i128) * (b.den() as i128);
            match round_onto_grid(num, den) {
                Ok(v) => Ok(v),
                Err(e) => Err(RetimeError::Arithmetic(e)),
            }
        },
        Err(e) => Err(RetimeError::Arithmetic(e)),
    }
}

/// The source advance of one Rate segment of length `d`:
/// `d · [v0 + (v1 − v0) · E(1)]`, exactly, or rounded onto the flick grid
/// when the exact value does not fit.
pub fn rate_advance(d: Rational, v0: Rational, v1: Rational, ease: Ease) -> (r: Result<
    Rational,
    RetimeError,
>)
    ensures
        r == rate_advance_spec(d, v0, v1, ease),
{
    match average_speed(v0, v1, ease) {
        Ok(inner) => match product_or_grid(d, inner) {
            Ok(v) => Ok(v),
            Err(e) => Err(RetimeError::Arithmetic(e)),
        },
        Err(_) => {
            let (en, ed) = ease_parts(ease);
            match coarse_mix(d, v0, v1, ed - en, en, ed) {
                Ok(v) => Ok(v),
                Err(e) => Err(RetimeError::Arithmetic(e)),
            }
        },
    }
}

/// `v0 + (v1 − v0) · E(1)`, exactly.
fn average_speed(v0: Rational, v1: Rational, ease: Ease) -> (r: Result<Rational, TimeError>)
    ensures
        r == inner_spec(v0, v1, ease),
{
    let e1 = ease.e_at_1();
    let dv = match v1.checked_sub(v0) {
        Ok(x) => x,
        Err(e) => return Err(e),
    };
    let weighted = match dv.checked_mul(e1) {
        Ok(x) => x,
        Err(e) => return Err(e),
    };
    v0.checked_add(weighted)
}

/// The table fraction of E(1) as (numerator, denominator).
fn ease_parts(ease: Ease) -> (r: (i128, i128))
    ensures
        r.0 as int == ease_frac(ease).0,
        r.1 as int == ease_frac(ease).1,
{
    match ease {
        Ease::Linear | Ease::Smooth | Ease::Sharp => (1, 2),
        Ease::Slow => (1, 3),
        Ease::Fast => (2, 3),
    }
}

/// The coarse advance `d · (v0·w0 + v1·w1) / q` of the grid-rounded speeds.
fn coarse_mix(d: Rational, v0: Rational, v1: Rational, w0: i128, w1: i128, q: i128) -> (r: Result<Rational, TimeError>)
    requires
        0 <= w0 <= 11,
        0 <= w1 <= 11,
        1 <= q <= 12,
    ensures
        r == coarse_mix_spec(d, v0, v1, w0 as int, w1 as int, q as int),
{
    reveal(coarse_mix_spec);
    proof {
        use_type_invariant(&d);
        use_type_invariant(&v0);
        use_type_invariant(&v1);
    }
    let a = match grid_count(v0.num() as i128, v0.den() as i128) {
        Some(u) => u,
        None => return Err(TimeError::Overflow),
    };
    let b = match grid_count(v1.num() as i128, v1.den() as i128) {
        Some(u) => u,
        None => return Err(TimeError::Overflow),
    };
    proof {
        assert(-0x8000_0000_0000_0000 * 11 <= (a as int) * w0 <= 0x7fff_ffff_ffff_ffff * 11) by (nonlinear_arith)
            requires
                -0x8000_0000_0000_0000 <= a <= 0x7fff_ffff_ffff_ffff,
                0 <= w0 <= 11,
        ;
        assert(-0x8000_0000_0000_0000 * 11 <= (b as int) * w1 <= 0x7fff_ffff_ffff_ffff * 11) by (nonlinear_arith)
            requires
                -0x8000_0000_0000_0000 <= b <= 0x7fff_ffff_ffff_ffff,
                0 <= w1 <= 11,
        ;
    }
    let sum: i128 = (a as i128) * w0 + (b as i128) * w1;
    let num = match (d.num() as i128).checked_mul(sum) {
        Some(x) => x,
        None => return Err(TimeError::Overflow),
    };
    if num == i128::MIN {
        return Err(TimeError::Overflow);
    }
    proof {
        assert(d.d() * FLICK_DEN * q <= 0x7fff_ffff_ffff_ffff * 705_600_000 * 12) by (nonlinear_arith)
            requires
                0 < d.d() <= 0x7fff_ffff_ffff_ffff,
                1 <= q <= 12,
        ;
        assert(d.d() * FLICK_DEN * q > 0) by (nonlinear_arith)
            requires
                0 < d.d(),
                1 <= q,
        ;
    }
    let den: i128 = (d.den() as i128) * 705_600_000i128 * q;
    round_onto_grid(num, den)
}

/// `d · inner` exactly, or rounded onto the flick grid when it does not fit.
fn product_or_grid(d: Rational, inner: Rational) -> (r: Result<Rational, TimeError>)
    ensures
        r == (match d.spec_mul(inner) {
            Ok(x) => Ok(x),
            Err(_) => grid_round_spec(d.n() * inner.n(), d.d() * inner.d()),
        }),
{
    match d.checked_mul(inner) {
        Ok(x) => Ok(x),
        Err(_) => {
            proof {
                use_type_invariant(&d);
                use_type_invariant(&inner);
                lemma_prod_bound(d.n(), inner.n());
                lemma_prod_bound(d.d(), inner.d());
                assert(d.d() * inner.d() > 0) by (nonlinear_arith)
                    requires
                        d.d() > 0,
                        inner.d() > 0,
                ;
            }
            let num = (d.num() as i128) * (inner.num() as i128);
            let den = (d.den() as i128) * (inner.den() as i128);
            round_onto_grid(num, den)
        },
    }
}

/// The source position halfway through an eased Rate segment (see
/// `mid_source_spec`).
fn mid_source(s0: Rational, d: Rational, v0: Rational, v1: Rational, half: Rational, e_half: Rational, w0: i128, q: i128) -> (r: Result<
    Rational,
    RetimeError,
>)
    requires
        0 <= w0 <= 11,
        1 <= q <= 12,
    ensures
        r == mid_source_spec(s0, d, v0, v1, half, e_half, w0 as int, 1, q as int),
{
    reveal(mid_source_spec);
    let inner = match v1.checked_sub(v0) {
        Ok(dv) => match v0.checked_mul(half) {
            Ok(a) => match dv.checked_mul(e_half) {
                Ok(b) => a.checked_add(b),
                Err(e) => Err(e),
            },
            Err(e) => Err(e),
        },
        Err(e) => Err(e),
    };
    assert(inner == mid_inner_spec(v0, v1, half, e_half));
    let adv = match inner {
        Ok(x) => product_or_grid(d, x),
        Err(_) => coarse_mix(d, v0, v1, w0, 1, q),
    };
    match adv {
        Err(e) => Err(RetimeError::Arithmetic(e)),
        Ok(a) => add_with_flick_fallback(s0, a),
    }
}

/// The Rate segment a fitted start speed `v0` and shape `ease` settle on
/// between `lo` and `hi`: the end speed is set exactly so the segment's source
/// advance reproduces `hi.s − lo.s` (C0 is never sacrificed). None when a
/// value does not fit or the span is empty.
pub fn pinned_rate(lo: &Boundary, hi: &Boundary, v0: Rational, ease: Ease) -> (r: Option<RateSegment>)
    ensures
        match pinned_v1_spec(*lo, *hi, v0, ease) {
            Ok(v1) => r == Some(RateSegment { v0, v1, ease }),
            Err(_) => r is None,
        },
{
    let ds = match hi.s.checked_sub(lo.s) {
        Ok(x) => x,
        Err(_) => return None,
    };
    let dt = match hi.t.checked_sub(lo.t) {
        Ok(x) => x,
        Err(_) => return None,
    };
    let c = match ds.checked_div(dt) {
        Ok(x) => x,
        Err(_) => return None,
    };
    let x = match c.checked_sub(v0) {
        Ok(x) => x,
        Err(_) => return None,
    };
    let w = match x.checked_div(ease.e_at_1()) {
        Ok(w) => w,
        Err(_) => return None,
    };
    match v0.checked_add(w) {
        Ok(v1) => Some(RateSegment { v0, v1, ease }),
        Err(_) => None,
    }
}

/// True for the rational 1/3 exactly (the polynomial-influence marker).
pub fn is_one_third(r: Rational) -> (b: bool)
    ensures
        b == (r.n() == 1 && r.d() == 3),
{
    r.num() == 1 && r.den() == 3
}

impl Retime {
    /// Structural sanity: at least one segment, one more boundary than
    /// segments, the first boundary at local time zero, boundary times
    /// strictly increasing.
    pub fn validate(&self) -> (r: Result<(), RetimeError>)
        ensures
            r == validate_spec(self.boundaries@, self.segments@),
    {
        if self.segments.len() == 0 {
            return Err(RetimeError::InvalidStructure("a retime needs at least one segment"));
        }
        if self.boundaries.len() == 0 || self.boundaries.len() - 1 != self.segments.len() {
            return Err(RetimeError::InvalidStructure("boundary count must be segment count plus one"));
        }
        if self.boundaries[0].t != Rational::zero() {
            return Err(RetimeError::InvalidStructure("the first boundary must sit at local time zero"));
        }
        let n = self.boundaries.len();
        for i in 0..n - 1
            invariant
                n == self.boundaries@.len(),
                n >= 2,
                n == self.segments@.len() + 1,
                self.boundaries@[0].t == Rational::spec_zero(),
                forall|k: int| 0 <= k < i ==> #[trigger] self.boundaries@[k].t.spec_lt(self.boundaries@[k + 1].t),
        {
            if self.boundaries[i + 1].t.le(&self.boundaries[i].t) {
                assert(!self.boundaries@[i as int].t.spec_lt(self.boundaries@[i + 1].t));
                assert(!strictly_increasing(self.boundaries@));
                return Err(RetimeError::InvalidStructure("boundary times must strictly increase"));
            }
        }
        Ok(())
    }

    /// Re-derive every boundary source position downstream of a Rate segment,
    /// exactly: `s[i+1] = s[i] + d · [v0 + (v1 − v0) · E(1)]`, speeds gated by
    /// the reverse switch. Map segment boundaries are left as they are. Stops at
    /// the first failure, keeping what was already rewritten.
    pub fn recompute_boundaries(&mut self) -> (r: Result<(), RetimeError>)
        ensures
            (final(self).boundaries@, r) == recompute_spec(
                old(self).boundaries@,
                old(self).segments@,
                old(self).allow_reverse,
            ),
            final(self).segments@ == old(self).segments@,
            final(self).allow_reverse == old(self).allow_reverse,
            final(self).interpolation == old(self).interpolation,
    {
        match self.validate() {
            Err(e) => return Err(e),
            Ok(_) => {},
        }
        let n = self.segments.len();
        let ghost bs0 = self.boundaries@;
        for i in 0..n
            invariant
                n == self.segments@.len(),
                self.boundaries@.len() == n + 1,
                self.segments@ == old(self).segments@,
                self.allow_reverse == old(self).allow_reverse,
                self.interpolation == old(self).interpolation,
                bs0 == old(self).boundaries@,
                validate_spec(bs0, self.segments@) == Ok::<(), RetimeError>(()),
                recompute_from(self.boundaries@, self.segments@, self.allow_reverse, i as nat)
                    == recompute_from(bs0, self.segments@, self.allow_reverse, 0),
        {
            let seg = self.segments[i];
            if let RetimeSegment::Rate(rs) = seg {
                let (v0, v1) = clamped_speeds(&rs, self.allow_reverse);
                let d = match self.boundaries[i + 1].t.checked_sub(self.boundaries[i].t) {
                    Ok(x) => x,
                    Err(e) => return Err(RetimeError::Arithmetic(e)),
                };
                let advance = match rate_advance(d, v0, v1, rs.ease) {
                    Ok(x) => x,
                    Err(e) => return Err(e),
                };
                let s = match add_with_flick_fallback(self.boundaries[i].s, advance) {
                    Ok(x) => x,
                    Err(e) => return Err(e),
                };
                let ghost prev = self.boundaries@;
                let mut b = self.boundaries[i + 1];
                b.s = s;
                self.boundaries.set(i + 1, b);
                assert(self.boundaries@ =~= with_source(prev, i + 1, s));
            }
        }
        Ok(())
    }
}

impl Retime {
    /// The "no retiming" store: one 100 %-speed segment across
    /// `[0, duration]`, source running from `source_in`, so the curve is
    /// `source_in + t`. The end source position is exact (grid-rounded only if
    /// the exact sum overflows, and held at `source_in` if even that fails).
    pub fn identity(duration: Rational, source_in: Rational) -> (r: Retime)
        ensures
            r.boundaries@ == single_boundaries(duration, source_in, identity_end(source_in, duration)),
            r.segments@ == seq![
                RetimeSegment::Rate(
                    RateSegment { v0: Rational::spec_one(), v1: Rational::spec_one(), ease: Ease::Linear },
                ),
            ],
            !r.allow_reverse,
            r.interpolation == Interpolation::Nearest,
    {
        let s_end = match add_with_flick_fallback(source_in, duration) {
            Ok(v) => v,
            Err(_) => source_in,
        };
        let r = Retime {
            boundaries: vec![Boundary::new(Rational::zero(), source_in), Boundary::new(duration, s_end)],
            segments: vec![RetimeSegment::Rate(RateSegment::new(Rational::one(), Rational::one(), Ease::Linear))],
            allow_reverse: false,
            interpolation: Interpolation::Nearest,
        };
        assert(r.boundaries@ =~= single_boundaries(duration, source_in, s_end));
        r
    }

    /// A single ramping segment over `[0, duration]`: speed eases from `v0`
    /// to `v1` along `ease`, the end source position filled in exactly from
    /// the rate (left at `source_in` if the store is unusable, e.g. a
    /// non-positive duration). The reverse gate opens when either speed is
    /// below zero.
    pub fn single_ramp(duration: Rational, source_in: Rational, v0: Rational, v1: Rational, ease: Ease) -> (r: Retime)
        ensures
            r.boundaries@ == recompute_spec(
                single_boundaries(duration, source_in, source_in),
                seq![RetimeSegment::Rate(RateSegment { v0, v1, ease })],
                v0.n() < 0 || v1.n() < 0,
            ).0,
            r.segments@ == seq![RetimeSegment::Rate(RateSegment { v0, v1, ease })],
            r.allow_reverse == (v0.n() < 0 || v1.n() < 0),
            r.interpolation == Interpolation::Nearest,
    {
        let allow = v0.is_negative() || v1.is_negative();
        let mut r = Retime {
            boundaries: vec![Boundary::new(Rational::zero(), source_in), Boundary::new(duration, source_in)],
            segments: vec![RetimeSegment::Rate(RateSegment::new(v0, v1, ease))],
            allow_reverse: allow,
            interpolation: Interpolation::Nearest,
        };
        assert(r.boundaries@ =~= single_boundaries(duration, source_in, source_in));
        assert(r.segments@ =~= seq![RetimeSegment::Rate(RateSegment { v0, v1, ease })]);
        let _ = r.recompute_boundaries();
        r
    }

    /// A single constant-speed store over `[0, duration]`: the source runs
    /// from `source_in` at `speed`. Exactly `single_ramp` with both speeds equal
    /// and the Linear ease.
    pub fn constant_speed(duration: Rational, source_in: Rational, speed: Rational) -> (r: Retime)
        ensures
            r.boundaries@ == recompute_spec(
                single_boundaries(duration, source_in, source_in),
                seq![RetimeSegment::Rate(RateSegment { v0: speed, v1: speed, ease: Ease::Linear })],
                speed.n() < 0,
            ).0,
            r.segments@ == seq![RetimeSegment::Rate(RateSegment { v0: speed, v1: speed, ease: Ease::Linear })],
            r.allow_reverse == (speed.n() < 0),
            r.interpolation == Interpolation::Nearest,
    {
        Self::single_ramp(duration, source_in, speed, speed, Ease::Linear)
    }

    /// A store whose speed is piecewise-linear through `keys` (local time →
    /// speed): each consecutive pair becomes a Linear Rate segment and the
    /// boundary source positions are integrated exactly from `source_in`.
    /// None unless there are at least two keys, the first at local time zero,
    /// with strictly increasing times — or when the integration overflows.
    pub fn from_speed_keyframes(source_in: Rational, keys: &[(Rational, Rational)]) -> (r: Option<Retime>)
        ensures
            speed_keys_outcome(source_in, keys@, r),
    {
        if keys.len() < 2 {
            return None;
        }
        if keys[0].0 != Rational::zero() {
            return None;
        }
        let n = keys.len();
        for i in 0..n - 1
            invariant
                n == keys@.len(),
                n >= 2,
                keys@[0].0 == Rational::spec_zero(),
                forall|k: int| 0 <= k < i ==> #[trigger] keys@[k].0.spec_lt(keys@[k + 1].0),
        {
            if keys[i + 1].0.le(&keys[i].0) {
                assert(!keys@[i as int].0.spec_lt(keys@[i + 1].0));
                return None;
            }
        }
        let mut boundaries: Vec<Boundary> = Vec::new();
        let mut segments: Vec<RetimeSegment> = Vec::new();
        let mut neg = false;
        for i in 0..n
            invariant
                n == keys@.len(),
                n >= 2,
                boundaries@ == speed_key_boundaries(source_in, keys@).subrange(0, i as int),
                segments@ == speed_key_segments(keys@).subrange(0, if i == 0 { 0 } else { i - 1 }),
                neg == (exists|k: int| 0 <= k < i && #[trigger] keys@[k].1.n() < 0),
        {
            boundaries.push(Boundary::new(keys[i].0, source_in));
            if i > 0 {
                segments.push(RetimeSegment::Rate(RateSegment::new(keys[i - 1].1, keys[i].1, Ease::Linear)));
            }
            if keys[i].1.is_negative() {
                neg = true;
            }
            assert(boundaries@ =~= speed_key_boundaries(source_in, keys@).subrange(0, i + 1));
            assert(segments@ =~= speed_key_segments(keys@).subrange(0, i as int));
        }
        assert(boundaries@ =~= speed_key_boundaries(source_in, keys@));
        assert(segments@ =~= speed_key_segments(keys@));
        assert(neg == any_negative_speed(keys@));
        assert(keys_ok(keys@));
        let mut r = Retime { boundaries, segments, allow_reverse: neg, interpolation: Interpolation::Nearest };
        let ghost b0 = r.boundaries@;
        let ghost s0 = r.segments@;
        let res = r.recompute_boundaries();
        assert((r.boundaries@, res) == recompute_spec(b0, s0, r.allow_reverse));
        match res {
            Ok(u) => {
                assert(u == ());
                Some(r)
            },
            Err(_) => None,
        }
    }

    /// A store whose source time is piecewise-linear through value keys
    /// `keys` (local time → source time): each span becomes a constant-speed
    /// Linear Rate segment at Δsource / Δlocal, so recomputation reproduces
    /// every key exactly. None unless there are at least two keys, the first
    /// at local time zero, with strictly increasing times, and every span's
    /// speed is representable.
    pub fn from_value_keyframes(keys: &[(Rational, Rational)]) -> (r: Option<Retime>)
        ensures
            match r {
                None => !keys_ok(keys@) || !value_rates_ok(keys@) || recompute_spec(
                    value_key_boundaries(keys@),
                    value_key_segments(keys@),
                    any_negative_value_rate(keys@),
                ).1 is Err,
                Some(x) => {
                    &&& keys_ok(keys@)
                    &&& value_rates_ok(keys@)
                    &&& recompute_spec(
                        value_key_boundaries(keys@),
                        value_key_segments(keys@),
                        any_negative_value_rate(keys@),
                    ) == (x.boundaries@, Ok::<(), RetimeError>(()))
                    &&& x.segments@ == value_key_segments(keys@)
                    &&& x.allow_reverse == any_negative_value_rate(keys@)
                    &&& x.interpolation == Interpolation::Nearest
                },
            },
    {
        if keys.len() < 2 {
            return None;
        }
        if keys[0].0 != Rational::zero() {
            return None;
        }
        let n = keys.len();
        for i in 0..n - 1
            invariant
                n == keys@.len(),
                n >= 2,
                keys@[0].0 == Rational::spec_zero(),
                forall|k: int| 0 <= k < i ==> #[trigger] keys@[k].0.spec_lt(keys@[k + 1].0),
        {
            if keys[i + 1].0.le(&keys[i].0) {
                assert(!keys@[i as int].0.spec_lt(keys@[i + 1].0));
                return None;
            }
        }
        let mut boundaries: Vec<Boundary> = Vec::new();
        for i in 0..n
            invariant
                n == keys@.len(),
                boundaries@ == value_key_boundaries(keys@).subrange(0, i as int),
        {
            boundaries.push(Boundary::new(keys[i].0, keys[i].1));
            assert(boundaries@ =~= value_key_boundaries(keys@).subrange(0, i + 1));
        }
        let mut segments: Vec<RetimeSegment> = Vec::new();
        let mut any_reverse = false;
        for i in 0..n - 1
            invariant
                n == keys@.len(),
                n >= 2,
                keys_ok(keys@),
                segments@ == value_key_segments(keys@).subrange(0, i as int),
                forall|k: int| 0 <= k < i ==> (#[trigger] value_rate_spec(keys@, k)) is Ok,
                any_reverse == (exists|k: int| 0 <= k < i && #[trigger] ok_or_zero(value_rate_spec(keys@, k)).n() < 0),
        {
            let dt = match keys[i + 1].0.checked_sub(keys[i].0) {
                Ok(x) => x,
                Err(_) => {
                    assert(value_rate_spec(keys@, i as int) is Err);
                    return None;
                },
            };
            let ds = match keys[i + 1].1.checked_sub(keys[i].1) {
                Ok(x) => x,
                Err(_) => {
                    assert(value_rate_spec(keys@, i as int) is Err);
                    return None;
                },
            };
            let v = match ds.checked_div(dt) {
                Ok(x) => x,
                Err(_) => {
                    assert(value_rate_spec(keys@, i as int) is Err);
                    return None;
                },
            };
            assert(value_rate_spec(keys@, i as int) == Ok::<Rational, TimeError>(v));
            assert(ok_or_zero(value_rate_spec(keys@, i as int)) == v);
            let ghost before = any_reverse;
            if v.is_negative() {
                any_reverse = true;
            }
            assert(any_reverse == (exists|k: int| 0 <= k < i + 1 && #[trigger] ok_or_zero(value_rate_spec(keys@, k)).n() < 0)) by {
                if v.n() < 0 {
                    assert(ok_or_zero(value_rate_spec(keys@, i as int)).n() < 0);
                } else {
                    if exists|k: int| 0 <= k < i + 1 && #[trigger] ok_or_zero(value_rate_spec(keys@, k)).n() < 0 {
                        let k = choose|k: int| 0 <= k < i + 1 && #[trigger] ok_or_zero(value_rate_spec(keys@, k)).n() < 0;
                        assert(k != i);
                        assert(before);
                    }
                }
            }
            segments.push(RetimeSegment::Rate(RateSegment::new(v, v, Ease::Linear)));
            assert(segments@ =~= value_key_segments(keys@).subrange(0, i + 1));
        }
        assert(boundaries@ =~= value_key_boundaries(keys@));
        assert(segments@ =~= value_key_segments(keys@));
        assert(any_reverse == any_negative_value_rate(keys@));
        assert(keys_ok(keys@));
        assert(value_rates_ok(keys@));
        let mut r = Retime { boundaries, segments, allow_reverse: any_reverse, interpolation: Interpolation::Nearest };
        let ghost b0 = r.boundaries@;
        let ghost s0 = r.segments@;
        let res = r.recompute_boundaries();
        assert((r.boundaries@, res) == recompute_spec(b0, s0, r.allow_reverse));
        match res {
            Ok(u) => {
                assert(u == ());
                Some(r)
            },
            Err(_) => None,
        }
    }

    /// Whether reading the speed keyframes stays within the boundary list:
    /// every boundary the reader visits exists.
    pub fn speed_keys_readable(&self) -> (r: bool)
        ensures
            r == speed_keys_safe(self.boundaries@, self.segments@),
    {
        let n = self.segments.len();
        let nb = self.boundaries.len();
        let mut i: usize = 0;
        while i < n
            invariant
                n == self.segments@.len(),
                nb == self.boundaries@.len(),
                i <= n,
                linear_prefix(self.segments@, i - 1),
                forall|k: int|
                    0 <= k < i && #[trigger] linear_prefix(self.segments@, k) ==> k < nb && (k + 1 == n ==> k + 1 < nb),
            decreases n - i,
        {
            let linear = match self.segments[i] {
                RetimeSegment::Rate(rs) => rs.ease == Ease::Linear,
                RetimeSegment::Cubic(_) => false,
            };
            if !linear {
                assert(!is_linear_rate(self.segments@[i as int]));
                assert forall|k: int|
                    0 <= k < n && #[trigger] linear_prefix(self.segments@, k) implies k < nb && (k + 1 == n ==> k + 1
                        < nb) by {
                    if k >= i {
                        assert(!is_linear_rate(self.segments@[i as int]));
                    }
                }
                return true;
            }
            assert(linear_prefix(self.segments@, i as int));
            if i >= nb || (i + 1 == n && i + 1 >= nb) {
                return false;
            }
            i = i + 1;
        }
        true
    }

    /// The speed keyframes (local time → speed) that reproduce this store,
    /// when every segment is a Linear Rate segment; None otherwise.
    pub fn speed_keyframes(&self) -> (r: Option<Vec<(Rational, Rational)>>)
        requires
            speed_keys_safe(self.boundaries@, self.segments@),
        ensures
            match r {
                None => speed_keys_spec(self.boundaries@, self.segments@) is None,
                Some(v) => speed_keys_spec(self.boundaries@, self.segments@) == Some(v@),
            },
    {
        let n = self.segments.len();
        let mut out: Vec<(Rational, Rational)> = Vec::new();
        for i in 0..n
            invariant
                n == self.segments@.len(),
                speed_keys_safe(self.boundaries@, self.segments@),
                linear_prefix(self.segments@, i - 1),
                out@ == Seq::new(i as nat, |k: int| (self.boundaries@[k].t, rate_of(self.segments@[k]).v0)),
        {
            let seg = self.segments[i];
            match seg {
                RetimeSegment::Rate(rs) => {
                    if rs.ease != Ease::Linear {
                        assert(!is_linear_rate(self.segments@[i as int]));
                        return None;
                    }
                    assert(linear_prefix(self.segments@, i as int));
                    out.push((self.boundaries[i].t, rs.v0));
                },
                RetimeSegment::Cubic(_) => {
                    assert(!is_linear_rate(self.segments@[i as int]));
                    return None;
                },
            }
            assert(out@ =~= Seq::new((i + 1) as nat, |k: int| (self.boundaries@[k].t, rate_of(self.segments@[k]).v0)));
        }
        assert(forall|k: int| 0 <= k < n ==> #[trigger] is_linear_rate(self.segments@[k])) by {
            assert forall|k: int| 0 <= k < n implies #[trigger] is_linear_rate(self.segments@[k]) by {
                assert(linear_prefix(self.segments@, n - 1));
            }
        }
        if n > 0 {
            assert(linear_prefix(self.segments@, n - 1));
            assert(is_linear_rate(self.segments@[n - 1]));
            let last = self.segments[n - 1];
            if let RetimeSegment::Rate(rs) = last {
                let ghost prev = out@;
                out.push((self.boundaries[n].t, rs.v1));
                assert(out@ == prev.push((self.boundaries@[n as int].t, rate_of(self.segments@[n - 1]).v1)));
            }
            assert(out@ =~= speed_keys_spec(self.boundaries@, self.segments@)->Some_0);
        } else {
            assert(out@ =~= speed_keys_spec(self.boundaries@, self.segments@)->Some_0);
        }
        Some(out)
    }

    /// The value keyframes (local time → source time): each boundary's exact
    /// `(t, s)`. Available for every store.
    pub fn value_keyframes(&self) -> (r: Vec<(Rational, Rational)>)
        ensures
            r@ == Seq::new(self.boundaries@.len(), |i: int| (self.boundaries@[i].t, self.boundaries@[i].s)),
    {
        let mut out: Vec<(Rational, Rational)> = Vec::new();
        for i in 0..self.boundaries.len()
            invariant
                out@ == Seq::new(i as nat, |k: int| (self.boundaries@[k].t, self.boundaries@[k].s)),
        {
            out.push((self.boundaries[i].t, self.boundaries[i].s));
            assert(out@ =~= Seq::new((i + 1) as nat, |k: int| (self.boundaries@[k].t, self.boundaries@[k].s)));
        }
        out
    }

    /// The index of the segment covering local time `t`, or None outside the
    /// domain `[0, D]`; `t == D` resolves to the final segment.
    pub fn segment_index_at(&self, t: Rational) -> (r: Option<usize>)
        requires
            index_safe(self.boundaries@, self.segments@, t),
        ensures
            match r {
                None => segment_index_spec(self.boundaries@, self.segments@, t) is None,
                Some(i) => segment_index_spec(self.boundaries@, self.segments@, t) == Some(i as int),
            },
            r matches Some(i) ==> i < self.segments@.len(),
            self.boundaries@.len() == self.segments@.len() + 1 && in_domain(self.boundaries@, self.segments@, t) ==> (
            r matches Some(i) && !t.spec_lt(self.boundaries@[i as int].t) && !self.boundaries@[i + 1].t.spec_lt(t) && (
            t.spec_lt(self.boundaries@[i + 1].t) || i + 1 == self.segments@.len())),
    {
        proof {
            lemma_segment_index_covers(self.boundaries@, self.segments@, t);
        }
        if self.boundaries.len() == 0 {
            return None;
        }
        let last = self.boundaries[self.boundaries.len() - 1];
        if self.segments.len() == 0 || t.lt(&self.boundaries[0].t) || last.t.lt(&t) {
            return None;
        }
        let n = self.segments.len();
        proof {
            let m = self.boundaries@.len() as int;
            if m <= n {
                assert(t.spec_lt(self.boundaries@[m - 1].t));
                assert(m - 1 > 0);
            }
        }
        for i in 0..n
            invariant
                n == self.segments@.len(),
                n > 0,
                self.boundaries@.len() > n || exists|k: int|
                    i < k < self.boundaries@.len() && t.spec_lt(#[trigger] self.boundaries@[k].t),
                in_domain(self.boundaries@, self.segments@, t),
                first_after(self.boundaries@, t, i as int, n as int) == first_after(self.boundaries@, t, 0, n as int),
        {
            if t.lt(&self.boundaries[i + 1].t) {
                proof {
                    lemma_segment_index_covers(self.boundaries@, self.segments@, t);
                }
                return Some(i);
            }
        }
        Some(n - 1)
    }

    /// A copy with the ease of the Rate segment covering `t` set to `ease`,
    /// downstream source positions recomputed. None outside the domain, on a
    /// Cubic segment, or when recomputation fails.
    pub fn with_segment_ease(&self, t: Rational, ease: Ease) -> (r: Option<Retime>)
        requires
            index_safe(self.boundaries@, self.segments@, t),
        ensures
            match r {
                None => match segment_index_spec(self.boundaries@, self.segments@, t) {
                    None => true,
                    Some(i) => !(self.segments@[i] is Rate) || recompute_spec(
                        self.boundaries@,
                        self.segments@.update(i, RetimeSegment::Rate(RateSegment { ease, ..rate_of(self.segments@[i]) })),
                        self.allow_reverse,
                    ).1 is Err,
                },
                Some(x) => segment_index_spec(self.boundaries@, self.segments@, t) matches Some(i) && {
                    &&& self.segments@[i] is Rate
                    &&& x.segments@ == self.segments@.update(i, RetimeSegment::Rate(RateSegment { ease, ..rate_of(self.segments@[i]) }))
                    &&& recompute_spec(self.boundaries@, x.segments@, self.allow_reverse) == (x.boundaries@, Ok::<(), RetimeError>(()))
                    &&& x.allow_reverse == self.allow_reverse
                    &&& x.interpolation == self.interpolation
                },
            },
    {
        let i = match self.segment_index_at(t) {
            Some(i) => i,
            None => return None,
        };
        let mut r = self.clone();
        match r.segments[i] {
            RetimeSegment::Rate(seg) => {
                let mut s2 = seg;
                s2.ease = ease;
                r.segments.set(i, RetimeSegment::Rate(s2));
                assert(s2 == RateSegment { ease, ..rate_of(self.segments@[i as int]) });
            },
            RetimeSegment::Cubic(_) => return None,
        }
        let ghost b0 = r.boundaries@;
        let ghost s0 = r.segments@;
        let res = r.recompute_boundaries();
        assert((r.boundaries@, res) == recompute_spec(b0, s0, r.allow_reverse));
        match res {
            Ok(u) => {
                assert(u == ());
                Some(r)
            },
            Err(_) => None,
        }
    }

    /// A copy with the endpoint speeds of the Rate segment covering `t` set
    /// to `(v0, v1)`, downstream source positions recomputed. None outside the
    /// domain, on a Cubic segment, or when recomputation fails.
    pub fn with_segment_speeds(&self, t: Rational, v0: Rational, v1: Rational) -> (r: Option<Retime>)
        requires
            index_safe(self.boundaries@, self.segments@, t),
        ensures
            match r {
                None => match segment_index_spec(self.boundaries@, self.segments@, t) {
                    None => true,
                    Some(i) => !(self.segments@[i] is Rate) || recompute_spec(
                        self.boundaries@,
                        self.segments@.update(i, RetimeSegment::Rate(RateSegment { v0, v1, ..rate_of(self.segments@[i]) })),
                        self.allow_reverse,
                    ).1 is Err,
                },
                Some(x) => segment_index_spec(self.boundaries@, self.segments@, t) matches Some(i) && {
                    &&& self.segments@[i] is Rate
                    &&& x.segments@ == self.segments@.update(i, RetimeSegment::Rate(RateSegment { v0, v1, ..rate_of(self.segments@[i]) }))
                    &&& recompute_spec(self.boundaries@, x.segments@, self.allow_reverse) == (x.boundaries@, Ok::<(), RetimeError>(()))
                    &&& x.allow_reverse == self.allow_reverse
                    &&& x.interpolation == self.interpolation
                },
            },
    {
        let i = match self.segment_index_at(t) {
            Some(i) => i,
            None => return None,
        };
        let mut r = self.clone();
        match r.segments[i] {
            RetimeSegment::Rate(seg) => {
                let mut s2 = seg;
                s2.v0 = v0;
                s2.v1 = v1;
                r.segments.set(i, RetimeSegment::Rate(s2));
                assert(s2 == RateSegment { v0, v1, ..rate_of(self.segments@[i as int]) });
            },
            RetimeSegment::Cubic(_) => return None,
        }
        let ghost b0 = r.boundaries@;
        let ghost s0 = r.segments@;
        let res = r.recompute_boundaries();
        assert((r.boundaries@, res) == recompute_spec(b0, s0, r.allow_reverse));
        match res {
            Ok(u) => {
                assert(u == ());
                Some(r)
            },
            Err(_) => None,
        }
    }

    /// This store with every source position shifted by `delta` (the slip
    /// edit): local times, segments and settings untouched. None when a
    /// shifted position does not fit.
    pub fn shift_source(&self, delta: Rational) -> (r: Option<Retime>)
        ensures
            match r {
                None => shift_spec(self.boundaries@, delta) is None,
                Some(x) => {
                    &&& shift_spec(self.boundaries@, delta) == Some(x.boundaries@)
                    &&& x.segments@ == self.segments@
                    &&& x.allow_reverse == self.allow_reverse
                    &&& x.interpolation == self.interpolation
                },
            },
    {
        let mut r = self.clone();
        let n = r.boundaries.len();
        for i in 0..n
            invariant
                n == r.boundaries@.len(),
                n == self.boundaries@.len(),
                r.segments@ == self.segments@,
                r.allow_reverse == self.allow_reverse,
                r.interpolation == self.interpolation,
                forall|k: int| 0 <= k < i ==> (#[trigger] self.boundaries@[k].s.spec_add(delta)) is Ok,
                forall|k: int| 0 <= k < i ==> #[trigger] r.boundaries@[k] == (Boundary { s: ok_or_zero(self.boundaries@[k].s.spec_add(delta)), ..self.boundaries@[k] }),
                forall|k: int| i <= k < n ==> #[trigger] r.boundaries@[k] == self.boundaries@[k],
        {
            let mut b = r.boundaries[i];
            match b.s.checked_add(delta) {
                Ok(v) => {
                    b.s = v;
                },
                Err(_) => {
                    assert(!(self.boundaries@[i as int].s.spec_add(delta) is Ok));
                    return None;
                },
            }
            r.boundaries.set(i, b);
        }
        assert(r.boundaries@ =~= shift_spec(self.boundaries@, delta)->Some_0);
        Some(r)
    }
}

impl Retime {
    /// Delete interior boundary `j` (1 ≤ j ≤ n − 1), merging its two
    /// neighbouring segments into one spanning the outer boundaries. The
    /// merged segment is a Cubic segment carrying the outer one-sided speeds
    /// and influences, unless both neighbours are Linear Rates whose single
    /// Linear Rate reproduces the outer source advance exactly, in which case it
    /// stays a Linear Rate. None when `j` is not interior or recomputation fails.
    pub fn merge_boundary(&self, j: usize) -> (r: Option<Retime>)
        requires
            j == 0 || j + 1 >= self.boundaries@.len() || j < self.segments@.len(),
        ensures
            match r {
                None => j == 0 || j + 1 >= self.boundaries@.len() || match merge_stays_rate(self.boundaries@, self.segments@, j as int) {
                    None => true,
                    Some(stay) => recompute_spec(
                        self.boundaries@.remove(j as int),
                        self.segments@.remove(j as int).update(j - 1, merged_segment(self.segments@, j as int, stay)),
                        self.allow_reverse,
                    ).1 is Err,
                },
                Some(x) => {
                    &&& 0 < j && j + 1 < self.boundaries@.len()
                    &&& merge_stays_rate(self.boundaries@, self.segments@, j as int) matches Some(stay)
                    &&& x.segments@ == self.segments@.remove(j as int).update(j - 1, merged_segment(self.segments@, j as int, stay))
                    &&& recompute_spec(self.boundaries@.remove(j as int), x.segments@, self.allow_reverse)
                        == (x.boundaries@, Ok::<(), RetimeError>(()))
                    &&& x.allow_reverse == self.allow_reverse
                    &&& x.interpolation == self.interpolation
                },
            },
    {
        if j == 0 || self.boundaries.len() == 0 || j >= self.boundaries.len() - 1 {
            return None;
        }
        proof {
            lemma_third();
        }
        let third = match Rational::new(1, 3) {
            Ok(x) => x,
            Err(_) => return None,
        };
        let left = self.segments[j - 1];
        let right = self.segments[j];
        let lo = self.boundaries[j - 1];
        let hi = self.boundaries[j + 1];
        let (m0, b0) = match left {
            RetimeSegment::Rate(s) => (s.v0, third),
            RetimeSegment::Cubic(s) => (s.m0, s.b0),
        };
        let (m1, b1) = match right {
            RetimeSegment::Rate(s) => (s.v1, third),
            RetimeSegment::Cubic(s) => (s.m1, s.b1),
        };
        let stays_rate = match (left, right) {
            (RetimeSegment::Rate(l), RetimeSegment::Rate(r)) => {
                if l.ease == Ease::Linear && r.ease == Ease::Linear {
                    let d = match hi.t.checked_sub(lo.t) {
                        Ok(x) => x,
                        Err(_) => return None,
                    };
                    let ds = match hi.s.checked_sub(lo.s) {
                        Ok(x) => x,
                        Err(_) => return None,
                    };
                    let adv = match rate_advance(d, l.v0, r.v1, Ease::Linear) {
                        Ok(x) => x,
                        Err(_) => return None,
                    };
                    adv == ds
                } else {
                    false
                }
            },
            _ => false,
        };
        let merged = if stays_rate {
            RetimeSegment::Rate(RateSegment::new(m0, m1, Ease::Linear))
        } else {
            RetimeSegment::Cubic(MapSegment::new(m0, m1, b0, b1))
        };
        assert(merge_stays_rate(self.boundaries@, self.segments@, j as int) == Some(stays_rate));
        assert(merged == merged_segment(self.segments@, j as int, stays_rate));
        let mut boundaries = copy_boundaries(&self.boundaries);
        boundaries.remove(j);
        let mut segments = copy_segments(&self.segments);
        segments.remove(j);
        segments.set(j - 1, merged);
        let mut out = Retime {
            boundaries,
            segments,
            allow_reverse: self.allow_reverse,
            interpolation: self.interpolation,
        };
        let ghost b0s = out.boundaries@;
        let ghost s0s = out.segments@;
        let res = out.recompute_boundaries();
        assert((out.boundaries@, res) == recompute_spec(b0s, s0s, out.allow_reverse));
        match res {
            Ok(u) => {
                assert(u == ());
                Some(out)
            },
            Err(_) => None,
        }
    }
}

/// A copy of `v[lo..hi]`.
fn boundary_range(v: &Vec<Boundary>, lo: usize, hi: usize) -> (r: Vec<Boundary>)
    requires
        lo <= hi <= v@.len(),
    ensures
        r@ == v@.subrange(lo as int, hi as int),
{
    let mut r: Vec<Boundary> = Vec::new();
    for k in lo..hi
        invariant
            hi <= v@.len(),
            r@ == v@.subrange(lo as int, k as int),
    {
        r.push(v[k]);
    }
    r
}

/// A copy of `v[lo..hi]`.
fn segment_range(v: &Vec<RetimeSegment>, lo: usize, hi: usize) -> (r: Vec<RetimeSegment>)
    requires
        lo <= hi <= v@.len(),
    ensures
        r@ == v@.subrange(lo as int, hi as int),
{
    let mut r: Vec<RetimeSegment> = Vec::new();
    for k in lo..hi
        invariant
            hi <= v@.len(),
            r@ == v@.subrange(lo as int, k as int),
    {
        r.push(v[k]);
    }
    r
}


/// Boundaries `from..` of `v` moved `t` earlier in local time (not smooth),
/// or None when a shifted time does not fit.
fn shifted_boundaries(v: &Vec<Boundary>, from: usize, t: Rational) -> (r: Option<Vec<Boundary>>)
    requires
        from <= v@.len(),
    ensures
        match r {
            None => shifted_from(v@, from as int, t) is None,
            Some(x) => shifted_from(v@, from as int, t) == Some(x@),
        },
{
    let n = v.len();
    let mut out: Vec<Boundary> = Vec::new();
    for k in from..n
        invariant
            n == v@.len(),
            from <= n,
            forall|z: int| from <= z < k ==> (#[trigger] v@[z].t.spec_sub(t)) is Ok,
            out@ == Seq::new(
                (k - from) as nat,
                |z: int| Boundary { t: ok_or_zero(v@[from + z].t.spec_sub(t)), s: v@[from + z].s, smooth: false },
            ),
    {
        let b = v[k];
        let nt = match b.t.checked_sub(t) {
            Ok(x) => x,
            Err(_) => {
                assert(!(v@[k as int].t.spec_sub(t) is Ok));
                return None;
            },
        };
        out.push(Boundary::new(nt, b.s));
        assert(out@ =~= Seq::new(
            (k + 1 - from) as nat,
            |z: int| Boundary { t: ok_or_zero(v@[from + z].t.spec_sub(t)), s: v@[from + z].s, smooth: false },
        ));
    }
    Some(out)
}

/// Boundaries `1..` of `v` moved `by` later in local time (not smooth), if
/// every moved time fits.
pub open spec fn moved_later(v: Seq<Boundary>, by: Rational) -> Option<Seq<Boundary>> {
    if forall|z: int| 1 <= z < v.len() ==> (#[trigger] v[z].t.spec_add(by)) is Ok {
        Some(
            Seq::new(
                (v.len() - 1) as nat,
                |z: int| Boundary { t: ok_or_zero(v[1 + z].t.spec_add(by)), s: v[1 + z].s, smooth: false },
            ),
        )
    } else {
        None
    }
}

/// Boundaries `1..` of `v` moved `by` later in local time (not smooth).
fn moved_boundaries(v: &Vec<Boundary>, by: Rational) -> (r: Option<Vec<Boundary>>)
    requires
        v@.len() >= 1,
    ensures
        match r {
            None => moved_later(v@, by) is None,
            Some(x) => moved_later(v@, by) == Some(x@),
        },
{
    let n = v.len();
    let mut out: Vec<Boundary> = Vec::new();
    for k in 1..n
        invariant
            n == v@.len(),
            forall|z: int| 1 <= z < k ==> (#[trigger] v@[z].t.spec_add(by)) is Ok,
            out@ == Seq::new(
                (k - 1) as nat,
                |z: int| Boundary { t: ok_or_zero(v@[1 + z].t.spec_add(by)), s: v@[1 + z].s, smooth: false },
            ),
    {
        let b = v[k];
        let nt = match b.t.checked_add(by) {
            Ok(x) => x,
            Err(_) => {
                assert(!(v@[k as int].t.spec_add(by) is Ok));
                return None;
            },
        };
        out.push(Boundary::new(nt, b.s));
        assert(out@ =~= Seq::new(
            (k + 1 - 1) as nat,
            |z: int| Boundary { t: ok_or_zero(v@[1 + z].t.spec_add(by)), s: v@[1 + z].s, smooth: false },
        ));
    }
    Some(out)
}

/// Append `src` to `dst`.
fn append_boundaries(dst: &mut Vec<Boundary>, src: &Vec<Boundary>)
    ensures
        final(dst)@ == old(dst)@ + src@,
{
    let ghost head = dst@;
    for k in 0..src.len()
        invariant
            dst@ == head + src@.subrange(0, k as int),
            head == old(dst)@,
    {
        dst.push(src[k]);
        assert(dst@ =~= head + src@.subrange(0, k + 1));
    }
    assert(src@.subrange(0, src@.len() as int) =~= src@);
}

/// Append `src` to `dst`.
fn append_segments(dst: &mut Vec<RetimeSegment>, src: &Vec<RetimeSegment>)
    ensures
        final(dst)@ == old(dst)@ + src@,
{
    let ghost head = dst@;
    for k in 0..src.len()
        invariant
            dst@ == head + src@.subrange(0, k as int),
            head == old(dst)@,
    {
        dst.push(src[k]);
        assert(dst@ =~= head + src@.subrange(0, k + 1));
    }
    assert(src@.subrange(0, src@.len() as int) =~= src@);
}

/// The coefficients of an array as integers.
pub open spec fn arr(c: [i64; 4]) -> Seq<int> {
    seq![c[0] as int, c[1] as int, c[2] as int, c[3] as int]
}

/// `c0 + c1·u + c2·u2 + c3·u3` with exact integer coefficients — the basis
/// evaluation behind the rational cubic-Hermite split.
pub fn hpoly(c: [i64; 4], u: Rational, u2: Rational, u3: Rational) -> (r: Result<Rational, TimeError>)
    ensures
        r == hpoly_spec(arr(c), u, u2, u3),
{
    let a = Rational::new(c[0], 1)?;
    let b = Rational::new(c[1], 1)?;
    let bu = b.checked_mul(u)?;
    let s1 = a.checked_add(bu)?;
    let cc = Rational::new(c[2], 1)?;
    let cu = cc.checked_mul(u2)?;
    let s2 = s1.checked_add(cu)?;
    let dd = Rational::new(c[3], 1)?;
    let du = dd.checked_mul(u3)?;
    s2.checked_add(du)
}

/// `Σ hpoly(c_k)·x_k` over the four Hermite basis terms.
fn hermite_terms(
    c0: [i64; 4],
    c1: [i64; 4],
    c2: [i64; 4],
    c3: [i64; 4],
    x0: Rational,
    x1: Rational,
    x2: Rational,
    x3: Rational,
    u: Rational,
    u2: Rational,
    u3: Rational,
) -> (r: Result<Rational, TimeError>)
    ensures
        r == hermite_sum(seq![arr(c0), arr(c1), arr(c2), arr(c3)], seq![x0, x1, x2, x3], u, u2, u3),
{
    let ghost cs = seq![arr(c0), arr(c1), arr(c2), arr(c3)];
    let ghost xs = seq![x0, x1, x2, x3];
    assert(cs[0] == arr(c0) && cs[1] == arr(c1) && cs[2] == arr(c2) && cs[3] == arr(c3));
    assert(xs[0] == x0 && xs[1] == x1 && xs[2] == x2 && xs[3] == x3);
    let a = hpoly(c0, u, u2, u3)?.checked_mul(x0)?;
    let b = hpoly(c1, u, u2, u3)?.checked_mul(x1)?;
    let ab = a.checked_add(b)?;
    let cc = hpoly(c2, u, u2, u3)?.checked_mul(x2)?;
    let abc = ab.checked_add(cc)?;
    let dd = hpoly(c3, u, u2, u3)?.checked_mul(x3)?;
    abc.checked_add(dd)
}

/// The exact Hermite source position (or speed) at `t` inside a polynomial
/// segment from `lo` to `hi` with end speeds `m0`, `m1`.
fn hermite_value(lo: &Boundary, hi: &Boundary, m0: Rational, m1: Rational, t: Rational, want_speed: bool) -> (r: Result<
    Rational,
    TimeError,
>)
    ensures
        r == hermite_spec(*lo, *hi, m0, m1, t, want_speed),
{
    reveal(hermite_spec);
    let d = hi.t.checked_sub(lo.t)?;
    let x = t.checked_sub(lo.t)?;
    let u = x.checked_div(d)?;
    let u2 = u.checked_mul(u)?;
    let uu = u.checked_mul(u)?;
    let u3 = uu.checked_mul(u)?;
    let dm0 = d.checked_mul(m0)?;
    let dm1 = d.checked_mul(m1)?;
    if want_speed {
        let c0: [i64; 4] = [0, -6, 6, 0];
        let c1: [i64; 4] = [1, -4, 3, 0];
        let c2: [i64; 4] = [0, 6, -6, 0];
        let c3: [i64; 4] = [0, -2, 3, 0];
        assert(arr(c0) =~= seq![0int, -6, 6, 0]);
        assert(arr(c1) =~= seq![1int, -4, 3, 0]);
        assert(arr(c2) =~= seq![0int, 6, -6, 0]);
        assert(arr(c3) =~= seq![0int, -2, 3, 0]);
        assert(vel_basis() =~= seq![arr(c0), arr(c1), arr(c2), arr(c3)]);
        let dydu = hermite_terms(c0, c1, c2, c3, lo.s, dm0, hi.s, dm1, u, u2, u3)?;
        dydu.checked_div(d)
    } else {
        let c0: [i64; 4] = [1, 0, -3, 2];
        let c1: [i64; 4] = [0, 1, -2, 1];
        let c2: [i64; 4] = [0, 0, 3, -2];
        let c3: [i64; 4] = [0, 0, -1, 1];
        assert(arr(c0) =~= seq![1int, 0, -3, 2]);
        assert(arr(c1) =~= seq![0int, 1, -2, 1]);
        assert(arr(c2) =~= seq![0int, 0, 3, -2]);
        assert(arr(c3) =~= seq![0int, 0, -1, 1]);
        assert(pos_basis() =~= seq![arr(c0), arr(c1), arr(c2), arr(c3)]);
        hermite_terms(c0, c1, c2, c3, lo.s, dm0, hi.s, dm1, u, u2, u3)
    }
}

/// The exact source position and speed at local time `t` inside a
/// polynomial (both influences 1/3) segment spanning `lo`..`hi` with end
/// speeds `m0`, `m1` — the cubic Hermite. An error when a value does not fit.
pub fn hermite_at(lo: &Boundary, hi: &Boundary, m0: Rational, m1: Rational, t: Rational) -> (r: Result<
    (Rational, Rational),
    RetimeError,
>)
    ensures
        match r {
            Ok((sv, vv)) => hermite_fb_spec(*lo, *hi, m0, m1, t, false) == Ok::<Rational, TimeError>(sv)
                && hermite_fb_spec(*lo, *hi, m0, m1, t, true) == Ok::<Rational, TimeError>(vv),
            Err(RetimeError::Arithmetic(e)) => hermite_fb_spec(*lo, *hi, m0, m1, t, false) == Err::<Rational, TimeError>(e)
                || (hermite_fb_spec(*lo, *hi, m0, m1, t, false) is Ok && hermite_fb_spec(*lo, *hi, m0, m1, t, true)
                == Err::<Rational, TimeError>(e)),
            Err(_) => false,
        },
{
    let sv = match hermite_or_grid(lo, hi, m0, m1, t, false) {
        Ok(x) => x,
        Err(e) => return Err(RetimeError::Arithmetic(e)),
    };
    let vv = match hermite_or_grid(lo, hi, m0, m1, t, true) {
        Ok(x) => x,
        Err(e) => return Err(RetimeError::Arithmetic(e)),
    };
    Ok((sv, vv))
}

/// The Hermite evaluation exactly, or coarsely on the flick grid when the
/// exact arithmetic overflows.
fn hermite_or_grid(lo: &Boundary, hi: &Boundary, m0: Rational, m1: Rational, t: Rational, want_speed: bool) -> (r: Result<
    Rational,
    TimeError,
>)
    ensures
        r == hermite_fb_spec(*lo, *hi, m0, m1, t, want_speed),
{
    reveal(hermite_fb_spec);
    match hermite_value(lo, hi, m0, m1, t, want_speed) {
        Ok(v) => Ok(v),
        Err(TimeError::Overflow) => coarse_hermite(lo, hi, m0, m1, t, want_speed),
        Err(e) => Err(e),
    }
}

/// The grid-tick value of basis polynomial `c` at `U / F`.
fn basis_count(c: [i64; 4], un: i64) -> (r: Option<i64>)
    requires
        -6 <= c[0] <= 6,
        -6 <= c[1] <= 6,
        -6 <= c[2] <= 6,
        -6 <= c[3] <= 6,
        -FLICK_DEN <= un <= FLICK_DEN,
    ensures
        match r {
            Some(h) => h as int == basis_units(arr(c), un as int),
            None => !fits_i64(basis_units(arr(c), un as int)),
        },
{
    let f: i128 = 705_600_000;
    let u: i128 = un as i128;
    proof {
        assert(-FLICK_DEN * FLICK_DEN <= u * u <= FLICK_DEN * FLICK_DEN) by (nonlinear_arith)
            requires
                -FLICK_DEN <= u <= FLICK_DEN,
        ;
        assert(-(FLICK_DEN * FLICK_DEN * FLICK_DEN) <= u * u * u <= FLICK_DEN * FLICK_DEN * FLICK_DEN) by (nonlinear_arith)
            requires
                -FLICK_DEN <= u <= FLICK_DEN,
        ;
        assert(-6 * (FLICK_DEN * FLICK_DEN * FLICK_DEN) <= (c[0] as int) * (FLICK_DEN * FLICK_DEN * FLICK_DEN) <= 6 * (
        FLICK_DEN * FLICK_DEN * FLICK_DEN)) by (nonlinear_arith)
            requires
                -6 <= c[0] <= 6,
        ;
        assert(-6 * (FLICK_DEN * FLICK_DEN * FLICK_DEN) <= (c[1] as int) * u * (FLICK_DEN * FLICK_DEN) <= 6 * (
        FLICK_DEN * FLICK_DEN * FLICK_DEN)) by (nonlinear_arith)
            requires
                -6 <= c[1] <= 6,
                -FLICK_DEN <= u <= FLICK_DEN,
        ;
        assert(-6 * (FLICK_DEN * FLICK_DEN * FLICK_DEN) <= (c[2] as int) * u * u * FLICK_DEN <= 6 * (FLICK_DEN
            * FLICK_DEN * FLICK_DEN)) by (nonlinear_arith)
            requires
                -6 <= c[2] <= 6,
                -FLICK_DEN * FLICK_DEN <= u * u <= FLICK_DEN * FLICK_DEN,
        ;
        assert(-6 * (FLICK_DEN * FLICK_DEN * FLICK_DEN) <= (c[3] as int) * u * u * u <= 6 * (FLICK_DEN * FLICK_DEN
            * FLICK_DEN)) by (nonlinear_arith)
            requires
                -6 <= c[3] <= 6,
                -(FLICK_DEN * FLICK_DEN * FLICK_DEN) <= u * u * u <= FLICK_DEN * FLICK_DEN * FLICK_DEN,
        ;
    }
    let ff: i128 = f * f;
    let f3: i128 = ff * f;
    let uf2: i128 = u * ff;
    let uu: i128 = u * u;
    let u2f: i128 = uu * f;
    let u3: i128 = uu * u;
    proof {
        assert(-(FLICK_DEN * FLICK_DEN * FLICK_DEN) <= uf2 <= FLICK_DEN * FLICK_DEN * FLICK_DEN) by (nonlinear_arith)
            requires
                uf2 == u * (FLICK_DEN * FLICK_DEN),
                -FLICK_DEN <= u <= FLICK_DEN,
        ;
        assert(-(FLICK_DEN * FLICK_DEN * FLICK_DEN) <= u2f <= FLICK_DEN * FLICK_DEN * FLICK_DEN) by (nonlinear_arith)
            requires
                u2f == uu * FLICK_DEN,
                -FLICK_DEN * FLICK_DEN <= uu <= FLICK_DEN * FLICK_DEN,
        ;
        assert(-6 * (FLICK_DEN * FLICK_DEN * FLICK_DEN) <= (c[1] as int) * uf2 <= 6 * (FLICK_DEN * FLICK_DEN * FLICK_DEN))
            by (nonlinear_arith)
            requires
                -6 <= c[1] <= 6,
                -(FLICK_DEN * FLICK_DEN * FLICK_DEN) <= uf2 <= FLICK_DEN * FLICK_DEN * FLICK_DEN,
        ;
        assert(-6 * (FLICK_DEN * FLICK_DEN * FLICK_DEN) <= (c[2] as int) * u2f <= 6 * (FLICK_DEN * FLICK_DEN * FLICK_DEN))
            by (nonlinear_arith)
            requires
                -6 <= c[2] <= 6,
                -(FLICK_DEN * FLICK_DEN * FLICK_DEN) <= u2f <= FLICK_DEN * FLICK_DEN * FLICK_DEN,
        ;
        assert(-6 * (FLICK_DEN * FLICK_DEN * FLICK_DEN) <= (c[3] as int) * u3 <= 6 * (FLICK_DEN * FLICK_DEN * FLICK_DEN))
            by (nonlinear_arith)
            requires
                -6 <= c[3] <= 6,
                -(FLICK_DEN * FLICK_DEN * FLICK_DEN) <= u3 <= FLICK_DEN * FLICK_DEN * FLICK_DEN,
        ;
        assert((c[1] as int) * uf2 == (c[1] as int) * u * (FLICK_DEN * FLICK_DEN)) by (nonlinear_arith)
            requires
                uf2 == u * (FLICK_DEN * FLICK_DEN),
        ;
        assert((c[2] as int) * u2f == (c[2] as int) * u * u * FLICK_DEN) by (nonlinear_arith)
            requires
                u2f == uu * FLICK_DEN,
                uu == u * u,
        ;
        assert((c[3] as int) * u3 == (c[3] as int) * u * u * u) by (nonlinear_arith)
            requires
                u3 == uu * u,
                uu == u * u,
        ;
    }
    let p: i128 = (c[0] as i128) * f3 + (c[1] as i128) * uf2 + (c[2] as i128) * u2f + (c[3] as i128) * u3;
    grid_count(p, f3)
}

/// The coarse Hermite evaluation on the flick grid (see
/// `coarse_hermite_spec`).
fn coarse_hermite(lo: &Boundary, hi: &Boundary, m0: Rational, m1: Rational, t: Rational, want_speed: bool) -> (r: Result<
    Rational,
    TimeError,
>)
    ensures
        r == coarse_hermite_spec(*lo, *hi, m0, m1, t, want_speed),
{
    reveal(coarse_hermite_spec);
    let d = match hi.t.checked_sub(lo.t) {
        Ok(v) => v,
        Err(e) => return Err(e),
    };
    let x = match t.checked_sub(lo.t) {
        Ok(v) => v,
        Err(e) => return Err(e),
    };
    if d.num() <= 0 {
        return Err(TimeError::Overflow);
    }
    proof {
        use_type_invariant(&d);
        use_type_invariant(&x);
        use_type_invariant(&m0);
        use_type_invariant(&m1);
        use_type_invariant(&lo.s);
        use_type_invariant(&hi.s);
        lemma_prod_bound(x.n(), d.d());
        lemma_prod_bound(x.d(), d.n());
        lemma_prod_bound(d.n(), m0.n());
        lemma_prod_bound(d.d(), m0.d());
        lemma_prod_bound(d.n(), m1.n());
        lemma_prod_bound(d.d(), m1.d());
        assert(x.d() * d.n() > 0 && d.d() * m0.d() > 0 && d.d() * m1.d() > 0) by (nonlinear_arith)
            requires
                x.d() > 0,
                d.n() > 0,
                d.d() > 0,
                m0.d() > 0,
                m1.d() > 0,
        ;
    }
    let un = match grid_count((x.num() as i128) * (d.den() as i128), (x.den() as i128) * (d.num() as i128)) {
        Some(u) => u,
        None => return Err(TimeError::Overflow),
    };
    if un < -705_600_000 || un > 705_600_000 {
        return Err(TimeError::Overflow);
    }
    let x0 = match grid_count(lo.s.num() as i128, lo.s.den() as i128) {
        Some(u) => u,
        None => return Err(TimeError::Overflow),
    };
    let x1 = match grid_count((d.num() as i128) * (m0.num() as i128), (d.den() as i128) * (m0.den() as i128)) {
        Some(u) => u,
        None => return Err(TimeError::Overflow),
    };
    let x2 = match grid_count(hi.s.num() as i128, hi.s.den() as i128) {
        Some(u) => u,
        None => return Err(TimeError::Overflow),
    };
    let x3 = match grid_count((d.num() as i128) * (m1.num() as i128), (d.den() as i128) * (m1.den() as i128)) {
        Some(u) => u,
        None => return Err(TimeError::Overflow),
    };
    let (c0, c1, c2, c3): ([i64; 4], [i64; 4], [i64; 4], [i64; 4]) = if want_speed {
        ([0, -6, 6, 0], [1, -4, 3, 0], [0, 6, -6, 0], [0, -2, 3, 0])
    } else {
        ([1, 0, -3, 2], [0, 1, -2, 1], [0, 0, 3, -2], [0, 0, -1, 1])
    };
    let ghost cs = if want_speed { vel_basis() } else { pos_basis() };
    assert(cs =~= seq![arr(c0), arr(c1), arr(c2), arr(c3)]);
    let h0 = match basis_count(c0, un) {
        Some(h) => h,
        None => return Err(TimeError::Overflow),
    };
    if h0 < -0x100_0000_0000 || h0 > 0x100_0000_0000 {
        return Err(TimeError::Overflow);
    }
    let h1 = match basis_count(c1, un) {
        Some(h) => h,
        None => return Err(TimeError::Overflow),
    };
    if h1 < -0x100_0000_0000 || h1 > 0x100_0000_0000 {
        return Err(TimeError::Overflow);
    }
    let h2 = match basis_count(c2, un) {
        Some(h) => h,
        None => return Err(TimeError::Overflow),
    };
    if h2 < -0x100_0000_0000 || h2 > 0x100_0000_0000 {
        return Err(TimeError::Overflow);
    }
    let h3 = match basis_count(c3, un) {
        Some(h) => h,
        None => return Err(TimeError::Overflow),
    };
    if h3 < -0x100_0000_0000 || h3 > 0x100_0000_0000 {
        return Err(TimeError::Overflow);
    }
    proof {
        assert(-0x80_0000_0000_0000_0000_0000_0000 <= (h0 as int) * (x0 as int) <= 0x80_0000_0000_0000_0000_0000_0000) by (nonlinear_arith)
            requires -0x100_0000_0000 <= h0 <= 0x100_0000_0000, -0x8000_0000_0000_0000 <= x0 <= 0x8000_0000_0000_0000;
        assert(-0x80_0000_0000_0000_0000_0000_0000 <= (h1 as int) * (x1 as int) <= 0x80_0000_0000_0000_0000_0000_0000) by (nonlinear_arith)
            requires -0x100_0000_0000 <= h1 <= 0x100_0000_0000, -0x8000_0000_0000_0000 <= x1 <= 0x8000_0000_0000_0000;
        assert(-0x80_0000_0000_0000_0000_0000_0000 <= (h2 as int) * (x2 as int) <= 0x80_0000_0000_0000_0000_0000_0000) by (nonlinear_arith)
            requires -0x100_0000_0000 <= h2 <= 0x100_0000_0000, -0x8000_0000_0000_0000 <= x2 <= 0x8000_0000_0000_0000;
        assert(-0x80_0000_0000_0000_0000_0000_0000 <= (h3 as int) * (x3 as int) <= 0x80_0000_0000_0000_0000_0000_0000) by (nonlinear_arith)
            requires -0x100_0000_0000 <= h3 <= 0x100_0000_0000, -0x8000_0000_0000_0000 <= x3 <= 0x8000_0000_0000_0000;
    }
    let t0: i128 = (h0 as i128) * (x0 as i128);
    let t1: i128 = (h1 as i128) * (x1 as i128);
    let t2: i128 = (h2 as i128) * (x2 as i128);
    let t3: i128 = (h3 as i128) * (x3 as i128);
    let total: i128 = t0 + t1 + t2 + t3;
    if total == i128::MIN {
        return Err(TimeError::Overflow);
    }
    if want_speed {
        let dt = match grid_count(d.num() as i128, d.den() as i128) {
            Some(u) => u,
            None => return Err(TimeError::Overflow),
        };
        if dt <= 0 {
            return Err(TimeError::Overflow);
        }
        round_onto_grid(total, 705_600_000i128 * (dt as i128))
    } else {
        round_onto_grid(total, 705_600_000i128 * 705_600_000i128)
    }
}

impl Retime {
    /// The polynomial Cubic decomposition of segment `i`, as (segment, upper
    /// boundary) pieces; the lower boundary of the first is `boundaries[i]`.
    fn split_pieces(&self, i: usize) -> (r: Option<Vec<(MapSegment, Boundary)>>)
        requires
            i < self.segments@.len(),
            self.boundaries@.len() > self.segments@.len(),
        ensures
            match r {
                None => pieces_spec(self.boundaries@, self.segments@, i as int) is None,
                Some(v) => pieces_spec(self.boundaries@, self.segments@, i as int) == Some(v@),
            },
    {
        let nb = self.boundaries.len();
        let lo = self.boundaries[i];
        let hi = self.boundaries[i + 1];
        proof {
            lemma_third();
            lemma_e1(Ease::Linear);
            Rational::lemma_zero();
            assert(from_parts_spec(1, 2) is Ok);
        }
        let third = match Rational::new(1, 3) {
            Ok(x) => x,
            Err(_) => return None,
        };
        match self.segments[i] {
            RetimeSegment::Rate(seg) => match seg.ease {
                Ease::Linear => None,
                Ease::Slow | Ease::Fast => {
                    let v = vec![(MapSegment::new(seg.v0, seg.v1, third, third), hi)];
                    assert(v@ =~= pieces_spec(self.boundaries@, self.segments@, i as int)->Some_0);
                    Some(v)
                },
                Ease::Smooth | Ease::Sharp => {
                    let half = match Rational::new(1, 2) {
                        Ok(x) => x,
                        Err(_) => {
                            proof {
                                lemma_e1(Ease::Linear);
                            }
                            return None;
                        },
                    };
                    assert(half == ok_or_zero(from_parts_spec(1, 2)));
                    let d_seg = match hi.t.checked_sub(lo.t) {
                        Ok(x) => x,
                        Err(_) => return None,
                    };
                    let hd = match d_seg.checked_mul(half) {
                        Ok(x) => x,
                        Err(_) => return None,
                    };
                    let mid_t = match lo.t.checked_add(hd) {
                        Ok(x) => x,
                        Err(_) => return None,
                    };
                    let vsum = match seg.v0.checked_add(seg.v1) {
                        Ok(x) => x,
                        Err(_) => return None,
                    };
                    let vmid = match vsum.checked_mul(half) {
                        Ok(x) => x,
                        Err(_) => return None,
                    };
                    let e_half = if seg.ease == Ease::Smooth {
                        match Rational::new(1, 12) {
                            Ok(x) => x,
                            Err(_) => Rational::zero(),
                        }
                    } else {
                        match Rational::new(1, 6) {
                            Ok(x) => x,
                            Err(_) => Rational::zero(),
                        }
                    };
                    let smooth = seg.ease == Ease::Smooth;
                    let (w0, q): (i128, i128) = if smooth {
                        (5, 12)
                    } else {
                        (2, 6)
                    };
                    let s_mid = match mid_source(lo.s, d_seg, seg.v0, seg.v1, half, e_half, w0, q) {
                        Ok(x) => x,
                        Err(_) => return None,
                    };
                    let mid = Boundary::new(mid_t, s_mid);
                    let v = vec![
                        (MapSegment::new(seg.v0, vmid, third, third), mid),
                        (MapSegment::new(vmid, seg.v1, third, third), hi),
                    ];
                    assert(v@ =~= pieces_spec(self.boundaries@, self.segments@, i as int)->Some_0);
                    Some(v)
                },
            },
            RetimeSegment::Cubic(seg) => {
                if is_one_third(seg.b0) && is_one_third(seg.b1) {
                    let v = vec![(seg, hi)];
                    assert(v@ =~= pieces_spec(self.boundaries@, self.segments@, i as int)->Some_0);
                    Some(v)
                } else {
                    None
                }
            },
        }
    }

    /// The Linear Rate split of segment `i` at `t`: both halves stay Linear
    /// Rates, exact.
    fn split_linear_rate(&self, i: usize, t: Rational, v0: Rational, v1: Rational) -> (r: Option<(Retime, Retime)>)
        requires
            i < self.segments@.len(),
            self.boundaries@.len() > self.segments@.len(),
            v0 == rate_of(self.segments@[i as int]).v0,
            v1 == rate_of(self.segments@[i as int]).v1,
        ensures
            match r {
                None => split_linear_spec(self.boundaries@, self.segments@, self.allow_reverse, i as int, t) is None,
                Some((l, rr)) => {
                    &&& split_linear_spec(self.boundaries@, self.segments@, self.allow_reverse, i as int, t)
                        == Some(((l.boundaries@, l.segments@), (rr.boundaries@, rr.segments@)))
                    &&& l.allow_reverse == self.allow_reverse && rr.allow_reverse == self.allow_reverse
                    &&& l.interpolation == self.interpolation && rr.interpolation == self.interpolation
                },
            },
    {
        let nb = self.boundaries.len();
        let ti = self.boundaries[i].t;
        let ti1 = self.boundaries[i + 1].t;
        let seg_d = match ti1.checked_sub(ti) {
            Ok(x) => x,
            Err(_) => return None,
        };
        let d_left = match t.checked_sub(ti) {
            Ok(x) => x,
            Err(_) => return None,
        };
        let u = match d_left.checked_div(seg_d) {
            Ok(x) => x,
            Err(_) => return None,
        };
        let dv = match v1.checked_sub(v0) {
            Ok(x) => x,
            Err(_) => return None,
        };
        let w = match dv.checked_mul(u) {
            Ok(x) => x,
            Err(_) => return None,
        };
        let v_at = match v0.checked_add(w) {
            Ok(x) => x,
            Err(_) => return None,
        };
        assert(linear_cut_speed(self.boundaries@, i as int, t, v0, v1) == Ok::<Rational, TimeError>(v_at));
        let mut lb = boundary_range(&self.boundaries, 0, i + 1);
        lb.push(Boundary::new(t, self.boundaries[i].s));
        let mut ls = segment_range(&self.segments, 0, i);
        ls.push(RetimeSegment::Rate(RateSegment::new(v0, v_at, Ease::Linear)));
        let mut left = Retime {
            boundaries: lb,
            segments: ls,
            allow_reverse: self.allow_reverse,
            interpolation: self.interpolation,
        };
        let ghost lb0 = left.boundaries@;
        let ghost ls0 = left.segments@;
        let lres = left.recompute_boundaries();
        proof {
            lemma_recompute_shape(lb0, ls0, self.allow_reverse);
        }
        match lres {
            Ok(_) => {},
            Err(_) => return None,
        }
        let last_s = left.boundaries[left.boundaries.len() - 1].s;
        let sh = match shifted_boundaries(&self.boundaries, i + 1, t) {
            Some(x) => x,
            None => return None,
        };
        let mut rb: Vec<Boundary> = vec![Boundary::new(Rational::zero(), last_s)];
        append_boundaries(&mut rb, &sh);
        let mut rs: Vec<RetimeSegment> = vec![RetimeSegment::Rate(RateSegment::new(v_at, v1, Ease::Linear))];
        let tail = segment_range(&self.segments, i + 1, self.segments.len());
        append_segments(&mut rs, &tail);
        let mut right = Retime {
            boundaries: rb,
            segments: rs,
            allow_reverse: self.allow_reverse,
            interpolation: self.interpolation,
        };
        let ghost rb0 = right.boundaries@;
        let ghost rs0 = right.segments@;
        let rres = right.recompute_boundaries();
        proof {
            assert(lb0 =~= self.boundaries@.subrange(0, i + 1).push(Boundary { t, s: self.boundaries@[i as int].s, smooth: false }));
            assert(ls0 =~= self.segments@.subrange(0, i as int).push(RetimeSegment::Rate(RateSegment { v0, v1: v_at, ease: Ease::Linear })));
            assert(last_s == left.boundaries@.last().s);
            assert(rb0 =~= seq![Boundary { t: Rational::spec_zero(), s: last_s, smooth: false }] + shifted_from(self.boundaries@, i + 1, t)->Some_0);
            assert(rs0 =~= seq![RetimeSegment::Rate(RateSegment { v0: v_at, v1, ease: Ease::Linear })]
                            + self.segments@.subrange(i + 1, self.segments@.len() as int));
        }
        match rres {
            Ok(u) => {
                assert(u == ());
            },
            Err(_) => return None,
        }
        Some((left, right))
    }
}

impl Retime {
    /// The general split of segment `i` at `t`: replace it by its polynomial
    /// decomposition, cut the piece containing `t` exactly (both halves are
    /// polynomial Cubic segments), and partition the store at the new
    /// boundary. Source positions never move; only the right half's local
    /// times shift so that it starts at zero.
    fn split_general(&self, i: usize, t: Rational) -> (r: Option<(Retime, Retime)>)
        requires
            i < self.segments@.len(),
            self.boundaries@.len() > self.segments@.len(),
        ensures
            match r {
                None => split_general_spec(self.boundaries@, self.segments@, self.allow_reverse, i as int, t) is None,
                Some((l, rr)) => {
                    &&& split_general_spec(self.boundaries@, self.segments@, self.allow_reverse, i as int, t)
                        == Some(((l.boundaries@, l.segments@), (rr.boundaries@, rr.segments@)))
                    &&& l.allow_reverse == self.allow_reverse && rr.allow_reverse == self.allow_reverse
                    &&& l.interpolation == self.interpolation && rr.interpolation == self.interpolation
                },
            },
    {
        let nb = self.boundaries.len();
        let ns = self.segments.len();
        let pieces = match self.split_pieces(i) {
            Some(p) => p,
            None => return None,
        };
        proof {
            lemma_third();
        }
        let third = match Rational::new(1, 3) {
            Ok(x) => x,
            Err(_) => return None,
        };
        let mut eb = boundary_range(&self.boundaries, 0, i + 1);
        let mut es = segment_range(&self.segments, 0, i);
        let mut lo = self.boundaries[i];
        let mut cut_idx: Option<usize> = None;
        let ghost target = assemble_from(pieces@, 0, self.boundaries@[i as int], t, self.boundaries@.subrange(0, i + 1), self.segments@.subrange(0, i as int), None);
        let np = pieces.len();
        for k in 0..np
            invariant
                np == pieces@.len(),
                third == third_spec(),
                es@.len() + 1 == eb@.len(),
                eb@.len() <= i + 1 + 2 * k,
                i < ns,
                ns < nb,
                nb == self.boundaries@.len(),
                cut_idx matches Some(c) ==> c < eb@.len(),
                pieces_spec(self.boundaries@, self.segments@, i as int) == Some(pieces@),
                target == assemble_from(pieces@, 0, self.boundaries@[i as int], t, self.boundaries@.subrange(0, i + 1), self.segments@.subrange(0, i as int), None),
                assemble_from(pieces@, k as nat, lo, t, eb@, es@, match cut_idx { Some(c) => Some(c as int), None => None }) == target,
        {
            let (pmap, phi) = pieces[k];
            if cut_idx.is_none() && lo.t.le(&t) && t.lt(&phi.t) {
                let (s_cut, v_cut) = match hermite_at(&lo, &phi, pmap.m0, pmap.m1, t) {
                    Ok(x) => x,
                    Err(_) => {
                        assert(pieces@[k as int] == (pmap, phi));
                        assert(assemble_from(pieces@, k as nat, lo, t, eb@, es@, None) is None);
                        return None;
                    },
                };
                es.push(RetimeSegment::Cubic(MapSegment::new(pmap.m0, v_cut, third, third)));
                eb.push(Boundary::new(t, s_cut));
                cut_idx = Some(eb.len() - 1);
                es.push(RetimeSegment::Cubic(MapSegment::new(v_cut, pmap.m1, third, third)));
            } else {
                es.push(RetimeSegment::Cubic(pmap));
            }
            eb.push(phi);
            lo = phi;
        }
        assert(target == Some((eb@, es@, match cut_idx { Some(c) => Some(c as int), None => None })));
        let cut = match cut_idx {
            Some(c) => c,
            None => return None,
        };
        let ghost eb0 = eb@;
        let ghost es0 = es@;
        let tail_s = segment_range(&self.segments, i + 1, ns);
        append_segments(&mut es, &tail_s);
        let tail_b = boundary_range(&self.boundaries, i + 2, nb);
        append_boundaries(&mut eb, &tail_b);
        let ne = eb.len();
        let left_b = boundary_range(&eb, 0, cut + 1);
        let left_s = segment_range(&es, 0, cut);
        let sh = match shifted_boundaries(&eb, cut + 1, t) {
            Some(x) => x,
            None => return None,
        };
        let mut rb: Vec<Boundary> = vec![Boundary::new(Rational::zero(), eb[cut].s)];
        append_boundaries(&mut rb, &sh);
        let right_s = segment_range(&es, cut, es.len());
        let mut left = Retime {
            boundaries: left_b,
            segments: left_s,
            allow_reverse: self.allow_reverse,
            interpolation: self.interpolation,
        };
        let mut right = Retime {
            boundaries: rb,
            segments: right_s,
            allow_reverse: self.allow_reverse,
            interpolation: self.interpolation,
        };
        proof {
            assert(eb@ == eb0 + self.boundaries@.subrange(i + 2, self.boundaries@.len() as int));
            assert(es@ == es0 + self.segments@.subrange(i + 1, self.segments@.len() as int));
            assert(pieces_spec(self.boundaries@, self.segments@, i as int) == Some(pieces@));
            assert(left.boundaries@ == eb@.subrange(0, cut + 1));
            assert(right.boundaries@ == seq![Boundary { t: Rational::spec_zero(), s: eb@[cut as int].s, smooth: false }] + sh@);
        }
        let lres = left.recompute_boundaries();
        let rres = right.recompute_boundaries();
        match (lres, rres) {
            (Ok(a), Ok(b)) => {
                assert(a == () && b == ());
                Some((left, right))
            },
            _ => None,
        }
    }

    /// Split this store at local time `t` into two stores covering `[0, t]`
    /// and `[t, D]`, each with its own domain starting at zero. A Linear Rate
    /// segment splits into two Linear Rates; an eased Rate or a polynomial
    /// Cubic segment splits through the exact polynomial decomposition. None
    /// for a cut outside `(0, D)`, one landing in a general-influence Cubic
    /// segment, or when a value does not fit.
    pub fn split_at(&self, t: Rational) -> (r: Option<(Retime, Retime)>)
        requires
            self.boundaries@.len() == 0 || self.boundaries@.len() > self.segments@.len(),
        ensures
            match r {
                None => split_spec(self.boundaries@, self.segments@, self.allow_reverse, t) is None,
                Some((l, rr)) => {
                    &&& split_spec(self.boundaries@, self.segments@, self.allow_reverse, t)
                        == Some(((l.boundaries@, l.segments@), (rr.boundaries@, rr.segments@)))
                    &&& l.allow_reverse == self.allow_reverse && rr.allow_reverse == self.allow_reverse
                    &&& l.interpolation == self.interpolation && rr.interpolation == self.interpolation
                },
            },
    {
        let nb = self.boundaries.len();
        if nb == 0 {
            return None;
        }
        let d = self.boundaries[nb - 1].t;
        if t.le(&Rational::zero()) || d.le(&t) {
            return None;
        }
        let n = self.segments.len();
        let mut found: Option<usize> = None;
        let mut k: usize = 0;
        while k < n
            invariant
                n == self.segments@.len(),
                nb == self.boundaries@.len(),
                nb > n,
                k <= n,
                found matches Some(f) ==> f < n && cut_from(self.boundaries@, t, 0, n as int) == Some(f as int),
                found is None ==> cut_from(self.boundaries@, t, k as int, n as int) == cut_from(self.boundaries@, t, 0, n as int),
            decreases n - k,
        {
            if found.is_none() {
                if self.boundaries[k].t.le(&t) && t.lt(&self.boundaries[k + 1].t) {
                    found = Some(k);
                }
            }
            k = k + 1;
        }
        let i = match found {
            Some(i) => i,
            None => return None,
        };
        match self.segments[i] {
            RetimeSegment::Rate(seg) => {
                if seg.ease == Ease::Linear {
                    return self.split_linear_rate(i, t, seg.v0, seg.v1);
                }
            },
            _ => {},
        }
        self.split_general(i, t)
    }

    /// Insert a freeze — a zero-speed hold of `duration` — at local time
    /// `at`, keeping the clip's own duration: the store is split at `at`, a
    /// `Rate { 0, 0, Linear }` hold is inserted, later boundaries move
    /// `duration` further along, and the result is cropped back to the
    /// starting domain. None when `at` is not strictly inside the domain,
    /// `duration` is not positive, or a split or recomputation fails.
    pub fn insert_freeze(&self, at: Rational, duration: Rational) -> (r: Option<Retime>)
        requires
            self.boundaries@.len() == 0 || self.boundaries@.len() > self.segments@.len(),
        ensures
            match r {
                None => freeze_spec(self.boundaries@, self.segments@, self.allow_reverse, at, duration) is None,
                Some(x) => {
                    &&& freeze_spec(self.boundaries@, self.segments@, self.allow_reverse, at, duration)
                        == Some((x.boundaries@, x.segments@))
                    &&& x.allow_reverse == self.allow_reverse
                    &&& x.interpolation == self.interpolation
                },
            },
    {
        let nb = self.boundaries.len();
        if nb == 0 {
            return None;
        }
        let d_orig = self.boundaries[nb - 1].t;
        if at.le(&Rational::zero()) || d_orig.le(&at) || duration.le(&Rational::zero()) {
            return None;
        }
        let (left, right) = match self.split_at(at) {
            Some(p) => p,
            None => return None,
        };
        proof {
            let sp = split_spec(self.boundaries@, self.segments@, self.allow_reverse, at)->Some_0;
            lemma_split_shapes(self.boundaries@, self.segments@, self.allow_reverse, at);
        }
        let nl = left.boundaries.len();
        let s_at = left.boundaries[nl - 1].s;
        let freeze_end = match at.checked_add(duration) {
            Ok(x) => x,
            Err(_) => return None,
        };
        let mut boundaries = copy_boundaries(&left.boundaries);
        boundaries.push(Boundary::new(freeze_end, s_at));
        let moved = match moved_boundaries(&right.boundaries, freeze_end) {
            Some(x) => x,
            None => return None,
        };
        append_boundaries(&mut boundaries, &moved);
        let mut segments = copy_segments(&left.segments);
        segments.push(RetimeSegment::Rate(RateSegment::new(Rational::zero(), Rational::zero(), Ease::Linear)));
        append_segments(&mut segments, &right.segments);
        let mut assembled = Retime {
            boundaries,
            segments,
            allow_reverse: self.allow_reverse,
            interpolation: self.interpolation,
        };
        let ghost ab0 = assembled.boundaries@;
        let ghost as0 = assembled.segments@;
        let ares = assembled.recompute_boundaries();
        proof {
            lemma_recompute_shape(ab0, as0, self.allow_reverse);
        }
        match ares {
            Ok(u) => {
                assert(u == ());
            },
            Err(_) => return None,
        }
        proof {
            assert(ab0 == freeze_parts(self.boundaries@, self.segments@, self.allow_reverse, at, duration)->Some_0.0);
            assert(as0 == freeze_parts(self.boundaries@, self.segments@, self.allow_reverse, at, duration)->Some_0.1);
        }
        let (cropped, _) = match assembled.split_at(d_orig) {
            Some(p) => p,
            None => return None,
        };
        Some(cropped)
    }
}

} // verus!
