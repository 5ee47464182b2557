//! Properties of retime stores that span several operations: recomputation
//! settles in one pass, edits never move what lies upstream of them, and the
//! keyframe builders round-trip through their readers.

use crate::rational::{
    lemma_add_sub_back, lemma_div_mul_cancel_right, lemma_add_zero, lemma_div_mul_cancel, lemma_from_parts, lemma_sub_add_cancel, lemma_sub_self,
    lemma_sub_shift, lemma_zero_mul, Rational,
};
use crate::retime::{
    any_negative_value_rate, clamped_spec, e1_spec, keys_ok, lemma_e1, lemma_recompute_from_shape,
    lemma_recompute_shape, ok_or_zero, rate_advance_spec, rate_end_spec, rate_of, recompute_from,
    recompute_spec, speed_key_boundaries, speed_key_segments, speed_keys_spec, validate_spec,
    value_key_boundaries, value_key_segments, value_rate_spec, value_rates_ok, with_source,
    Boundary, Ease, RateSegment, RetimeError, RetimeSegment, split_spec, split_linear_spec,
    split_general_spec, assemble_from, pieces_spec, cut_from, is_linear_rate, MapSegment,
    freeze_spec, freeze_parts, pinned_v1_spec, add_fallback_spec, merge_stays_rate, merged_segment,
    strictly_increasing, segment_index_spec, in_domain, lemma_segment_index_covers,
};
use vstd::prelude::*;

verus! {

/// A boundary list is settled under `segs` from segment `i` on: every Rate
/// segment from `i` ends exactly where its exact advance says.
pub open spec fn settled_from(bs: Seq<Boundary>, segs: Seq<RetimeSegment>, allow: bool, i: int) -> bool {
    forall|k: int|
        i <= k < segs.len() && (#[trigger] segs[k]) is Rate ==> rate_end_spec(bs, k, segs[k]->Rate_0, allow)
            == Ok::<_, RetimeError>(bs[k + 1].s)
}

/// The end of a Rate segment depends only on its own two boundaries' times
/// and its start position.
proof fn lemma_rate_end_local(x: Seq<Boundary>, y: Seq<Boundary>, segs: Seq<RetimeSegment>, allow: bool, k: int)
    requires
        0 <= k,
        k + 1 < x.len(),
        k + 1 < y.len(),
        x[k] == y[k],
        x[k + 1].t == y[k + 1].t,
        segs[k] is Rate,
    ensures
        rate_end_spec(x, k, segs[k]->Rate_0, allow) == rate_end_spec(y, k, segs[k]->Rate_0, allow),
{
}

/// A settled list is a fixpoint of recomputation.
proof fn lemma_settled_fixpoint(bs: Seq<Boundary>, segs: Seq<RetimeSegment>, allow: bool, i: nat)
    requires
        bs.len() == segs.len() + 1,
        settled_from(bs, segs, allow, i as int),
    ensures
        recompute_from(bs, segs, allow, i) == (bs, Ok::<(), RetimeError>(())),
    decreases segs.len() - i,
{
    if i < segs.len() {
        match segs[i as int] {
            RetimeSegment::Cubic(_) => {
                lemma_settled_fixpoint(bs, segs, allow, i + 1);
            },
            RetimeSegment::Rate(seg) => {
                assert(segs[i as int] is Rate);
                assert(with_source(bs, i + 1 as int, bs[i + 1 as int].s) =~= bs);
                lemma_settled_fixpoint(bs, segs, allow, i + 1);
            },
        }
    }
}

/// What a successful recomputation from `i` produces is settled from `i`.
proof fn lemma_recompute_settles(bs: Seq<Boundary>, segs: Seq<RetimeSegment>, allow: bool, i: nat)
    requires
        bs.len() == segs.len() + 1,
        recompute_from(bs, segs, allow, i).1 is Ok,
    ensures
        settled_from(recompute_from(bs, segs, allow, i).0, segs, allow, i as int),
    decreases segs.len() - i,
{
    let out = recompute_from(bs, segs, allow, i).0;
    if i < segs.len() {
        match segs[i as int] {
            RetimeSegment::Cubic(_) => {
                lemma_recompute_settles(bs, segs, allow, i + 1);
            },
            RetimeSegment::Rate(seg) => {
                let sv = rate_end_spec(bs, i as int, seg, allow)->Ok_0;
                let x = with_source(bs, i + 1 as int, sv);
                lemma_recompute_settles(x, segs, allow, i + 1);
                lemma_recompute_from_shape(x, segs, allow, i + 1);
                assert(out[i as int] == x[i as int]);
                assert(out[i + 1 as int] == x[i + 1 as int]);
                lemma_rate_end_local(out, bs, segs, allow, i as int);
                assert forall|k: int|
                    i <= k < segs.len() && (#[trigger] segs[k]) is Rate implies rate_end_spec(
                    out,
                    k,
                    segs[k]->Rate_0,
                    allow,
                ) == Ok::<_, RetimeError>(out[k + 1].s) by {
                    if k == i {
                    }
                }
            },
        }
    }
}

/// Recomputation settles in one pass: recomputing a freshly recomputed store
/// changes nothing and succeeds again, so repeated edits never accumulate
/// drift.
pub proof fn law_recompute_idempotent(bs: Seq<Boundary>, segs: Seq<RetimeSegment>, allow: bool)
    requires
        recompute_spec(bs, segs, allow).1 is Ok,
    ensures
        recompute_spec(recompute_spec(bs, segs, allow).0, segs, allow) == (
            recompute_spec(bs, segs, allow).0,
            Ok::<(), RetimeError>(()),
        ),
{
    lemma_recompute_shape(bs, segs, allow);
    let out = recompute_spec(bs, segs, allow).0;
    lemma_recompute_settles(bs, segs, allow, 0);
    lemma_settled_fixpoint(out, segs, allow, 0);
}

/// On a settled list, segments that agree with `segs` below `i` recompute
/// the first `i` steps without changing anything.
proof fn lemma_agreeing_prefix(
    bs: Seq<Boundary>,
    segs: Seq<RetimeSegment>,
    segs2: Seq<RetimeSegment>,
    allow: bool,
    j: nat,
    i: nat,
)
    requires
        bs.len() == segs.len() + 1,
        segs2.len() == segs.len(),
        j <= i <= segs.len(),
        settled_from(bs, segs, allow, 0),
        forall|k: int| 0 <= k < i ==> #[trigger] segs2[k] == segs[k],
    ensures
        recompute_from(bs, segs2, allow, j) == recompute_from(bs, segs2, allow, i),
    decreases i - j,
{
    if j < i {
        match segs2[j as int] {
            RetimeSegment::Cubic(_) => {
                lemma_agreeing_prefix(bs, segs, segs2, allow, j + 1, i);
            },
            RetimeSegment::Rate(seg) => {
                assert(segs2[j as int] == segs[j as int]);
                assert(segs[j as int] is Rate);
                assert(with_source(bs, j + 1 as int, bs[j + 1 as int].s) =~= bs);
                lemma_agreeing_prefix(bs, segs, segs2, allow, j + 1, i);
            },
        }
    }
}

/// Editing segment `i` of a settled store moves nothing upstream: after
/// recomputation with the edited segments, boundaries `0..=i` — in
/// particular the edited segment's own start — are exactly as before.
pub proof fn law_edit_pins_upstream(bs: Seq<Boundary>, segs: Seq<RetimeSegment>, segs2: Seq<RetimeSegment>, allow: bool, i: int)
    requires
        recompute_spec(bs, segs, allow) == (bs, Ok::<(), RetimeError>(())),
        segs2.len() == segs.len(),
        0 <= i < segs.len(),
        forall|k: int| 0 <= k < segs.len() && k != i ==> #[trigger] segs2[k] == segs[k],
    ensures
        forall|k: int| 0 <= k <= i ==> #[trigger] recompute_spec(bs, segs2, allow).0[k] == bs[k],
{
    lemma_recompute_shape(bs, segs, allow);
    lemma_recompute_settles(bs, segs, allow, 0);
    assert(validate_spec(bs, segs2) == validate_spec(bs, segs));
    lemma_agreeing_prefix(bs, segs, segs2, allow, 0, i as nat);
    lemma_recompute_from_shape(bs, segs2, allow, i as nat);
}

/// Every rational in a keyframe list is in lowest terms.
pub open spec fn keys_wf(keys: Seq<(Rational, Rational)>) -> bool {
    forall|i: int| 0 <= i < keys.len() ==> (#[trigger] keys[i]).0.wf() && keys[i].1.wf()
}

/// One span of a value-keyed store ends exactly on the next key.
proof fn lemma_value_span_exact(keys: Seq<(Rational, Rational)>, i: int)
    requires
        keys_ok(keys),
        value_rates_ok(keys),
        keys_wf(keys),
        0 <= i < keys.len() - 1,
    ensures
        rate_end_spec(
            value_key_boundaries(keys),
            i,
            rate_of(value_key_segments(keys)[i]),
            any_negative_value_rate(keys),
        ) == Ok::<Rational, RetimeError>(keys[i + 1].1),
{
    let bs = value_key_boundaries(keys);
    let allow = any_negative_value_rate(keys);
    let k0 = keys[i];
    let k1 = keys[i + 1];
    assert(keys_wf(keys));
    assert(k0.0.wf() && k0.1.wf());
    assert(k1.0.wf() && k1.1.wf());
    assert(value_rate_spec(keys, i) is Ok);
    assert(k0.0.spec_lt(k1.0));
    let dn = k1.0.n() * k0.0.d() - k0.0.n() * k1.0.d();
    let dd = k1.0.d() * k0.0.d();
    assert(dd != 0) by (nonlinear_arith)
        requires
            dd == k1.0.d() * k0.0.d(),
            k1.0.d() > 0,
            k0.0.d() > 0,
    ;
    lemma_from_parts(dn, dd);
    let d = k1.0.spec_sub(k0.0)->Ok_0;
    assert(d.n() > 0) by (nonlinear_arith)
        requires
            d.n() * dd == dn * d.d(),
            d.d() > 0,
            dd == k1.0.d() * k0.0.d(),
            k1.0.d() > 0,
            k0.0.d() > 0,
            k0.0.n() * k1.0.d() < k1.0.n() * k0.0.d(),
            dn == k1.0.n() * k0.0.d() - k0.0.n() * k1.0.d(),
    ;
    let sdd = k1.1.d() * k0.1.d();
    assert(sdd != 0) by (nonlinear_arith)
        requires
            sdd == k1.1.d() * k0.1.d(),
            k1.1.d() > 0,
            k0.1.d() > 0,
    ;
    lemma_from_parts(k1.1.n() * k0.1.d() - k0.1.n() * k1.1.d(), sdd);
    let ds = k1.1.spec_sub(k0.1)->Ok_0;
    assert(ds.d() * d.n() != 0) by (nonlinear_arith)
        requires
            ds.d() > 0,
            d.n() > 0,
    ;
    lemma_from_parts(ds.n() * d.d(), ds.d() * d.n());
    let v = ds.spec_div(d)->Ok_0;
    assert(value_rate_spec(keys, i) == Ok::<Rational, crate::rational::TimeError>(v));
    let seg = RateSegment { v0: v, v1: v, ease: Ease::Linear };
    assert(value_key_segments(keys)[i] == RetimeSegment::Rate(seg));
    assert(rate_of(value_key_segments(keys)[i]) == seg);
    if !allow {
        assert(!(ok_or_zero(value_rate_spec(keys, i)).n() < 0));
    }
    assert(clamped_spec(seg, allow) == (v, v));
    lemma_sub_self(v);
    lemma_e1(Ease::Linear);
    lemma_zero_mul(e1_spec(Ease::Linear));
    lemma_add_zero(v);
    lemma_div_mul_cancel(d, ds, v);
    assert(rate_advance_spec(d, v, v, Ease::Linear) == Ok::<Rational, RetimeError>(ds));
    lemma_sub_add_cancel(k0.1, k1.1, ds);
    assert(bs[i] == crate::retime::Boundary { t: k0.0, s: k0.1, smooth: false });
    assert(bs[i + 1] == crate::retime::Boundary { t: k1.0, s: k1.1, smooth: false });
}

/// Value keyframes are reproduced exactly: a store built on valid value keys
/// (at least two, the first at zero, strictly increasing times, every span's
/// speed representable) recomputes without error onto boundaries that sit on
/// the keys, so reading its value keyframes gives back the keys with no drift.
pub proof fn law_value_keys_round_trip(keys: Seq<(Rational, Rational)>)
    requires
        keys_wf(keys),
        keys_ok(keys),
        value_rates_ok(keys),
    ensures
        recompute_spec(value_key_boundaries(keys), value_key_segments(keys), any_negative_value_rate(keys))
            == (value_key_boundaries(keys), Ok::<(), RetimeError>(())),
        Seq::new(
            value_key_boundaries(keys).len(),
            |i: int| (value_key_boundaries(keys)[i].t, value_key_boundaries(keys)[i].s),
        ) == keys,
{
    let bs = value_key_boundaries(keys);
    let segs = value_key_segments(keys);
    let allow = any_negative_value_rate(keys);
    assert forall|k: int|
        0 <= k < segs.len() && (#[trigger] segs[k]) is Rate implies rate_end_spec(bs, k, segs[k]->Rate_0, allow)
        == Ok::<_, RetimeError>(bs[k + 1].s) by {
        lemma_value_span_exact(keys, k);
        assert(rate_of(segs[k]) == segs[k]->Rate_0);
    }
    assert(crate::retime::strictly_increasing(bs)) by {
        assert forall|k: int| 0 <= k < bs.len() - 1 implies #[trigger] bs[k].t.spec_lt(bs[k + 1].t) by {
            assert(keys[k].0.spec_lt(keys[k + 1].0));
        }
    }
    assert(validate_spec(bs, segs) is Ok);
    lemma_settled_fixpoint(bs, segs, allow, 0);
    assert(Seq::new(bs.len(), |i: int| (bs[i].t, bs[i].s)) =~= keys);
}

/// Speed keyframes round-trip: a store built from valid speed keys, once its
/// source positions are recomputed, reads back exactly the keys it was built
/// from, whatever the recomputation wrote into the source positions.
pub proof fn law_speed_keys_round_trip(source_in: Rational, keys: Seq<(Rational, Rational)>, allow: bool)
    requires
        keys_ok(keys),
    ensures
        speed_keys_spec(
            recompute_spec(speed_key_boundaries(source_in, keys), speed_key_segments(keys), allow).0,
            speed_key_segments(keys),
        ) == Some(keys),
{
    let bs = speed_key_boundaries(source_in, keys);
    let segs = speed_key_segments(keys);
    lemma_recompute_shape(bs, segs, allow);
    let out = recompute_spec(bs, segs, allow).0;
    assert(forall|i: int| 0 <= i < segs.len() ==> #[trigger] crate::retime::is_linear_rate(segs[i]));
    let got = speed_keys_spec(out, segs)->Some_0;
    assert forall|i: int| 0 <= i < keys.len() implies #[trigger] got[i] == keys[i] by {
        assert(out[i].t == bs[i].t);
    }
    assert(got =~= keys);
}

/// Recomputation never rewrites the end boundary of a Cubic segment.
proof fn lemma_cubic_end_kept(bs: Seq<Boundary>, segs: Seq<RetimeSegment>, allow: bool, i: nat, k: int)
    requires
        bs.len() == segs.len() + 1,
        1 <= k < bs.len(),
        segs[k - 1] is Cubic,
    ensures
        recompute_from(bs, segs, allow, i).0[k] == bs[k],
    decreases segs.len() - i,
{
    if i < segs.len() {
        match segs[i as int] {
            RetimeSegment::Cubic(_) => {
                lemma_cubic_end_kept(bs, segs, allow, i + 1, k);
            },
            RetimeSegment::Rate(seg) => match rate_end_spec(bs, i as int, seg, allow) {
                Err(_) => {},
                Ok(sv) => {
                    lemma_cubic_end_kept(with_source(bs, i + 1 as int, sv), segs, allow, i + 1, k);
                },
            },
        }
    }
}

/// Laying pieces down keeps one more boundary than segments, never touches
/// what was already laid, and leaves the cut boundary at `t` as the end of a
/// Cubic segment.
proof fn lemma_assemble(
    pieces: Seq<(MapSegment, Boundary)>,
    k: nat,
    lo: Boundary,
    t: Rational,
    eb: Seq<Boundary>,
    es: Seq<RetimeSegment>,
    cut: Option<int>,
)
    requires
        eb.len() == es.len() + 1,
        cut matches Some(c) ==> 1 <= c < eb.len() && eb[c].t == t && es[c - 1] is Cubic,
    ensures
        assemble_from(pieces, k, lo, t, eb, es, cut) matches Some((eb2, es2, cut2)) ==> {
            &&& eb2.len() == es2.len() + 1
            &&& eb.len() <= eb2.len()
            &&& forall|j: int| 0 <= j < eb.len() ==> #[trigger] eb2[j] == eb[j]
            &&& forall|j: int| 0 <= j < es.len() ==> #[trigger] es2[j] == es[j]
            &&& (cut2 matches Some(c) ==> 1 <= c < eb2.len() && eb2[c].t == t && es2[c - 1] is Cubic)
            &&& (cut is Some ==> cut2 == cut)
            &&& (cut is None ==> (cut2 matches Some(c) ==> eb.len() <= c))
            &&& (k < pieces.len() ==> eb2.last() == pieces.last().1)
            &&& forall|j: int| es.len() <= j < es2.len() ==> (#[trigger] es2[j]) is Cubic
        },
    decreases pieces.len() - k,
{
    if k < pieces.len() {
        let pmap = pieces[k as int].0;
        let phi = pieces[k as int].1;
        let third = crate::retime::third_spec();
        if cut is None && lo.t.spec_le(t) && t.spec_lt(phi.t) {
            match (
                crate::retime::hermite_fb_spec(lo, phi, pmap.m0, pmap.m1, t, false),
                crate::retime::hermite_fb_spec(lo, phi, pmap.m0, pmap.m1, t, true),
            ) {
                (Ok(s_cut), Ok(v_cut)) => {
                    let eb1 = eb.push(Boundary { t, s: s_cut, smooth: false }).push(phi);
                    let es1 = es.push(RetimeSegment::Cubic(MapSegment { m0: pmap.m0, m1: v_cut, b0: third, b1: third })).push(
                        RetimeSegment::Cubic(MapSegment { m0: v_cut, m1: pmap.m1, b0: third, b1: third }),
                    );
                    let c = eb.len() as int;
                    assert(eb1[c].t == t);
                    assert(es1[c - 1] is Cubic);
                    lemma_assemble(pieces, k + 1, phi, t, eb1, es1, Some(c));
                },
                _ => {},
            }
        } else {
            let eb1 = eb.push(phi);
            let es1 = es.push(RetimeSegment::Cubic(pmap));
            lemma_assemble(pieces, k + 1, phi, t, eb1, es1, cut);
        }
    }
}

/// The segment a cut lands in lies in the searched range.
proof fn lemma_cut_in_range(bs: Seq<Boundary>, t: Rational, k: int, n: int)
    requires
        cut_from(bs, t, k, n) is Some,
    ensures
        k <= cut_from(bs, t, k, n)->Some_0 < n,
        bs[cut_from(bs, t, k, n)->Some_0].t.spec_le(t),
        t.spec_lt(bs[cut_from(bs, t, k, n)->Some_0 + 1].t),
    decreases n - k,
{
    if k < n && !(bs[k].t.spec_le(t) && t.spec_lt(bs[k + 1].t)) {
        lemma_cut_in_range(bs, t, k + 1, n);
    }
}

/// A split's halves meet exactly: the left half ends at local time `t` on the
/// very source position where the right half starts, at its local time zero.
pub proof fn law_split_halves_meet(bs: Seq<Boundary>, segs: Seq<RetimeSegment>, allow: bool, t: Rational)
    requires
        bs.len() > segs.len(),
        split_spec(bs, segs, allow, t) is Some,
    ensures
        ({
            let ((lb, ls), (rb, rs)) = split_spec(bs, segs, allow, t)->Some_0;
            &&& lb.len() >= 2
            &&& rb.len() >= 2
            &&& lb.last().t == t
            &&& rb[0].t == Rational::spec_zero()
            &&& lb.last().s == rb[0].s
        }),
{
    crate::retime::lemma_split_shapes(bs, segs, allow, t);
    let i = cut_from(bs, t, 0, segs.len() as int)->Some_0;
    lemma_cut_in_range(bs, t, 0, segs.len() as int);
    if is_linear_rate(segs[i]) {
        let v0 = rate_of(segs[i]).v0;
        let v1 = rate_of(segs[i]).v1;
        let vat = crate::retime::linear_cut_speed(bs, i, t, v0, v1)->Ok_0;
        let lb = bs.subrange(0, i + 1).push(Boundary { t, s: bs[i].s, smooth: false });
        let ls = segs.subrange(0, i).push(RetimeSegment::Rate(RateSegment { v0, v1: vat, ease: Ease::Linear }));
        lemma_recompute_shape(lb, ls, allow);
        let lr = recompute_spec(lb, ls, allow);
        let sh = crate::retime::shifted_from(bs, i + 1, t)->Some_0;
        let rb = seq![Boundary { t: Rational::spec_zero(), s: lr.0.last().s, smooth: false }] + sh;
        let rs = seq![RetimeSegment::Rate(RateSegment { v0: vat, v1, ease: Ease::Linear })] + segs.subrange(i + 1, segs.len() as int);
        lemma_recompute_shape(rb, rs, allow);
        assert(lr.0.last().t == lb.last().t);
    } else {
        let pieces = pieces_spec(bs, segs, i)->Some_0;
        lemma_assemble(pieces, 0, bs[i], t, bs.subrange(0, i + 1), segs.subrange(0, i), None);
        let (eb0, es0, cut) = assemble_from(pieces, 0, bs[i], t, bs.subrange(0, i + 1), segs.subrange(0, i), None)->Some_0;
        let c = cut->Some_0;
        let eb = eb0 + bs.subrange(i + 2, bs.len() as int);
        let es = es0 + segs.subrange(i + 1, segs.len() as int);
        let sh = crate::retime::shifted_from(eb, c + 1, t)->Some_0;
        let lb = eb.subrange(0, c + 1);
        let ls = es.subrange(0, c);
        assert(lb[c] == eb0[c]);
        assert(ls[c - 1] == es0[c - 1]);
        lemma_recompute_shape(lb, ls, allow);
        assert(validate_spec(lb, ls) is Ok);
        lemma_cubic_end_kept(lb, ls, allow, 0, c);
        let rb = seq![Boundary { t: Rational::spec_zero(), s: eb[c].s, smooth: false }] + sh;
        lemma_recompute_shape(rb, es.subrange(c, es.len() as int), allow);
    }
}

/// Inserting a freeze keeps the clip's own duration: the result still ends
/// at the same last local time as before.
pub proof fn law_freeze_keeps_duration(
    bs: Seq<Boundary>,
    segs: Seq<RetimeSegment>,
    allow: bool,
    at: Rational,
    duration: Rational,
)
    requires
        bs.len() > segs.len(),
        freeze_spec(bs, segs, allow, at, duration) is Some,
    ensures
        freeze_spec(bs, segs, allow, at, duration)->Some_0.0.last().t == bs.last().t,
{
    let (ab, as_) = freeze_parts(bs, segs, allow, at, duration)->Some_0;
    let ar = recompute_spec(ab, as_, allow);
    lemma_recompute_shape(ab, as_, allow);
    law_split_halves_meet(ar.0, as_, allow, bs.last().t);
}

/// A fitted Rate segment reproduces its span exactly: with the end speed
/// `pinned_rate` sets, the segment's exact source advance from `lo` lands on
/// `hi`'s source position, so recomputation leaves every boundary where it
/// was — whenever the reverse gate lets both speeds through unclamped.
pub proof fn law_pinned_rate_reproduces_span(lo: Boundary, hi: Boundary, v0: Rational, ease: Ease, allow: bool)
    requires
        lo.t.wf(),
        lo.s.wf(),
        hi.t.wf(),
        hi.s.wf(),
        v0.wf(),
        lo.t.spec_lt(hi.t),
        pinned_v1_spec(lo, hi, v0, ease) is Ok,
        allow || (v0.n() >= 0 && pinned_v1_spec(lo, hi, v0, ease)->Ok_0.n() >= 0),
    ensures
        rate_end_spec(
            seq![lo, hi],
            0,
            RateSegment { v0, v1: pinned_v1_spec(lo, hi, v0, ease)->Ok_0, ease },
            allow,
        ) == Ok::<Rational, RetimeError>(hi.s),
{
    let bs = seq![lo, hi];
    assert(bs[0] == lo && bs[1] == hi);
    let sdd = hi.s.d() * lo.s.d();
    assert(sdd != 0) by (nonlinear_arith)
        requires
            sdd == hi.s.d() * lo.s.d(),
            hi.s.d() > 0,
            lo.s.d() > 0,
    ;
    lemma_from_parts(hi.s.n() * lo.s.d() - lo.s.n() * hi.s.d(), sdd);
    let ds = hi.s.spec_sub(lo.s)->Ok_0;
    let dn = hi.t.n() * lo.t.d() - lo.t.n() * hi.t.d();
    let dd = hi.t.d() * lo.t.d();
    assert(dd != 0) by (nonlinear_arith)
        requires
            dd == hi.t.d() * lo.t.d(),
            hi.t.d() > 0,
            lo.t.d() > 0,
    ;
    lemma_from_parts(dn, dd);
    let d = hi.t.spec_sub(lo.t)->Ok_0;
    assert(d.n() > 0) by (nonlinear_arith)
        requires
            d.n() * dd == dn * d.d(),
            d.d() > 0,
            dd == hi.t.d() * lo.t.d(),
            hi.t.d() > 0,
            lo.t.d() > 0,
            lo.t.n() * hi.t.d() < hi.t.n() * lo.t.d(),
            dn == hi.t.n() * lo.t.d() - lo.t.n() * hi.t.d(),
    ;
    assert(ds.d() * d.n() != 0) by (nonlinear_arith)
        requires
            ds.d() > 0,
            d.n() > 0,
    ;
    lemma_from_parts(ds.n() * d.d(), ds.d() * d.n());
    let c = ds.spec_div(d)->Ok_0;
    assert(c.d() * v0.d() != 0) by (nonlinear_arith)
        requires
            c.d() > 0,
            v0.d() > 0,
    ;
    lemma_from_parts(c.n() * v0.d() - v0.n() * c.d(), c.d() * v0.d());
    let x = c.spec_sub(v0)->Ok_0;
    let e = e1_spec(ease);
    lemma_e1(ease);
    assert(x.d() * e.n() != 0) by (nonlinear_arith)
        requires
            x.d() > 0,
            e.n() > 0,
    ;
    lemma_from_parts(x.n() * e.d(), x.d() * e.n());
    let w = x.spec_div(e)->Ok_0;
    assert(v0.d() * w.d() != 0) by (nonlinear_arith)
        requires
            v0.d() > 0,
            w.d() > 0,
    ;
    lemma_from_parts(v0.n() * w.d() + w.n() * v0.d(), v0.d() * w.d());
    let v1 = v0.spec_add(w)->Ok_0;
    assert(pinned_v1_spec(lo, hi, v0, ease) == Ok::<Rational, crate::rational::TimeError>(v1));
    let seg = RateSegment { v0, v1, ease };
    assert(clamped_spec(seg, allow) == (v0, v1));
    lemma_add_sub_back(v0, w, v1);
    lemma_div_mul_cancel_right(e, x, w);
    lemma_sub_add_cancel(v0, c, x);
    lemma_div_mul_cancel(d, ds, c);
    assert(rate_advance_spec(d, v0, v1, ease) == Ok::<Rational, RetimeError>(ds));
    lemma_sub_add_cancel(lo.s, hi.s, ds);
    assert(add_fallback_spec(lo.s, ds) == Ok::<Rational, RetimeError>(hi.s));
}


/// The end of a Rate segment read one place further along a list that agrees
/// from there on.
proof fn lemma_rate_end_shift(x: Seq<Boundary>, y: Seq<Boundary>, seg: RateSegment, allow: bool, k: int)
    requires
        0 <= k,
        k + 1 < x.len(),
        k + 2 < y.len(),
        x[k] == y[k + 1],
        x[k + 1].t == y[k + 2].t,
    ensures
        rate_end_spec(x, k, seg, allow) == rate_end_spec(y, k + 1, seg, allow),
{
}

/// Order on rationals with positive denominators is transitive.
proof fn lemma_lt_trans(a: Rational, b: Rational, c: Rational)
    requires
        a.d() > 0,
        b.d() > 0,
        c.d() > 0,
        a.spec_lt(b),
        b.spec_lt(c),
    ensures
        a.spec_lt(c),
{
    let (an, ad, bn, bd, cn, cd) = (a.n(), a.d(), b.n(), b.d(), c.n(), c.d());
    assert(an * cd < cn * ad) by (nonlinear_arith)
        requires
            ad > 0,
            bd > 0,
            cd > 0,
            an * bd < bn * ad,
            bn * cd < cn * bd,
    {
        assert(an * bd * cd < bn * ad * cd);
        assert(bn * cd * ad < cn * bd * ad);
        assert(an * cd * bd < cn * ad * bd);
    }
}

/// Merging an interior boundary of a settled store moves no boundary: the
/// merged store recomputes without error to exactly the old boundaries less
/// the removed one, so the outer boundaries keep their places and every
/// segment beyond them keeps its source positions. (A merge that stays a
/// Rate segment is checked against the raw speeds, so this is stated for
/// stores whose reverse gate lets those speeds through.)
pub proof fn law_merge_moves_no_boundary(bs: Seq<Boundary>, segs: Seq<RetimeSegment>, allow: bool, j: int, stay: bool)
    requires
        recompute_spec(bs, segs, allow) == (bs, Ok::<(), RetimeError>(())),
        forall|k: int| 0 <= k < bs.len() ==> (#[trigger] bs[k]).s.wf() && bs[k].t.wf(),
        0 < j,
        j + 1 < bs.len(),
        merge_stays_rate(bs, segs, j) == Some(stay),
        stay && !allow ==> rate_of(segs[j - 1]).v0.n() >= 0 && rate_of(segs[j]).v1.n() >= 0,
    ensures
        recompute_spec(bs.remove(j), segs.remove(j).update(j - 1, merged_segment(segs, j, stay)), allow) == (
            bs.remove(j),
            Ok::<(), RetimeError>(()),
        ),
{
    let bs2 = bs.remove(j);
    let segs2 = segs.remove(j).update(j - 1, merged_segment(segs, j, stay));
    lemma_recompute_shape(bs, segs, allow);
    lemma_recompute_settles(bs, segs, allow, 0);
    assert(settled_from(bs, segs, allow, 0));
    assert(strictly_increasing(bs2)) by {
        assert forall|i: int| 0 <= i < bs2.len() - 1 implies #[trigger] bs2[i].t.spec_lt(bs2[i + 1].t) by {
            assert(strictly_increasing(bs));
            if i + 1 < j {
                assert(bs2[i] == bs[i] && bs2[i + 1] == bs[i + 1]);
                assert(bs[i].t.spec_lt(bs[i + 1].t));
            } else if i >= j {
                assert(bs2[i] == bs[i + 1] && bs2[i + 1] == bs[i + 2]);
                assert(bs[i + 1].t.spec_lt(bs[i + 1 + 1].t));
            } else {
                assert(bs2[i] == bs[j - 1] && bs2[i + 1] == bs[j + 1]);
                assert(bs[j - 1].t.wf() && bs[j].t.wf() && bs[j + 1].t.wf());
                assert(bs[j - 1].t.spec_lt(bs[j].t));
                assert(bs[j].t.spec_lt(bs[j + 1].t));
                lemma_lt_trans(bs[j - 1].t, bs[j].t, bs[j + 1].t);
            }
        }
    }
    assert(validate_spec(bs2, segs2) is Ok);
    assert(settled_from(bs2, segs2, allow, 0)) by {
        assert forall|k: int|
            0 <= k < segs2.len() && (#[trigger] segs2[k]) is Rate implies rate_end_spec(bs2, k, segs2[k]->Rate_0, allow)
            == Ok::<_, RetimeError>(bs2[k + 1].s) by {
            if k < j - 1 {
                assert(segs2[k] == segs[k]);
                assert(bs2[k] == bs[k] && bs2[k + 1] == bs[k + 1]);
                assert(segs[k] is Rate);
                lemma_rate_end_local(bs2, bs, segs2, allow, k);
            } else if k >= j {
                assert(segs2[k] == segs[k + 1]);
                assert(bs2[k] == bs[k + 1] && bs2[k + 1] == bs[k + 2]);
                assert(segs[k + 1] is Rate);
                lemma_rate_end_shift(bs2, bs, segs2[k]->Rate_0, allow, k);
            } else {
                assert(stay);
                let v0 = rate_of(segs[j - 1]).v0;
                let v1 = rate_of(segs[j]).v1;
                assert(segs2[k] == RetimeSegment::Rate(RateSegment { v0, v1, ease: Ease::Linear }));
                assert(bs2[k] == bs[j - 1] && bs2[k + 1] == bs[j + 1]);
                let ds = bs[j + 1].s.spec_sub(bs[j - 1].s)->Ok_0;
                lemma_sub_add_cancel(bs[j - 1].s, bs[j + 1].s, ds);
            }
        }
    }
    lemma_settled_fixpoint(bs2, segs2, allow, 0);
}


/// In a strictly increasing list, a later boundary is later in time.
proof fn lemma_increasing_lt(bs: Seq<Boundary>, a: int, b: int)
    requires
        strictly_increasing(bs),
        forall|k: int| 0 <= k < bs.len() ==> (#[trigger] bs[k]).t.d() > 0,
        0 <= a < b < bs.len(),
    ensures
        bs[a].t.spec_lt(bs[b].t),
    decreases b - a,
{
    assert(bs[b - 1].t.spec_lt(bs[b - 1 + 1].t));
    if a < b - 1 {
        lemma_increasing_lt(bs, a, b - 1);
        lemma_lt_trans(bs[a].t, bs[b - 1].t, bs[b].t);
    }
}

/// A list that agrees with a settled store on its first `i + 1` boundaries
/// and first `i` segments recomputes those first `i` steps without changing
/// anything.
proof fn lemma_settled_prefix(
    x: Seq<Boundary>,
    segs2: Seq<RetimeSegment>,
    bs: Seq<Boundary>,
    segs: Seq<RetimeSegment>,
    allow: bool,
    j: nat,
    i: nat,
)
    requires
        bs.len() == segs.len() + 1,
        x.len() == segs2.len() + 1,
        settled_from(bs, segs, allow, 0),
        j <= i < x.len(),
        i < bs.len(),
        forall|k: int| 0 <= k <= i ==> #[trigger] x[k] == bs[k],
        forall|k: int| 0 <= k < i ==> #[trigger] segs2[k] == segs[k],
    ensures
        recompute_from(x, segs2, allow, j) == recompute_from(x, segs2, allow, i),
    decreases i - j,
{
    if j < i {
        match segs2[j as int] {
            RetimeSegment::Cubic(_) => {
                lemma_settled_prefix(x, segs2, bs, segs, allow, j + 1, i);
            },
            RetimeSegment::Rate(seg) => {
                assert(segs2[j as int] == segs[j as int]);
                assert(segs[j as int] is Rate);
                assert(x[j as int] == bs[j as int] && x[j + 1 as int] == bs[j + 1 as int]);
                lemma_rate_end_local(x, bs, segs2, allow, j as int);
                assert(with_source(x, j + 1 as int, x[j + 1 as int].s) =~= x);
                lemma_settled_prefix(x, segs2, bs, segs, allow, j + 1, i);
            },
        }
    }
}

/// Splitting a settled store moves nothing upstream of the cut: every
/// boundary at or before the cut time sits, unchanged, at the same place in
/// the left half.
pub proof fn law_split_keeps_upstream(bs: Seq<Boundary>, segs: Seq<RetimeSegment>, allow: bool, t: Rational)
    requires
        recompute_spec(bs, segs, allow) == (bs, Ok::<(), RetimeError>(())),
        forall|k: int| 0 <= k < bs.len() ==> (#[trigger] bs[k]).t.wf(),
        t.wf(),
        split_spec(bs, segs, allow, t) is Some,
    ensures
        forall|k: int|
            0 <= k < bs.len() && bs[k].t.spec_le(t) ==> k < split_spec(bs, segs, allow, t)->Some_0.0.0.len()
                && #[trigger] split_spec(bs, segs, allow, t)->Some_0.0.0[k] == bs[k],
{
    lemma_recompute_shape(bs, segs, allow);
    lemma_recompute_settles(bs, segs, allow, 0);
    crate::retime::lemma_split_shapes(bs, segs, allow, t);
    let n = segs.len() as int;
    let i = cut_from(bs, t, 0, n)->Some_0;
    lemma_cut_in_range(bs, t, 0, n);
    let lh = split_spec(bs, segs, allow, t)->Some_0.0.0;
    assert forall|k: int| 0 <= k < bs.len() && bs[k].t.spec_le(t) implies k <= i by {
        if k > i {
            lemma_increasing_lt(bs, i + 1, k);
            let (a, b, c) = (bs[i + 1].t, bs[k].t, t);
            if k > i + 1 {
                assert(b.spec_le(c));
                assert(a.spec_lt(b));
                assert(c.spec_lt(a));
                lemma_lt_trans(c, a, b);
            }
        }
    }
    if is_linear_rate(segs[i]) {
        let v0 = rate_of(segs[i]).v0;
        let vat = crate::retime::linear_cut_speed(bs, i, t, v0, rate_of(segs[i]).v1)->Ok_0;
        let lb = bs.subrange(0, i + 1).push(Boundary { t, s: bs[i].s, smooth: false });
        let ls = segs.subrange(0, i).push(RetimeSegment::Rate(RateSegment { v0, v1: vat, ease: Ease::Linear }));
        lemma_recompute_shape(lb, ls, allow);
        assert(validate_spec(lb, ls) is Ok);
        lemma_settled_prefix(lb, ls, bs, segs, allow, 0, i as nat);
        lemma_recompute_from_shape(lb, ls, allow, i as nat);
        assert(lh == recompute_from(lb, ls, allow, 0).0);
    } else {
        let pieces = pieces_spec(bs, segs, i)->Some_0;
        lemma_assemble(pieces, 0, bs[i], t, bs.subrange(0, i + 1), segs.subrange(0, i), None);
        let (eb0, es0, cut) = assemble_from(pieces, 0, bs[i], t, bs.subrange(0, i + 1), segs.subrange(0, i), None)->Some_0;
        let c = cut->Some_0;
        let eb = eb0 + bs.subrange(i + 2, bs.len() as int);
        let es = es0 + segs.subrange(i + 1, segs.len() as int);
        let x = eb.subrange(0, c + 1);
        let xs = es.subrange(0, c);
        lemma_recompute_shape(x, xs, allow);
        assert(validate_spec(x, xs) is Ok);
        assert forall|k: int| 0 <= k <= i implies #[trigger] x[k] == bs[k] by {
            assert(x[k] == eb0[k]);
            assert(bs.subrange(0, i + 1)[k] == bs[k]);
        }
        assert forall|k: int| 0 <= k < i implies #[trigger] xs[k] == segs[k] by {
            assert(xs[k] == es0[k]);
            assert(segs.subrange(0, i)[k] == segs[k]);
        }
        lemma_settled_prefix(x, xs, bs, segs, allow, 0, i as nat);
        lemma_recompute_from_shape(x, xs, allow, i as nat);
        assert(lh == recompute_from(x, xs, allow, 0).0);
    }
}


/// The end of a Rate segment depends only on its start position and on the
/// difference of its two boundary times.
proof fn lemma_rate_end_by_parts(
    x: Seq<Boundary>,
    kx: int,
    y: Seq<Boundary>,
    ky: int,
    seg: RateSegment,
    allow: bool,
)
    requires
        0 <= kx,
        kx + 1 < x.len(),
        0 <= ky,
        ky + 1 < y.len(),
        x[kx].s == y[ky].s,
        x[kx + 1].t.spec_sub(x[kx].t) == y[ky + 1].t.spec_sub(y[ky].t),
    ensures
        rate_end_spec(x, kx, seg, allow) == rate_end_spec(y, ky, seg, allow),
{
}

/// The last piece of a segment's polynomial decomposition ends on the
/// segment's own end boundary.
proof fn lemma_pieces_end(bs: Seq<Boundary>, segs: Seq<RetimeSegment>, i: int)
    requires
        pieces_spec(bs, segs, i) is Some,
    ensures
        pieces_spec(bs, segs, i)->Some_0.len() >= 1,
        pieces_spec(bs, segs, i)->Some_0.last().1 == bs[i + 1],
{
}

/// Splitting a settled store inside a segment that is not a Linear Rate
/// moves nothing downstream of the cut either: the right half ends with the
/// old boundaries after that segment, each moved `t` earlier in local time
/// and keeping its exact source position.
#[verifier::rlimit(40)]
pub proof fn law_split_keeps_downstream(bs: Seq<Boundary>, segs: Seq<RetimeSegment>, allow: bool, t: Rational)
    requires
        recompute_spec(bs, segs, allow) == (bs, Ok::<(), RetimeError>(())),
        forall|k: int| 0 <= k < bs.len() ==> (#[trigger] bs[k]).t.wf(),
        t.wf(),
        split_spec(bs, segs, allow, t) is Some,
        !is_linear_rate(segs[cut_from(bs, t, 0, segs.len() as int)->Some_0]),
    ensures
        ({
            let i = cut_from(bs, t, 0, segs.len() as int)->Some_0;
            let rh = split_spec(bs, segs, allow, t)->Some_0.1.0;
            let down = (bs.len() - i - 1) as int;
            &&& crate::retime::shifted_from(bs, i + 1, t) is Some
            &&& down <= rh.len()
            &&& rh.subrange(rh.len() - down, rh.len() as int) == crate::retime::shifted_from(bs, i + 1, t)->Some_0
        }),
{
    lemma_recompute_shape(bs, segs, allow);
    lemma_recompute_settles(bs, segs, allow, 0);
    crate::retime::lemma_split_shapes(bs, segs, allow, t);
    let n = segs.len() as int;
    let i = cut_from(bs, t, 0, n)->Some_0;
    lemma_cut_in_range(bs, t, 0, n);
    let pieces = pieces_spec(bs, segs, i)->Some_0;
    lemma_pieces_end(bs, segs, i);
    lemma_assemble(pieces, 0, bs[i], t, bs.subrange(0, i + 1), segs.subrange(0, i), None);
    let (eb0, es0, cut) = assemble_from(pieces, 0, bs[i], t, bs.subrange(0, i + 1), segs.subrange(0, i), None)->Some_0;
    let c = cut->Some_0;
    let eb = eb0 + bs.subrange(i + 2, bs.len() as int);
    let es = es0 + segs.subrange(i + 1, segs.len() as int);
    let sh = crate::retime::shifted_from(eb, c + 1, t)->Some_0;
    let rb = seq![Boundary { t: Rational::spec_zero(), s: eb[c].s, smooth: false }] + sh;
    let rs = es.subrange(c, es.len() as int);
    let rh = split_spec(bs, segs, allow, t)->Some_0.1.0;
    assert(rh == recompute_spec(rb, rs, allow).0);
    assert(eb0.last() == bs[i + 1]);
    assert(c < eb0.len() - 1) by {
        if c == eb0.len() - 1 {
            assert(eb0[c].t == t);
            assert(t.spec_lt(bs[i + 1].t));
        }
    }
    // Where the old boundaries sit in the assembled list.
    assert forall|m: int| i + 1 <= m < bs.len() implies #[trigger] eb[eb0.len() - 1 + (m - i - 1)] == bs[m] by {
        if m > i + 1 {
            assert(eb[eb0.len() - 1 + (m - i - 1)] == bs.subrange(i + 2, bs.len() as int)[m - i - 2]);
        } else {
            assert(eb[eb0.len() - 1] == eb0[eb0.len() - 1]);
        }
    }
    lemma_recompute_shape(rb, rs, allow);
    assert(validate_spec(rb, rs) is Ok);
    assert(settled_from(rb, rs, allow, 0)) by {
        assert forall|k: int| 0 <= k < rs.len() && (#[trigger] rs[k]) is Rate implies rate_end_spec(
            rb,
            k,
            rs[k]->Rate_0,
            allow,
        ) == Ok::<_, RetimeError>(rb[k + 1].s) by {
            assert(rs[k] == es[c + k]);
            if c + k < es0.len() {
                assert(es[c + k] == es0[c + k]);
                assert(false);
            }
            let m = i + 1 + (c + k - es0.len());
            assert(es[c + k] == segs[m]);
            assert(k >= 1);
            assert(rb[k] == sh[k - 1]);
            assert(rb[k + 1] == sh[k]);
            assert(eb[c + 1 + (k - 1)] == bs[m]);
            assert(eb[eb0.len() - 1 + (m + 1 - i - 1)] == bs[m + 1]);
            assert(eb[c + 1 + k] == bs[m + 1]);
            assert(eb[c + 1 + (k - 1)].t.spec_sub(t) is Ok);
            assert(eb[c + 1 + k].t.spec_sub(t) is Ok);
            lemma_sub_shift(bs[m + 1].t, bs[m].t, t);
            lemma_rate_end_by_parts(rb, k, bs, m, segs[m]->Rate_0, allow);
            assert(segs[m] is Rate);
        }
    }
    lemma_settled_fixpoint(rb, rs, allow, 0);
    assert(rh == rb);
    let down = (bs.len() - i - 1) as int;
    assert forall|m: int| i + 1 <= m < bs.len() implies (#[trigger] bs[m]).t.spec_sub(t) is Ok by {
        assert(eb[c + 1 + (eb0.len() - 1 - c - 1 + (m - i - 1))] == bs[m]);
    }
    let want = crate::retime::shifted_from(bs, i + 1, t)->Some_0;
    assert(rh.subrange(rh.len() - down, rh.len() as int) =~= want) by {
        assert forall|q: int| 0 <= q < down implies #[trigger] rh.subrange(rh.len() - down, rh.len() as int)[q] == want[q] by {
            let m = i + 1 + q;
            assert(eb[eb0.len() - 1 + (m - i - 1)] == bs[m]);
            assert(rh[rh.len() - down + q] == sh[rh.len() - down + q - 1]);
        }
    }
}


/// What one successful recomputation does, segment by segment: local times
/// and the first boundary stay; a Cubic segment keeps its end position; a
/// Rate segment's end position is its start position plus the segment's
/// advance (speeds clamped at zero while the reverse gate is off, the sum
/// rounded onto the flick grid only where it does not fit).
pub proof fn law_recompute_per_segment(bs: Seq<Boundary>, segs: Seq<RetimeSegment>, allow: bool)
    requires
        recompute_spec(bs, segs, allow).1 is Ok,
    ensures
        ({
            let out = recompute_spec(bs, segs, allow).0;
            &&& out.len() == bs.len()
            &&& bs.len() == segs.len() + 1
            &&& out[0] == bs[0]
            &&& forall|k: int| 0 <= k < bs.len() ==> (#[trigger] out[k]).t == bs[k].t
            &&& forall|i: int| 0 <= i < segs.len() && (#[trigger] segs[i]) is Cubic ==> out[i + 1].s == bs[i + 1].s
            &&& forall|i: int|
                0 <= i < segs.len() && (#[trigger] segs[i]) is Rate ==> rate_end_spec(out, i, segs[i]->Rate_0, allow)
                    == Ok::<Rational, RetimeError>(out[i + 1].s)
        }),
{
    lemma_recompute_shape(bs, segs, allow);
    lemma_recompute_settles(bs, segs, allow, 0);
    let out = recompute_spec(bs, segs, allow).0;
    assert forall|i: int| 0 <= i < segs.len() && (#[trigger] segs[i]) is Cubic implies out[i + 1].s == bs[i + 1].s by {
        lemma_cubic_end_kept(bs, segs, allow, 0, i + 1);
    }
}

/// The flick fallback of a sum lands on the grid point nearest the exact
/// sum: when the exact sum does not fit, the result is `u / F` with `u` the
/// exact sum times `F` rounded half away from zero, so it is within half a
/// grid step (1 / 1 411 200 000 s) of the exact sum.
pub proof fn law_flick_fallback_nearest(a: Rational, b: Rational)
    requires
        a.wf(),
        b.wf(),
        a.spec_add(b) is Err,
        add_fallback_spec(a, b) is Ok,
    ensures
        ({
            let num = a.n() * b.d() + b.n() * a.d();
            let den = a.d() * b.d();
            let u = crate::rational::round_half_away(num * crate::rational::FLICK_DEN, den);
            &&& add_fallback_spec(a, b)->Ok_0.equals_frac(u, crate::rational::FLICK_DEN as int)
            &&& 2 * (num * crate::rational::FLICK_DEN - u * den) <= den
            &&& -den <= 2 * (num * crate::rational::FLICK_DEN - u * den)
        }),
{
    let num = a.n() * b.d() + b.n() * a.d();
    let den = a.d() * b.d();
    let f = crate::rational::FLICK_DEN as int;
    assert(den > 0) by (nonlinear_arith)
        requires
            den == a.d() * b.d(),
            a.d() > 0,
            b.d() > 0,
    ;
    let big = num * f;
    let u = crate::rational::round_half_away(big, den);
    lemma_rounding_near(big, den);
    lemma_from_parts(u, f);
}

/// Rounding `n / d` to the nearest integer, ties away from zero, errs by at
/// most half: `−d ≤ 2·(n − u·d) ≤ d`.
proof fn lemma_rounding_near(n: int, d: int)
    requires
        d > 0,
    ensures
        -d <= 2 * (n - crate::rational::round_half_away(n, d) * d) <= d,
{
    if n < 0 {
        let m = -n;
        let w = (2 * m + d) / (2 * d);
        vstd::arithmetic::div_mod::lemma_fundamental_div_mod(2 * m + d, 2 * d);
        vstd::arithmetic::div_mod::lemma_mod_pos_bound(2 * m + d, 2 * d);
        assert(crate::rational::round_half_away(n, d) == -w);
        assert((2 * d) * w == w * (2 * d)) by (nonlinear_arith);
        assert(-w * d == -(w * d)) by (nonlinear_arith);
        assert(2 * (w * d) == (2 * d) * w) by (nonlinear_arith);
    } else {
        let w = (2 * n + d) / (2 * d);
        vstd::arithmetic::div_mod::lemma_fundamental_div_mod(2 * n + d, 2 * d);
        vstd::arithmetic::div_mod::lemma_mod_pos_bound(2 * n + d, 2 * d);
        assert(2 * (w * d) == (2 * d) * w) by (nonlinear_arith);
    }
}


/// A local time inside a valid store lies in exactly the segment the search
/// finds: that segment starts at or before `t` and ends after it, except that
/// the end of the domain belongs to the last segment. So an edit at a
/// keyframe's time edits the segment that starts there.
pub proof fn law_segment_index_covers(bs: Seq<Boundary>, segs: Seq<RetimeSegment>, t: Rational)
    requires
        validate_spec(bs, segs) is Ok,
        forall|k: int| 0 <= k < bs.len() ==> (#[trigger] bs[k]).t.wf(),
        t.wf(),
        in_domain(bs, segs, t),
    ensures
        segment_index_spec(bs, segs, t) is Some,
        ({
            let i = segment_index_spec(bs, segs, t)->Some_0;
            &&& 0 <= i < segs.len()
            &&& !t.spec_lt(bs[i].t)
            &&& (t == bs[bs.len() - 1].t ==> i == segs.len() - 1)
            &&& (t != bs[bs.len() - 1].t ==> t.spec_lt(bs[i + 1].t))
        }),
{
    lemma_segment_index_covers(bs, segs, t);
    let i = segment_index_spec(bs, segs, t)->Some_0;
    let n = segs.len() as int;
    if t == bs[bs.len() - 1].t && i + 1 < n {
        lemma_increasing_lt(bs, i + 1, n);
        lemma_lt_trans(t, bs[i + 1].t, bs[n].t);
    }
    if t != bs[bs.len() - 1].t && i + 1 == n && !t.spec_lt(bs[n].t) {
        crate::rational::lemma_same_value(t, bs[n].t);
    }
}

} // verus!
