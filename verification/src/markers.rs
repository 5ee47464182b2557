//! Timeline markers: user cue points, chapters, and detected beats. Beat
//! markers carry provenance so that regenerating them replaces only the
//! beat-kind ones and never disturbs a cue placed by hand.

use crate::rational::Rational;
use crate::time::CompTime;
use vstd::prelude::*;

verus! {

/// Where a marker came from.
#[derive(Debug, Clone, Copy, PartialEq, Eq, Structural)]
pub enum MarkerKind {
    /// Placed by the editor.
    User,
    /// Detected from audio, with a confidence in 0..1 (`f32` bit pattern).
    Beat { confidence: u32 },
    /// A chapter division.
    Chapter,
}

impl Default for MarkerKind {
    fn default() -> (r: Self)
        ensures
            r == MarkerKind::User,
    {
        MarkerKind::User
    }
}

/// A flag at a moment on its owner's timeline.
#[derive(Debug, PartialEq)]
pub struct Marker {
    pub id: u128,
    /// Time on the owner's timebase.
    pub time: CompTime,
    /// A spanning marker's length, if any.
    pub duration: Option<Rational>,
    pub label: String,
    pub kind: MarkerKind,
}

/// What a marker holds.
pub struct MarkerView {
    pub id: u128,
    pub time: CompTime,
    pub duration: Option<Rational>,
    pub label: Seq<char>,
    pub kind: MarkerKind,
}

impl View for Marker {
    type V = MarkerView;

    open spec fn view(&self) -> MarkerView {
        MarkerView { id: self.id, time: self.time, duration: self.duration, label: self.label@, kind: self.kind }
    }
}

impl Clone for Marker {
    fn clone(&self) -> (r: Self)
        ensures
            r@ == self@,
    {
        Marker { id: self.id, time: self.time, duration: self.duration, label: self.label.clone(), kind: self.kind }
    }
}

impl Marker {
    /// A plain user marker at `time`.
    pub fn user(id: u128, time: Rational) -> (r: Marker)
        ensures
            r@ == (MarkerView { id, time: CompTime(time), duration: None, label: Seq::empty(), kind: MarkerKind::User }),
    {
        Marker { id, time: CompTime(time), duration: None, label: String::new(), kind: MarkerKind::User }
    }

    /// A detected beat marker at `time` with `confidence` (`f32` bit pattern).
    pub fn beat(id: u128, time: Rational, confidence: u32) -> (r: Marker)
        ensures
            r@ == (MarkerView {
                id,
                time: CompTime(time),
                duration: None,
                label: Seq::empty(),
                kind: MarkerKind::Beat { confidence },
            }),
    {
        Marker { id, time: CompTime(time), duration: None, label: String::new(), kind: MarkerKind::Beat { confidence } }
    }

    /// True for a detected beat marker.
    pub fn is_beat(&self) -> (r: bool)
        ensures
            r == (self.kind is Beat),
    {
        matches!(self.kind, MarkerKind::Beat { .. })
    }
}

/// `sorted` with `m` inserted after every marker at the same time or
/// earlier: one step of a stable sort by time.
pub open spec fn insert_by_time(sorted: Seq<MarkerView>, m: MarkerView) -> Seq<MarkerView>
    decreases sorted.len(),
{
    if sorted.len() == 0 {
        seq![m]
    } else if m.time.0.spec_lt(sorted.last().time.0) {
        insert_by_time(sorted.drop_last(), m).push(sorted.last())
    } else {
        sorted.push(m)
    }
}

/// `s` stably sorted by time: markers at equal times keep their order.
pub open spec fn sort_by_time(s: Seq<MarkerView>) -> Seq<MarkerView>
    decreases s.len(),
{
    if s.len() == 0 {
        s
    } else {
        insert_by_time(sort_by_time(s.drop_last()), s.last())
    }
}

/// The views of a marker list.
pub open spec fn marker_views(s: Seq<Marker>) -> Seq<MarkerView> {
    s.map_values(|m: Marker| m@)
}

/// The markers that are not beats, in order.
pub open spec fn non_beats(s: Seq<MarkerView>) -> Seq<MarkerView> {
    s.filter(|m: MarkerView| !(m.kind is Beat))
}

/// Marker `a` is at the same time as `b` or earlier.
pub open spec fn time_le(a: MarkerView, b: MarkerView) -> bool {
    !b.time.0.spec_lt(a.time.0)
}

/// Markers appear in time order.
pub open spec fn sorted_by_time(s: Seq<MarkerView>) -> bool {
    forall|i: int, j: int| 0 <= i < j < s.len() ==> time_le(#[trigger] s[i], #[trigger] s[j])
}

/// Every marker time is a rational in lowest terms.
pub open spec fn times_wf(s: Seq<MarkerView>) -> bool {
    forall|i: int| 0 <= i < s.len() ==> (#[trigger] s[i]).time.0.wf()
}

/// Time order is transitive.
proof fn lemma_time_le_trans(a: MarkerView, b: MarkerView, c: MarkerView)
    requires
        a.time.0.wf(),
        b.time.0.wf(),
        c.time.0.wf(),
        time_le(a, b),
        time_le(b, c),
    ensures
        time_le(a, c),
{
    let (an, ad, bn, bd, cn, cd) = (a.time.0.n(), a.time.0.d(), b.time.0.n(), b.time.0.d(), c.time.0.n(), c.time.0.d());
    assert(an * cd <= cn * ad) by (nonlinear_arith)
        requires
            ad > 0,
            bd > 0,
            cd > 0,
            an * bd <= bn * ad,
            bn * cd <= cn * bd,
    {
        assert(an * bd * cd <= bn * ad * cd);
        assert(bn * cd * ad <= cn * bd * ad);
        assert(an * cd * bd <= cn * ad * bd);
    }
}

/// Inserting into a time-sorted list keeps it sorted, adds exactly `m`, and
/// brings in nothing else.
proof fn lemma_insert_by_time(sorted: Seq<MarkerView>, m: MarkerView)
    requires
        sorted_by_time(sorted),
        times_wf(sorted),
        m.time.0.wf(),
    ensures
        sorted_by_time(insert_by_time(sorted, m)),
        insert_by_time(sorted, m).to_multiset() == sorted.to_multiset().insert(m),
        insert_by_time(sorted, m).len() == sorted.len() + 1,
        forall|i: int|
            0 <= i < insert_by_time(sorted, m).len() ==> #[trigger] insert_by_time(sorted, m)[i] == m
                || sorted.contains(insert_by_time(sorted, m)[i]),
    decreases sorted.len(),
{
    broadcast use vstd::seq_lib::group_to_multiset_ensures;

    let r = insert_by_time(sorted, m);
    if sorted.len() == 0 {
        assert(r =~= seq![m]);
        assert(seq![m] =~= Seq::<MarkerView>::empty().push(m));
    } else {
        let last = sorted.last();
        let init = sorted.drop_last();
        assert(sorted =~= init.push(last));
        assert(sorted_by_time(init));
        assert(times_wf(init));
        if m.time.0.spec_lt(last.time.0) {
            lemma_insert_by_time(init, m);
            let q = insert_by_time(init, m);
            assert(r == q.push(last));
            assert forall|i: int| 0 <= i < q.len() implies time_le(#[trigger] q[i], last) by {
                if q[i] == m {
                } else {
                    let k = choose|k: int| 0 <= k < init.len() && init[k] == q[i];
                    assert(sorted[k] == init[k]);
                }
            }
            assert forall|i: int, j: int| 0 <= i < j < r.len() implies time_le(#[trigger] r[i], #[trigger] r[j]) by {
                if j == r.len() - 1 {
                    assert(r[j] == last);
                    assert(r[i] == q[i]);
                } else {
                    assert(r[i] == q[i] && r[j] == q[j]);
                }
            }
            assert forall|i: int| 0 <= i < r.len() implies #[trigger] r[i] == m || sorted.contains(r[i]) by {
                if i < q.len() {
                    if q[i] != m {
                        let k = choose|k: int| 0 <= k < init.len() && init[k] == q[i];
                        assert(sorted[k] == q[i]);
                    }
                } else {
                    assert(sorted[sorted.len() - 1] == r[i]);
                }
            }
        } else {
            assert(r == sorted.push(m));
            assert forall|i: int, j: int| 0 <= i < j < r.len() implies time_le(#[trigger] r[i], #[trigger] r[j]) by {
                if j == r.len() - 1 {
                    if i < sorted.len() - 1 {
                        assert(time_le(sorted[i], sorted[sorted.len() - 1]));
                        lemma_time_le_trans(sorted[i], last, m);
                    }
                }
            }
            assert forall|i: int| 0 <= i < r.len() implies #[trigger] r[i] == m || sorted.contains(r[i]) by {
                if i < sorted.len() {
                    assert(sorted[i] == r[i]);
                }
            }
        }
    }
}

/// A stable sort by time is sorted and a permutation of its input.
proof fn lemma_sort_by_time(s: Seq<MarkerView>)
    requires
        times_wf(s),
    ensures
        sorted_by_time(sort_by_time(s)),
        sort_by_time(s).to_multiset() == s.to_multiset(),
        times_wf(sort_by_time(s)),
        sort_by_time(s).len() == s.len(),
    decreases s.len(),
{
    broadcast use vstd::seq_lib::group_to_multiset_ensures;

    if s.len() > 0 {
        let init = s.drop_last();
        assert(s =~= init.push(s.last()));
        assert(times_wf(init));
        lemma_sort_by_time(init);
        let q = sort_by_time(init);
        lemma_insert_by_time(q, s.last());
        let r = sort_by_time(s);
        assert forall|i: int| 0 <= i < r.len() implies (#[trigger] r[i]).time.0.wf() by {
            if r[i] != s.last() {
                let k = choose|k: int| 0 <= k < q.len() && q[k] == r[i];
                assert(q[k].time.0.wf());
            }
        }
    }
}

/// The markers of `s` at time `t`, in order.
pub open spec fn at_time(s: Seq<MarkerView>, t: Rational) -> Seq<MarkerView> {
    s.filter(|m: MarkerView| m.time.0 == t)
}

/// Inserting `m` leaves the markers at any one time in their order, with `m`
/// last among those at its own time.
proof fn lemma_insert_keeps_ties(sorted: Seq<MarkerView>, m: MarkerView, t: Rational)
    ensures
        at_time(insert_by_time(sorted, m), t) == if m.time.0 == t {
            at_time(sorted, t).push(m)
        } else {
            at_time(sorted, t)
        },
    decreases sorted.len(),
{
    reveal(Seq::filter);
    let r = insert_by_time(sorted, m);
    let p = |x: MarkerView| x.time.0 == t;
    if sorted.len() == 0 {
        assert(r.drop_last() =~= Seq::<MarkerView>::empty());
        assert(r.last() == m);
        assert(at_time(sorted, t) =~= Seq::<MarkerView>::empty());
        assert(Seq::<MarkerView>::empty().filter(p) =~= Seq::<MarkerView>::empty());
    } else {
        let last = sorted.last();
        let init = sorted.drop_last();
        assert(at_time(sorted, t) == if p(last) { at_time(init, t).push(last) } else { at_time(init, t) });
        if m.time.0.spec_lt(last.time.0) {
            lemma_insert_keeps_ties(init, m, t);
            let q = insert_by_time(init, m);
            assert(r == q.push(last));
            assert(r.drop_last() =~= q);
            assert(r.last() == last);
            assert(m.time.0 != last.time.0);
            assert(at_time(r, t) == if p(last) { at_time(q, t).push(last) } else { at_time(q, t) });
        } else {
            assert(r == sorted.push(m));
            assert(r.drop_last() =~= sorted);
            assert(r.last() == m);
            assert(at_time(r, t) == if p(m) { at_time(sorted, t).push(m) } else { at_time(sorted, t) });
        }
    }
}

/// A stable sort keeps the markers at any one time in their input order.
proof fn lemma_sort_keeps_ties(s: Seq<MarkerView>, t: Rational)
    ensures
        at_time(sort_by_time(s), t) == at_time(s, t),
    decreases s.len(),
{
    reveal(Seq::filter);
    if s.len() > 0 {
        let init = s.drop_last();
        lemma_sort_keeps_ties(init, t);
        lemma_insert_keeps_ties(sort_by_time(init), s.last(), t);
    }
}

/// Regenerating beats keeps every user and chapter marker, drops every old
/// beat, adds exactly the fresh beats, and leaves the list in time order;
/// markers at the same time keep their order (kept markers first, then the
/// fresh beats, each as given).
pub proof fn law_regenerated_beats(existing: Seq<MarkerView>, beats: Seq<MarkerView>)
    requires
        times_wf(existing),
        times_wf(beats),
    ensures
        sorted_by_time(sort_by_time(non_beats(existing) + beats)),
        sort_by_time(non_beats(existing) + beats).to_multiset() == non_beats(existing).to_multiset().add(
            beats.to_multiset(),
        ),
        forall|t: Rational|
            #[trigger] at_time(sort_by_time(non_beats(existing) + beats), t) == at_time(non_beats(existing) + beats, t),
{
    assert forall|t: Rational|
        #[trigger] at_time(sort_by_time(non_beats(existing) + beats), t) == at_time(non_beats(existing) + beats, t) by {
        lemma_sort_keeps_ties(non_beats(existing) + beats, t);
    }
    broadcast use vstd::seq_lib::group_to_multiset_ensures;

    let kept = non_beats(existing);
    assert(times_wf(kept)) by {
        assert forall|i: int| 0 <= i < kept.len() implies (#[trigger] kept[i]).time.0.wf() by {
            assert(kept.contains(kept[i]));
            existing.lemma_filter_contains_rev(|m: MarkerView| !(m.kind is Beat), kept[i]);
            assert(existing.contains(kept[i]));
            let k = choose|k: int| 0 <= k < existing.len() && existing[k] == kept[i];
            assert(existing[k].time.0.wf());
        }
    }
    let all = kept + beats;
    assert(times_wf(all)) by {
        assert forall|i: int| 0 <= i < all.len() implies (#[trigger] all[i]).time.0.wf() by {
            if i < kept.len() {
                assert(all[i] == kept[i]);
            } else {
                assert(all[i] == beats[i - kept.len()]);
            }
        }
    }
    lemma_sort_by_time(all);
    vstd::seq_lib::lemma_multiset_commutative(kept, beats);
}

/// Insert `m` into the time-sorted list `out` after every marker at the same
/// time or earlier.
fn insert_sorted(out: &mut Vec<Marker>, m: Marker)
    ensures
        marker_views(final(out)@) == insert_by_time(marker_views(old(out)@), m@),
{
    let ghost v0 = marker_views(out@);
    let mut p: usize = out.len();
    assert(v0.subrange(0, p as int) =~= v0);
    assert(v0.subrange(p as int, v0.len() as int) =~= Seq::<MarkerView>::empty());
    assert(insert_by_time(v0, m@) =~= insert_by_time(v0.subrange(0, p as int), m@) + v0.subrange(p as int, v0.len() as int));
    while p > 0 && m.time.0.lt(&out[p - 1].time.0)
        invariant
            p <= out.len(),
            out@ == old(out)@,
            v0 == marker_views(out@),
            insert_by_time(v0, m@) == insert_by_time(v0.subrange(0, p as int), m@) + v0.subrange(p as int, v0.len() as int),
        decreases p,
    {
        let ghost pre = v0.subrange(0, p as int);
        assert(pre.last() == v0[p - 1]);
        assert(pre.drop_last() =~= v0.subrange(0, p - 1));
        assert(insert_by_time(pre, m@) == insert_by_time(pre.drop_last(), m@).push(pre.last()));
        assert(insert_by_time(v0.subrange(0, p - 1), m@).push(v0[p - 1]) + v0.subrange(p as int, v0.len() as int)
            =~= insert_by_time(v0.subrange(0, p - 1), m@) + v0.subrange(p - 1, v0.len() as int));
        p = p - 1;
    }
    proof {
        let pre = v0.subrange(0, p as int);
        if p == 0 {
            assert(insert_by_time(pre, m@) == seq![m@]);
        } else {
            assert(pre.last() == v0[p - 1]);
            assert(insert_by_time(pre, m@) == pre.push(m@));
        }
    }
    let ghost mv = m@;
    out.insert(p, m);
    assert(marker_views(out@) =~= v0.subrange(0, p as int).push(mv) + v0.subrange(p as int, v0.len() as int));
}

/// Merge freshly detected `beats` into `existing`, replacing only the previous
/// beat markers (user and chapter markers are kept), stably sorted by time.
pub fn with_regenerated_beats(existing: &[Marker], beats: Vec<Marker>) -> (r: Vec<Marker>)
    ensures
        marker_views(r@) == sort_by_time(non_beats(marker_views(existing@)) + marker_views(beats@)),
{
    let mut input: Vec<Marker> = Vec::new();
    for i in 0..existing.len()
        invariant
            marker_views(input@) == non_beats(marker_views(existing@.subrange(0, i as int))),
    {
        proof {
            reveal(Seq::filter);
            let a = marker_views(existing@.subrange(0, i + 1));
            assert(a.drop_last() =~= marker_views(existing@.subrange(0, i as int)));
            assert(a.last() == existing@[i as int]@);
        }
        if !existing[i].is_beat() {
            input.push(existing[i].clone());
        }
        assert(marker_views(input@) =~= non_beats(marker_views(existing@.subrange(0, i + 1))));
    }
    assert(existing@.subrange(0, existing@.len() as int) =~= existing@);
    let ghost head = marker_views(input@);
    for i in 0..beats.len()
        invariant
            marker_views(input@) == head + marker_views(beats@.subrange(0, i as int)),
    {
        let c = beats[i].clone();
        let ghost before = input@;
        assert(marker_views(before).len() == before.len());
        assert(marker_views(beats@.subrange(0, i as int)).len() == i);
        input.push(c);
        assert(input@ == before.push(c));
        assert(marker_views(input@) =~= head + marker_views(beats@.subrange(0, i + 1))) by {
            assert forall|k: int| 0 <= k < marker_views(input@).len() implies #[trigger] marker_views(input@)[k]
                == (head + marker_views(beats@.subrange(0, i + 1)))[k] by {
                if k < before.len() {
                    assert(marker_views(before)[k] == marker_views(input@)[k]);
                } else {
                    assert(k == head.len() + i);
                    assert(input@[k] == c);
                    assert(beats@.subrange(0, i + 1)[i as int] == beats@[i as int]);
                    assert(marker_views(beats@.subrange(0, i + 1))[i as int] == beats@[i as int]@);
                    assert(c@ == beats@[i as int]@);
                }
            }
        }
    }
    assert(beats@.subrange(0, beats@.len() as int) =~= beats@);
    let ghost all = marker_views(input@);
    let mut out: Vec<Marker> = Vec::new();
    for i in 0..input.len()
        invariant
            all == marker_views(input@),
            marker_views(out@) == sort_by_time(all.subrange(0, i as int)),
    {
        proof {
            let a = all.subrange(0, i + 1);
            assert(a.drop_last() =~= all.subrange(0, i as int));
            assert(a.last() == input@[i as int]@);
        }
        insert_sorted(&mut out, input[i].clone());
    }
    assert(all.subrange(0, all.len() as int) =~= all);
    out
}

} // verus!
