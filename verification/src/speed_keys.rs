//! Editing a footage layer's speed as keyframes: set the speed at one local
//! time, adding a key there when none exists, and rebuild the store.

use crate::rational::Rational;
use crate::retime::{speed_keys_outcome, speed_keys_safe, speed_keys_spec, Retime, RetimeView};
use crate::retime_laws::law_speed_keys_round_trip;
use vstd::prelude::*;

verus! {

/// `sorted` with `k` inserted after every key at the same time or earlier:
/// one step of a stable sort by time.
pub open spec fn insert_key(sorted: Seq<(Rational, Rational)>, k: (Rational, Rational)) -> Seq<(Rational, Rational)>
    decreases sorted.len(),
{
    if sorted.len() == 0 {
        seq![k]
    } else if k.0.spec_lt(sorted.last().0) {
        insert_key(sorted.drop_last(), k).push(sorted.last())
    } else {
        sorted.push(k)
    }
}

/// `s` stably sorted by time: keys at equal times keep their order.
pub open spec fn sort_keys(s: Seq<(Rational, Rational)>) -> Seq<(Rational, Rational)>
    decreases s.len(),
{
    if s.len() == 0 {
        s
    } else {
        insert_key(sort_keys(s.drop_last()), s.last())
    }
}

/// The first index from `k` on whose key is at time `t`.
pub open spec fn key_index_from(keys: Seq<(Rational, Rational)>, t: Rational, k: int) -> Option<int>
    decreases keys.len() - k,
{
    if k < 0 || k >= keys.len() {
        None
    } else if keys[k].0 == t {
        Some(k)
    } else {
        key_index_from(keys, t, k + 1)
    }
}

/// A key found at time `t` lies in range and is at `t`.
proof fn lemma_key_index_found(keys: Seq<(Rational, Rational)>, t: Rational, k: int)
    requires
        0 <= k,
        key_index_from(keys, t, k) is Some,
    ensures
        k <= key_index_from(keys, t, k)->Some_0 < keys.len(),
        keys[key_index_from(keys, t, k)->Some_0].0 == t,
    decreases keys.len() - k,
{
    if k < keys.len() && keys[k].0 != t {
        lemma_key_index_found(keys, t, k + 1);
    }
}

/// `keys` with the speed at time `t` set to `speed`: the first key at `t`
/// takes the new speed, or, when no key is at `t`, a key is added and the
/// list stably sorted by time.
pub open spec fn upserted_keys(keys: Seq<(Rational, Rational)>, t: Rational, speed: Rational) -> Seq<
    (Rational, Rational),
> {
    match key_index_from(keys, t, 0) {
        Some(i) => keys.update(i, (keys[i].0, speed)),
        None => sort_keys(keys.push((t, speed))),
    }
}

/// The keys an edit starts from: the store's own speed keys when it has
/// them, else full speed at both ends of `[0, duration]`.
pub open spec fn base_speed_keys(retime: Option<RetimeView>, duration: Rational) -> Seq<(Rational, Rational)> {
    let plain = seq![(Rational::spec_zero(), Rational::spec_one()), (duration, Rational::spec_one())];
    match retime {
        Some(x) => match speed_keys_spec(x.boundaries, x.segments) {
            Some(k) => k,
            None => plain,
        },
        None => plain,
    }
}

/// The view of an optional store.
pub open spec fn opt_retime_view(r: Option<Retime>) -> Option<RetimeView> {
    match r {
        Some(x) => Some(x@),
        None => None,
    }
}

/// Insert `k` into `out` after every key at the same time or earlier.
fn insert_key_sorted(out: &mut Vec<(Rational, Rational)>, k: (Rational, Rational))
    ensures
        final(out)@ == insert_key(old(out)@, k),
{
    let ghost v0 = out@;
    let mut p: usize = out.len();
    assert(v0.subrange(0, p as int) =~= v0);
    assert(v0.subrange(p as int, v0.len() as int) =~= Seq::<(Rational, Rational)>::empty());
    assert(insert_key(v0, k) =~= insert_key(v0.subrange(0, p as int), k) + v0.subrange(p as int, v0.len() as int));
    while p > 0 && k.0.lt(&out[p - 1].0)
        invariant
            p <= out.len(),
            out@ == v0,
            insert_key(v0, k) == insert_key(v0.subrange(0, p as int), k) + v0.subrange(p as int, v0.len() as int),
        decreases p,
    {
        let ghost pre = v0.subrange(0, p as int);
        assert(pre.last() == v0[p - 1]);
        assert(pre.drop_last() =~= v0.subrange(0, p - 1));
        assert(insert_key(pre, k) == insert_key(pre.drop_last(), k).push(pre.last()));
        assert(insert_key(v0.subrange(0, p - 1), k).push(v0[p - 1]) + v0.subrange(p as int, v0.len() as int)
            =~= insert_key(v0.subrange(0, p - 1), k) + v0.subrange(p - 1, v0.len() as int));
        p = p - 1;
    }
    proof {
        let pre = v0.subrange(0, p as int);
        if p == 0 {
            assert(insert_key(pre, k) == seq![k]);
        } else {
            assert(pre.last() == v0[p - 1]);
            assert(insert_key(pre, k) == pre.push(k));
        }
    }
    out.insert(p, k);
    assert(out@ =~= v0.subrange(0, p as int).push(k) + v0.subrange(p as int, v0.len() as int));
}

/// `keys` stably sorted by time.
fn sorted_keys(keys: &Vec<(Rational, Rational)>) -> (r: Vec<(Rational, Rational)>)
    ensures
        r@ == sort_keys(keys@),
{
    let mut out: Vec<(Rational, Rational)> = Vec::new();
    for i in 0..keys.len()
        invariant
            out@ == sort_keys(keys@.subrange(0, i as int)),
    {
        proof {
            let a = keys@.subrange(0, i + 1);
            assert(a.drop_last() =~= keys@.subrange(0, i as int));
            assert(a.last() == keys@[i as int]);
        }
        insert_key_sorted(&mut out, keys[i]);
    }
    assert(keys@.subrange(0, keys@.len() as int) =~= keys@);
    out
}

/// The first index whose key is at time `t`.
fn find_key(keys: &Vec<(Rational, Rational)>, t: Rational) -> (r: Option<usize>)
    ensures
        match r {
            Some(i) => key_index_from(keys@, t, 0) == Some(i as int) && i < keys.len(),
            None => key_index_from(keys@, t, 0) is None,
        },
{
    let mut i: usize = 0;
    while i < keys.len()
        invariant
            i <= keys.len(),
            key_index_from(keys@, t, 0) == key_index_from(keys@, t, i as int),
        decreases keys.len() - i,
    {
        if keys[i].0 == t {
            proof {
                lemma_key_index_found(keys@, t, 0);
            }
            return Some(i);
        }
        i = i + 1;
    }
    None
}

/// Set the speed at local time `t` to `speed`, adding a key there when none
/// is at exactly `t`, and rebuild the store from the edited keys (source in
/// at zero). An edit starts from the store's own speed keys, or, when there
/// is no store or its curve is not all linear speed segments, from full
/// speed at both ends of `[0, duration]`. None when the edited keys do not
/// make a store.
pub fn speed_with_key(retime: &Option<Retime>, duration: Rational, t: Rational, speed: Rational) -> (r: Option<
    Retime,
>)
    requires
        retime matches Some(x) ==> speed_keys_safe(x.boundaries@, x.segments@),
    ensures
        speed_keys_outcome(
            Rational::spec_zero(),
            upserted_keys(base_speed_keys(opt_retime_view(*retime), duration), t, speed),
            r,
        ),
{
    let base = match retime {
        Some(x) => x.speed_keyframes(),
        None => None,
    };
    let mut keys: Vec<(Rational, Rational)> = match base {
        Some(k) => k,
        None => vec![(Rational::zero(), Rational::one()), (duration, Rational::one())],
    };
    let ghost k0 = keys@;
    proof {
        assert(k0 == base_speed_keys(opt_retime_view(*retime), duration));
    }
    match find_key(&keys, t) {
        Some(i) => {
            let at = keys[i].0;
            keys.set(i, (at, speed));
        },
        None => {
            keys.push((t, speed));
            keys = sorted_keys(&keys);
        },
    }
    assert(keys@ == upserted_keys(k0, t, speed));
    Retime::from_speed_keyframes(Rational::zero(), keys.as_slice())
}


/// Inserting a key keeps every key already there and adds `k`.
proof fn lemma_insert_key_keeps(sorted: Seq<(Rational, Rational)>, k: (Rational, Rational))
    ensures
        insert_key(sorted, k).contains(k),
        forall|x: (Rational, Rational)| sorted.contains(x) ==> #[trigger] insert_key(sorted, k).contains(x),
    decreases sorted.len(),
{
    let r = insert_key(sorted, k);
    if sorted.len() == 0 {
        assert(r[0] == k);
    } else if k.0.spec_lt(sorted.last().0) {
        let init = sorted.drop_last();
        lemma_insert_key_keeps(init, k);
        let q = insert_key(init, k);
        assert(r == q.push(sorted.last()));
        let w = choose|w: int| 0 <= w < q.len() && q[w] == k;
        assert(r[w] == k);
        assert forall|x: (Rational, Rational)| sorted.contains(x) implies #[trigger] r.contains(x) by {
            let j = choose|j: int| 0 <= j < sorted.len() && sorted[j] == x;
            if j < init.len() {
                assert(init[j] == x);
                assert(init.contains(x));
                assert(q.contains(x));
                let v = choose|v: int| 0 <= v < q.len() && q[v] == x;
                assert(r[v] == x);
            } else {
                assert(r[r.len() - 1] == x);
            }
        }
    } else {
        assert(r == sorted.push(k));
        assert(r[r.len() - 1] == k);
        assert forall|x: (Rational, Rational)| sorted.contains(x) implies #[trigger] r.contains(x) by {
            let j = choose|j: int| 0 <= j < sorted.len() && sorted[j] == x;
            assert(r[j] == x);
        }
    }
}

/// Sorting keeps every key.
proof fn lemma_sort_keys_keeps(s: Seq<(Rational, Rational)>)
    ensures
        forall|x: (Rational, Rational)| s.contains(x) ==> #[trigger] sort_keys(s).contains(x),
    decreases s.len(),
{
    if s.len() > 0 {
        let init = s.drop_last();
        lemma_sort_keys_keeps(init);
        lemma_insert_key_keeps(sort_keys(init), s.last());
        assert forall|x: (Rational, Rational)| s.contains(x) implies #[trigger] sort_keys(s).contains(x) by {
            let j = choose|j: int| 0 <= j < s.len() && s[j] == x;
            if j < init.len() {
                assert(init[j] == x);
                assert(init.contains(x));
            }
        }
    }
}

/// A speed edit reads back: when the edited keys make a store, that store's
/// speed keys are exactly the edited keys, and they hold the speed just set
/// at the time it was set.
pub proof fn law_speed_edit_reads_back(keys: Seq<(Rational, Rational)>, t: Rational, speed: Rational, r: Option<Retime>)
    requires
        speed_keys_outcome(Rational::spec_zero(), upserted_keys(keys, t, speed), r),
        r is Some,
    ensures
        speed_keys_spec(r->Some_0.boundaries@, r->Some_0.segments@) == Some(upserted_keys(keys, t, speed)),
        upserted_keys(keys, t, speed).contains((t, speed)),
{
    let k2 = upserted_keys(keys, t, speed);
    law_speed_keys_round_trip(Rational::spec_zero(), k2, crate::retime::any_negative_speed(k2));
    match key_index_from(keys, t, 0) {
        Some(i) => {
            lemma_key_index_found(keys, t, 0);
            assert(k2[i] == (t, speed));
        },
        None => {
            let pushed = keys.push((t, speed));
            assert(pushed[pushed.len() - 1] == (t, speed));
            lemma_sort_keys_keeps(pushed);
        },
    }
}

} // verus!
