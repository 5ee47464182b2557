//! Beat detection sizing: the STFT window and hop for a sample rate.

use vstd::prelude::*;

verus! {

/// Doubling from `p` until reaching at least `n`.
pub open spec fn double_until(p: nat, n: nat) -> nat
    decreases (if p >= n { 0 } else { n - p }),
{
    if p == 0 || p >= n {
        p
    } else {
        double_until(2 * p, n)
    }
}

/// The smallest power of two at least `n` (1 for 0).
pub open spec fn next_pow2(n: nat) -> nat {
    double_until(1, n)
}

/// The power of two nearest `n`: the smallest power of two at least `n`, or
/// half of it when that half is strictly nearer (ties go up).
pub open spec fn nearest_pow2(n: nat) -> nat {
    let p = next_pow2(n);
    if p >= 2 && n - p / 2 < p - n {
        p / 2
    } else {
        p
    }
}

/// STFT sizing for `rate` Hz: a window of about 43 ms (`43·rate/1000`
/// rounded, halves up) taken to the nearest power of two and kept within
/// 256..=8192, and a quarter-window hop (2048 and 512 at 48 kHz: about
/// 10.7 ms, 93.75 envelope frames a second).
pub open spec fn window_hop_spec(rate: nat) -> (nat, nat) {
    let p = nearest_pow2(((2 * 43 * rate + 1000) / 2000) as nat);
    let window = if p < 256 {
        256
    } else if p > 8192 {
        8192
    } else {
        p
    };
    (window, window / 4)
}

/// The STFT window and hop for `rate` Hz.
pub fn window_hop(rate: u32) -> (r: (usize, usize))
    ensures
        r.0 as nat == window_hop_spec(rate as nat).0,
        r.1 as nat == window_hop_spec(rate as nat).1,
{
    let r64: u64 = rate as u64;
    let target: u64 = (86 * r64 + 1000) / 2000;
    let mut p: u64 = 1;
    while p < target
        invariant
            1 <= p <= 2 * target || p == 1,
            target <= 0x1_0000_0000_0000,
            double_until(p as nat, target as nat) == next_pow2(target as nat),
        decreases 2 * target - p,
    {
        p = 2 * p;
    }
    proof {
        assert(p == next_pow2(target as nat));
    }
    if p >= 2 && target - p / 2 < p - target {
        p = p / 2;
    }
    let window: u64 = if p < 256 {
        256
    } else if p > 8192 {
        8192
    } else {
        p
    };
    (window as usize, (window / 4) as usize)
}

} // verus!
