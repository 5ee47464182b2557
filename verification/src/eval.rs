//! Content-hash frame keys: everything that could change a rendered frame's
//! pixels is written into one byte stream and hashed with BLAKE3; the first
//! 16 bytes of the digest, read little-endian, address the frame in the
//! cache. Equal keys mean the same picture.

use crate::model::BlendMode;
use vstd::prelude::*;

verus! {

/// Bumped whenever any rendering algorithm's output changes, so every frame
/// keyed under an older version stops being addressed.
pub const ALGO_VERSION: u32 = 1;

/// A 128-bit content hash addressing one rendered comp frame.
#[derive(Debug, Clone, Copy, PartialEq, Eq, Hash, PartialOrd, Ord, Structural)]
pub struct FrameKey(pub u128);

/// The quality axis of the key: the same frame at half preview resolution is
/// a different cache entry.
#[derive(Debug, Clone, Copy, PartialEq, Eq, Structural)]
pub struct Quality {
    /// Preview resolution divisor (1 = full, 2 = half, …).
    pub divisor: u32,
}

impl Default for Quality {
    fn default() -> (r: Self)
        ensures
            r == (Quality { divisor: 1 }),
    {
        Quality { divisor: 1 }
    }
}

/// Stable one-byte tag per blend mode; a value is never reused.
pub fn blend_tag(b: BlendMode) -> (r: u8)
    ensures
        r == match b {
            BlendMode::Normal => 0u8,
            BlendMode::Add => 1u8,
            BlendMode::Multiply => 2u8,
            BlendMode::Screen => 3u8,
            BlendMode::Overlay => 4u8,
            BlendMode::SoftLight => 5u8,
            BlendMode::HardLight => 6u8,
            BlendMode::Lighten => 7u8,
            BlendMode::Darken => 8u8,
        },
{
    match b {
        BlendMode::Normal => 0,
        BlendMode::Add => 1,
        BlendMode::Multiply => 2,
        BlendMode::Screen => 3,
        BlendMode::Overlay => 4,
        BlendMode::SoftLight => 5,
        BlendMode::HardLight => 6,
        BlendMode::Lighten => 7,
        BlendMode::Darken => 8,
    }
}

/// The BLAKE3 digest of `input`.
pub uninterp spec fn blake3_digest(input: Seq<u8>) -> Seq<u8>;

/// BLAKE3 of `input`.
///
/// Calls `blake3::hash` and copies out `Hash::as_bytes`; claimed: the 32
/// bytes are the crate's BLAKE3 digest of the input, a function of the input
/// alone (named `blake3_digest`).
#[verifier::external_body]
fn blake3_hash(input: &[u8]) -> (r: [u8; 32])
    ensures
        r@ == blake3_digest(input@),
{
    *blake3::hash(input).as_bytes()
}

/// `256^n`.
pub open spec fn pow256(n: nat) -> nat
    decreases n,
{
    if n == 0 {
        1
    } else {
        256 * pow256((n - 1) as nat)
    }
}

/// The little-endian value of a byte sequence.
pub open spec fn le_value(s: Seq<u8>) -> nat
    decreases s.len(),
{
    if s.len() == 0 {
        0
    } else {
        s[0] as nat + 256 * le_value(s.drop_first())
    }
}

/// A little-endian value is below `256^len`.
proof fn lemma_le_bound(s: Seq<u8>)
    ensures
        le_value(s) < pow256(s.len()),
    decreases s.len(),
{
    if s.len() > 0 {
        lemma_le_bound(s.drop_first());
        assert(le_value(s.drop_first()) + 1 <= pow256((s.len() - 1) as nat));
        assert(256 * (le_value(s.drop_first()) + 1) <= 256 * pow256((s.len() - 1) as nat)) by (nonlinear_arith)
            requires
                le_value(s.drop_first()) + 1 <= pow256((s.len() - 1) as nat),
        ;
    }
}

/// The frame key a digest addresses: its first 16 bytes, little-endian.
pub fn key_of_digest(digest: &[u8; 32]) -> (k: FrameKey)
    ensures
        k.0 == le_value(digest@.subrange(0, 16)),
{
    let ghost d = digest@;
    let mut acc: u128 = 0;
    let mut i: usize = 16;
    assert(d.subrange(16, 16) =~= Seq::<u8>::empty());
    while i > 0
        invariant
            i <= 16,
            d == digest@,
            d.len() == 32,
            acc as nat == le_value(d.subrange(i as int, 16)),
        decreases i,
    {
        let b = digest[i - 1];
        proof {
            let tail = d.subrange(i as int, 16);
            let s = d.subrange(i - 1, 16);
            assert(s.drop_first() =~= tail);
            assert(s[0] == b);
            lemma_le_bound(s);
            lemma_pow256_16();
            lemma_pow256_mono((17 - i) as nat, 16);
        }
        acc = acc * 256 + b as u128;
        i = i - 1;
    }
    assert(d.subrange(0, 16) =~= d.subrange(0, 16));
    FrameKey(acc)
}

/// `256^16 = 2^128`.
proof fn lemma_pow256_16()
    ensures
        pow256(16) == 0x1_0000_0000_0000_0000_0000_0000_0000_0000,
{
    reveal_with_fuel(pow256, 17);
}

/// Powers of 256 grow with the exponent.
proof fn lemma_pow256_mono(a: nat, b: nat)
    requires
        a <= b,
    ensures
        pow256(a) <= pow256(b),
    decreases b - a,
{
    if a < b {
        lemma_pow256_mono(a, (b - 1) as nat);
        assert(pow256(b) == 256 * pow256((b - 1) as nat));
    }
}

/// The content-hash key of a frame whose content is written out as `stream`:
/// BLAKE3 of the stream, first 16 bytes little-endian.
pub fn frame_key(stream: &[u8]) -> (k: FrameKey)
    ensures
        k.0 == le_value(blake3_digest(stream@).subrange(0, 16)),
{
    let digest = blake3_hash(stream);
    key_of_digest(&digest)
}

} // verus!
