//! Deterministic pseudo-randomness: FNV-1a string hashing, the xorshift64
//! generator, seeded random hypervectors and seeded bit-flip noise.

use vstd::prelude::*;
use crate::hdc::{HVec, WORDS};

verus! {

/// FNV-1a 64-bit offset basis.
pub const FNV_OFFSET: u64 = 14695981039346656037;

/// FNV-1a 64-bit prime.
pub const FNV_PRIME: u64 = 1099511628211;

/// FNV-1a hash of a byte sequence.
pub open spec fn fnv1a_bytes(bs: Seq<u8>) -> u64
    decreases bs.len(),
{
    if bs.len() == 0 {
        FNV_OFFSET
    } else {
        (fnv1a_bytes(bs.drop_last()) ^ (bs.last() as u64)).wrapping_mul(FNV_PRIME)
    }
}

/// FNV-1a hash of the UTF-8 encoding of a string.
pub open spec fn fnv1a_spec(s: Seq<char>) -> u64 {
    fnv1a_bytes(vstd::utf8::encode_utf8(s))
}

/// FNV-1a 64-bit hash of the UTF-8 bytes of `s`.
pub fn fnv1a(s: &str) -> (h: u64)
    ensures
        h == fnv1a_spec(s@),
{
    let bytes = s.as_bytes();
    let mut h: u64 = FNV_OFFSET;
    for i in 0..bytes.len()
        invariant
            bytes@ == vstd::utf8::encode_utf8(s@),
            h == fnv1a_bytes(bytes@.take(i as int)),
    {
        assert(bytes@.take(i + 1).drop_last() =~= bytes@.take(i as int));
        h = (h ^ (bytes[i] as u64)).wrapping_mul(FNV_PRIME);
    }
    assert(bytes@.take(bytes.len() as int) =~= bytes@);
    h
}

/// One step of the xorshift64 generator (shifts 13, 7, 17).
pub open spec fn xs_step(s: u64) -> u64 {
    let a = s ^ (s << 13u64);
    let b = a ^ (a >> 7u64);
    b ^ (b << 17u64)
}

/// The generator state after `n` steps from `s`; the `n`-th output for `n > 0`.
pub open spec fn xs_nth(s: u64, n: nat) -> u64
    decreases n,
{
    if n == 0 {
        s
    } else {
        xs_step(xs_nth(s, (n - 1) as nat))
    }
}

/// The starting state for a seed: the seed itself, or 1 for seed 0.
pub open spec fn seed_state(seed: u64) -> u64 {
    if seed == 0 {
        1
    } else {
        seed
    }
}

/// A xorshift64 generator.
pub struct Xorshift {
    state: u64,
}

impl Xorshift {
    /// The generator's current state.
    pub closed spec fn state(&self) -> u64 {
        self.state
    }

    /// A generator started at `s`.
    pub fn new(s: u64) -> (g: Self)
        ensures
            g.state() == s,
    {
        Xorshift { state: s }
    }

    /// Advances the generator and returns the new state.
    pub fn next(&mut self) -> (r: u64)
        ensures
            r == xs_step(old(self).state()),
            final(self).state() == r,
    {
        let mut s = self.state;
        s = s ^ (s << 13);
        s = s ^ (s >> 7);
        s = s ^ (s << 17);
        self.state = s;
        s
    }
}

/// The xorshift generator seeded with `s`.
pub fn xorshift(s: u64) -> (g: Xorshift)
    ensures
        g.state() == s,
{
    Xorshift::new(s)
}

/// The random hypervector of a seed: word `i` is output `i + 1` of the
/// generator started from `max(seed, 1)`.
pub open spec fn random_hv_spec(seed: u64) -> Seq<u64> {
    Seq::new(64, |i: int| xs_nth(seed_state(seed), (i + 1) as nat))
}

/// A pseudo-random hypervector determined by `seed`.
pub fn random_hv(seed: u64) -> (r: HVec)
    ensures
        r@ == random_hv_spec(seed),
{
    let s0: u64 = if seed > 1 { seed } else { 1 };
    let mut rng = xorshift(s0);
    let mut hv: HVec = [0u64; 64];
    for i in 0..WORDS
        invariant
            s0 == seed_state(seed),
            rng.state() == xs_nth(s0, i as nat),
            forall|j: int| 0 <= j < i ==> hv[j] == xs_nth(s0, (j + 1) as nat),
    {
        hv[i] = rng.next();
    }
    assert(hv@ =~= random_hv_spec(seed));
    hv
}

/// The noise mask of word `w`, built from its lowest `b` bits: bit `j` is set
/// when draw number `64 * w + j + 1` of the generator started at `s0` is below
/// `flip`.
pub open spec fn flip_mask(s0: u64, flip: u64, w: int, b: u64) -> u64
    decreases b,
{
    if b == 0 {
        0u64
    } else {
        flip_mask(s0, flip, w, (b - 1) as u64) | if xs_nth(s0, (w * 64 + b) as nat) < flip {
            1u64 << ((b - 1) as u64)
        } else {
            0u64
        }
    }
}

/// `hv` with the bits of the seeded noise mask flipped.
pub open spec fn perturb_spec(hv: Seq<u64>, flip: u64, seed: u64) -> Seq<u64> {
    Seq::new(64, |w: int| hv[w] ^ flip_mask(seed_state(seed), flip, w, 64))
}

/// Flips each bit of `hv` independently when the next generator draw is below
/// `flip_prob` (so `flip_prob / 2^64` is the flip rate). The draws come from
/// the generator seeded with `max(seed, 1)`, word by word, low bit first.
pub fn perturb(hv: &HVec, flip_prob: u64, seed: u64) -> (r: HVec)
    ensures
        r@ == perturb_spec(hv@, flip_prob, seed),
{
    let s0: u64 = if seed > 1 { seed } else { 1 };
    let mut rng = xorshift(s0);
    let mut r: HVec = *hv;
    for w in 0..WORDS
        invariant
            s0 == seed_state(seed),
            rng.state() == xs_nth(s0, (w * 64) as nat),
            forall|j: int| 0 <= j < w ==> r[j] == hv[j] ^ flip_mask(s0, flip_prob, j, 64),
            forall|j: int| w <= j < 64 ==> r[j] == hv[j],
    {
        let mut mask: u64 = 0;
        for b in 0..64u64
            invariant
                w < 64,
                rng.state() == xs_nth(s0, (w * 64 + b) as nat),
                mask == flip_mask(s0, flip_prob, w as int, b),
        {
            let d = rng.next();
            if d < flip_prob {
                mask = mask | (1u64 << b);
            } else {
                assert(mask | 0u64 == mask) by (bit_vector);
            }
        }
        r[w] = r[w] ^ mask;
    }
    assert(r@ =~= perturb_spec(hv@, flip_prob, seed));
    r
}

// ─── Laws ────────────────────────────────────────────────────────────────────

proof fn lemma_zero_mask(s0: u64, w: int, b: u64)
    ensures
        flip_mask(s0, 0, w, b) == 0,
    decreases b,
{
    if b > 0 {
        lemma_zero_mask(s0, w, (b - 1) as u64);
        assert(0u64 | 0u64 == 0u64) by (bit_vector);
    }
}

/// With flip threshold 0 no bit is flipped.
pub proof fn law_perturb_zero_rate(hv: Seq<u64>, seed: u64)
    requires
        hv.len() == 64,
    ensures
        perturb_spec(hv, 0, seed) == hv,
{
    assert forall|w: int| 0 <= w < 64 implies #[trigger] perturb_spec(hv, 0, seed)[w] == hv[w] by {
        lemma_zero_mask(seed_state(seed), w, 64);
        let x = hv[w];
        assert(x ^ 0u64 == x) by (bit_vector);
    }
    assert(perturb_spec(hv, 0, seed) =~= hv);
}

/// Perturbing twice with the same threshold and seed restores the vector.
pub proof fn law_perturb_involution(hv: Seq<u64>, flip: u64, seed: u64)
    requires
        hv.len() == 64,
    ensures
        perturb_spec(perturb_spec(hv, flip, seed), flip, seed) == hv,
{
    assert forall|w: int| 0 <= w < 64 implies #[trigger] perturb_spec(perturb_spec(hv, flip, seed), flip, seed)[w] == hv[w] by {
        let x = hv[w];
        let m = flip_mask(seed_state(seed), flip, w, 64);
        assert((x ^ m) ^ m == x) by (bit_vector);
    }
    assert(perturb_spec(perturb_spec(hv, flip, seed), flip, seed) =~= hv);
}

} // verus!
