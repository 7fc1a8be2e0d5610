//! Hypervectors of 4096 bits held as 64 words, and their algebra:
//! binding (XOR), bundling (bitwise majority), permutation (rotation) and
//! similarity (number of agreeing bits).

use vstd::prelude::*;

verus! {

/// Number of 64-bit words in a hypervector.
pub const WORDS: usize = 64;

/// Number of bits in a hypervector.
pub const BITS: u32 = 4096;

/// A 4096-bit hypervector.
pub type HVec = [u64; 64];

/// Bit `b` of the word `x`.
pub open spec fn bit(x: u64, b: u64) -> bool {
    (x >> b) & 1u64 == 1u64
}

/// The all-zero hypervector.
pub open spec fn zero_hv() -> Seq<u64> {
    Seq::new(64, |i: int| 0u64)
}

/// Word-wise exclusive or of two hypervectors.
pub open spec fn bind_spec(a: Seq<u64>, b: Seq<u64>) -> Seq<u64> {
    Seq::new(64, |i: int| a[i] ^ b[i])
}

/// Binds two hypervectors (bitwise XOR).
pub fn bind(a: &HVec, b: &HVec) -> (r: HVec)
    ensures
        r@ == bind_spec(a@, b@),
{
    let mut r: HVec = [0u64; 64];
    for i in 0..WORDS
        invariant
            forall|j: int| 0 <= j < i ==> r[j] == a[j] ^ b[j],
    {
        r[i] = a[i] ^ b[i];
    }
    assert(r@ =~= bind_spec(a@, b@));
    r
}

// ─── Bundling ────────────────────────────────────────────────────────────────

/// Number of the first `k` vectors whose bit `b` of word `w` is set.
pub open spec fn votes(vecs: Seq<Seq<u64>>, w: int, b: u64, k: int) -> nat
    decreases k,
{
    if k <= 0 {
        0
    } else {
        votes(vecs, w, b, k - 1) + if bit(vecs[k - 1][w], b) { 1nat } else { 0nat }
    }
}

/// Whether bit `b` of word `w` is set in at least half (rounded up) of `vecs`.
pub open spec fn majority(vecs: Seq<Seq<u64>>, w: int, b: u64) -> bool {
    votes(vecs, w, b, vecs.len() as int) >= (vecs.len() + 1) / 2
}

/// The word `w` of the majority vector, built from its lowest `b` bits.
pub open spec fn majority_word(vecs: Seq<Seq<u64>>, w: int, b: u64) -> u64
    decreases b,
{
    if b == 0 {
        0u64
    } else {
        majority_word(vecs, w, (b - 1) as u64) | if majority(vecs, w, (b - 1) as u64) {
            1u64 << ((b - 1) as u64)
        } else {
            0u64
        }
    }
}

/// Bitwise majority of a list of hypervectors; the zero vector for an empty list.
pub open spec fn bundle_spec(vecs: Seq<Seq<u64>>) -> Seq<u64> {
    if vecs.len() == 0 {
        zero_hv()
    } else {
        Seq::new(64, |w: int| majority_word(vecs, w, 64))
    }
}

/// The views of a list of hypervectors.
pub open spec fn hv_views(vecs: Seq<HVec>) -> Seq<Seq<u64>> {
    vecs.map_values(|h: HVec| h@)
}

fn count_votes(vecs: &[HVec], w: usize, b: u64) -> (c: u64)
    requires
        w < 64,
        b < 64,
    ensures
        c == votes(hv_views(vecs@), w as int, b, vecs@.len() as int),
{
    let ghost vs = hv_views(vecs@);
    let mut c: u64 = 0;
    for k in 0..vecs.len()
        invariant
            vs == hv_views(vecs@),
            w < 64,
            b < 64,
            c == votes(vs, w as int, b, k as int),
            c <= k,
    {
        let word = vecs[k][w];
        assert(vs[k as int][w as int] == word);
        if (word >> b) & 1 == 1 {
            c = c + 1;
        }
    }
    c
}

/// Bundles hypervectors by bitwise majority: a bit is set in the result when it
/// is set in at least half (rounded up) of the inputs. An empty list bundles to
/// the zero vector.
pub fn bundle(vecs: &[HVec]) -> (r: HVec)
    ensures
        r@ == bundle_spec(hv_views(vecs@)),
{
    let ghost vs = hv_views(vecs@);
    let mut r: HVec = [0u64; 64];
    if vecs.len() == 0 {
        assert(r@ =~= zero_hv());
        return r;
    }
    let n = vecs.len();
    let threshold: u64 = (n / 2 + n % 2) as u64;
    for w in 0..WORDS
        invariant
            vs == hv_views(vecs@),
            vs.len() == vecs@.len(),
            vecs@.len() > 0,
            threshold == (vecs@.len() + 1) / 2,
            forall|j: int| 0 <= j < w ==> r[j] == majority_word(vs, j, 64),
    {
        let mut word: u64 = 0;
        for b in 0..64u64
            invariant
                vs == hv_views(vecs@),
                vs.len() == vecs@.len(),
                threshold == (vecs@.len() + 1) / 2,
                w < 64,
                word == majority_word(vs, w as int, b),
        {
            let c = count_votes(vecs, w, b);
            if c >= threshold {
                word = word | (1u64 << b);
            } else {
                assert(word | 0u64 == word) by (bit_vector);
            }
        }
        r[w] = word;
    }
    assert(r@ =~= bundle_spec(vs));
    r
}

// ─── Permutation ─────────────────────────────────────────────────────────────

/// Rotation of a word left by `k` bits, `k < 64`.
pub open spec fn rotl(x: u64, k: u64) -> u64 {
    if k == 0 {
        x
    } else {
        (x << k) | (x >> ((64 - k) as u64))
    }
}

/// Every word rotated left by `k mod 64` bits.
pub open spec fn permute_spec(hv: Seq<u64>, k: u32) -> Seq<u64> {
    Seq::new(64, |i: int| rotl(hv[i], (k % 64) as u64))
}

fn rotate_word(x: u64, k: u64) -> (r: u64)
    requires
        k < 64,
    ensures
        r == rotl(x, k),
{
    if k == 0 {
        x
    } else {
        (x << k) | (x >> (64 - k))
    }
}

/// Permutes a hypervector by rotating every word left by `k mod 64` bits.
pub fn permute(hv: &HVec, k: u32) -> (r: HVec)
    ensures
        r@ == permute_spec(hv@, k),
{
    let k = (k % 64) as u64;
    let mut r: HVec = [0u64; 64];
    for i in 0..WORDS
        invariant
            k < 64,
            forall|j: int| 0 <= j < i ==> r[j] == rotl(hv[j], k),
    {
        r[i] = rotate_word(hv[i], k);
    }
    assert(r@ =~= permute_spec(hv@, k as u32));
    r
}

// ─── Similarity ──────────────────────────────────────────────────────────────

/// Number of set bits among the lowest `n` bits of `x`.
pub open spec fn ones(x: u64, n: u64) -> nat
    decreases n,
{
    if n == 0 {
        0
    } else {
        ones(x, (n - 1) as u64) + if bit(x, (n - 1) as u64) { 1nat } else { 0nat }
    }
}

/// Number of agreeing bits in the first `w` words of `a` and `b`.
pub open spec fn agree_words(a: Seq<u64>, b: Seq<u64>, w: int) -> nat
    decreases w,
{
    if w <= 0 {
        0
    } else {
        agree_words(a, b, w - 1) + ones(!(a[w - 1] ^ b[w - 1]), 64)
    }
}

/// Number of bit positions on which two hypervectors agree (`BITS` minus
/// their Hamming distance). The similarity of the two is this count over 4096.
pub open spec fn match_count_spec(a: Seq<u64>, b: Seq<u64>) -> nat {
    agree_words(a, b, 64)
}

proof fn lemma_ones_bound(x: u64, n: u64)
    ensures
        ones(x, n) <= n,
    decreases n,
{
    if n > 0 {
        lemma_ones_bound(x, (n - 1) as u64);
    }
}

proof fn lemma_agree_bound(a: Seq<u64>, b: Seq<u64>, w: int)
    requires
        0 <= w,
    ensures
        agree_words(a, b, w) <= 64 * w,
    decreases w,
{
    if w > 0 {
        lemma_agree_bound(a, b, w - 1);
        lemma_ones_bound(!(a[w - 1] ^ b[w - 1]), 64);
    }
}

/// A similarity count is at most 4096.
pub proof fn lemma_match_count_bound(a: Seq<u64>, b: Seq<u64>)
    ensures
        match_count_spec(a, b) <= 4096,
{
    lemma_agree_bound(a, b, 64);
}

fn popcount(x: u64) -> (c: u32)
    ensures
        c == ones(x, 64),
{
    let mut c: u32 = 0;
    for b in 0..64u64
        invariant
            c == ones(x, b),
            c <= b,
    {
        if (x >> b) & 1 == 1 {
            c = c + 1;
        }
    }
    c
}

/// Number of bit positions on which `a` and `b` agree, in `0..=4096`.
pub fn match_count(a: &HVec, b: &HVec) -> (m: u32)
    ensures
        m == match_count_spec(a@, b@),
        m <= BITS,
{
    let mut m: u32 = 0;
    for w in 0..WORDS
        invariant
            m == agree_words(a@, b@, w as int),
            m <= 64 * w,
    {
        proof {
            lemma_ones_bound(!(a[w as int] ^ b[w as int]), 64);
        }
        m = m + popcount(!(a[w] ^ b[w]));
    }
    m
}

// ─── Laws ────────────────────────────────────────────────────────────────────

/// A hypervector view: exactly 64 words.
pub open spec fn is_hv(h: Seq<u64>) -> bool {
    h.len() == 64
}

/// Binding is its own inverse: `bind(a, bind(a, b)) == b`.
pub proof fn law_bind_self_inverse(a: Seq<u64>, b: Seq<u64>)
    requires
        is_hv(a),
        is_hv(b),
    ensures
        bind_spec(a, bind_spec(a, b)) == b,
{
    assert forall|i: int| 0 <= i < 64 implies #[trigger] bind_spec(a, bind_spec(a, b))[i] == b[i] by {
        let x = a[i];
        let y = b[i];
        assert(x ^ (x ^ y) == y) by (bit_vector);
    }
    assert(bind_spec(a, bind_spec(a, b)) =~= b);
}

/// Binding is commutative: `bind(a, b) == bind(b, a)`.
pub proof fn law_bind_commutative(a: Seq<u64>, b: Seq<u64>)
    ensures
        bind_spec(a, b) == bind_spec(b, a),
{
    assert forall|i: int| 0 <= i < 64 implies #[trigger] bind_spec(a, b)[i] == bind_spec(b, a)[i] by {
        let x = a[i];
        let y = b[i];
        assert(x ^ y == y ^ x) by (bit_vector);
    }
    assert(bind_spec(a, b) =~= bind_spec(b, a));
}

proof fn lemma_ones_all(n: u64)
    requires
        n <= 64,
    ensures
        ones(!0u64, n) == n,
    decreases n,
{
    if n > 0 {
        lemma_ones_all((n - 1) as u64);
        let b = (n - 1) as u64;
        assert(b < 64 ==> (!0u64 >> b) & 1u64 == 1u64) by (bit_vector);
    }
}

proof fn lemma_agree_self(a: Seq<u64>, w: int)
    requires
        0 <= w,
    ensures
        agree_words(a, a, w) == 64 * w,
    decreases w,
{
    if w > 0 {
        lemma_agree_self(a, w - 1);
        let x = a[w - 1];
        assert(!(x ^ x) == !0u64) by (bit_vector);
        lemma_ones_all(64);
    }
}

/// Every hypervector agrees with itself on all 4096 bits (similarity 1).
pub proof fn law_similarity_reflexive(a: Seq<u64>)
    ensures
        match_count_spec(a, a) == 4096,
{
    lemma_agree_self(a, 64);
}

proof fn lemma_agree_symmetric(a: Seq<u64>, b: Seq<u64>, w: int)
    ensures
        agree_words(a, b, w) == agree_words(b, a, w),
    decreases w,
{
    if w > 0 {
        lemma_agree_symmetric(a, b, w - 1);
        let x = a[w - 1];
        let y = b[w - 1];
        assert(!(x ^ y) == !(y ^ x)) by (bit_vector);
    }
}

/// Similarity is symmetric.
pub proof fn law_similarity_symmetric(a: Seq<u64>, b: Seq<u64>)
    ensures
        match_count_spec(a, b) == match_count_spec(b, a),
{
    lemma_agree_symmetric(a, b, 64);
}

proof fn lemma_agree_bind(a: Seq<u64>, b: Seq<u64>, c: Seq<u64>, w: int)
    requires
        0 <= w <= 64,
    ensures
        agree_words(bind_spec(a, c), bind_spec(b, c), w) == agree_words(a, b, w),
    decreases w,
{
    if w > 0 {
        lemma_agree_bind(a, b, c, w - 1);
        let x = a[w - 1];
        let y = b[w - 1];
        let z = c[w - 1];
        assert((x ^ z) ^ (y ^ z) == x ^ y) by (bit_vector);
    }
}

/// Binding both arguments with the same key leaves their similarity unchanged.
pub proof fn law_bind_preserves_similarity(a: Seq<u64>, b: Seq<u64>, c: Seq<u64>)
    ensures
        match_count_spec(bind_spec(a, c), bind_spec(b, c)) == match_count_spec(a, b),
{
    lemma_agree_bind(a, b, c, 64);
}

/// Permuting by `k` and then by `64 - k mod 64` gives the vector back.
pub proof fn law_permute_inverse(h: Seq<u64>, k: u32)
    requires
        is_hv(h),
    ensures
        permute_spec(permute_spec(h, k), (64 - k % 64) as u32) == h,
{
    let k1 = (k % 64) as u64;
    let k2 = ((64 - k % 64) as u32 % 64) as u64;
    assert(k1 == 0 ==> k2 == 0);
    assert(k1 > 0 ==> k2 == 64 - k1);
    assert forall|i: int| 0 <= i < 64 implies #[trigger] permute_spec(permute_spec(h, k), (64 - k % 64) as u32)[i] == h[i] by {
        let x = h[i];
        if k1 > 0 {
            assert(0 < k1 < 64 ==> ((((x << k1) | (x >> ((64 - k1) as u64))) << ((64 - k1) as u64)) | (((x << k1) | (x >> ((64 - k1) as u64))) >> k1)) == x) by (bit_vector);
        }
    }
    assert(permute_spec(permute_spec(h, k), (64 - k % 64) as u32) =~= h);
}

proof fn lemma_majority_word_bits(vs: Seq<Seq<u64>>, w: int, b: u64, j: u64)
    requires
        b <= 64,
        j < 64,
    ensures
        bit(majority_word(vs, w, b), j) == (j < b && majority(vs, w, j)),
    decreases b,
{
    if b == 0 {
        assert((0u64 >> j) & 1u64 == 0u64) by (bit_vector);
    } else {
        let p = (b - 1) as u64;
        lemma_majority_word_bits(vs, w, p, j);
        let x = majority_word(vs, w, p);
        if majority(vs, w, p) {
            assert(p < 64 && j < 64 ==> (((x | (1u64 << p)) >> j) & 1u64 == 1u64) == (((x >> j) & 1u64 == 1u64) || j == p)) by (bit_vector);
        } else {
            assert((x | 0u64) == x) by (bit_vector);
        }
    }
}

/// Bit `b` of word `w` of a bundle is set exactly when that bit is set in at
/// least half (rounded up) of the bundled vectors.
pub proof fn law_bundle_majority(vs: Seq<Seq<u64>>, w: int, b: u64)
    requires
        vs.len() > 0,
        0 <= w < 64,
        b < 64,
    ensures
        bit(bundle_spec(vs)[w], b) == majority(vs, w, b),
{
    lemma_majority_word_bits(vs, w, 64, b);
}

// ─── Rotation laws ───────────────────────────────────────────────────────────

proof fn lemma_bits_equal(x: u64, y: u64)
    by (bit_vector)
    requires
        bit(x, 0u64) == bit(y, 0u64),
        bit(x, 1u64) == bit(y, 1u64),
        bit(x, 2u64) == bit(y, 2u64),
        bit(x, 3u64) == bit(y, 3u64),
        bit(x, 4u64) == bit(y, 4u64),
        bit(x, 5u64) == bit(y, 5u64),
        bit(x, 6u64) == bit(y, 6u64),
        bit(x, 7u64) == bit(y, 7u64),
        bit(x, 8u64) == bit(y, 8u64),
        bit(x, 9u64) == bit(y, 9u64),
        bit(x, 10u64) == bit(y, 10u64),
        bit(x, 11u64) == bit(y, 11u64),
        bit(x, 12u64) == bit(y, 12u64),
        bit(x, 13u64) == bit(y, 13u64),
        bit(x, 14u64) == bit(y, 14u64),
        bit(x, 15u64) == bit(y, 15u64),
        bit(x, 16u64) == bit(y, 16u64),
        bit(x, 17u64) == bit(y, 17u64),
        bit(x, 18u64) == bit(y, 18u64),
        bit(x, 19u64) == bit(y, 19u64),
        bit(x, 20u64) == bit(y, 20u64),
        bit(x, 21u64) == bit(y, 21u64),
        bit(x, 22u64) == bit(y, 22u64),
        bit(x, 23u64) == bit(y, 23u64),
        bit(x, 24u64) == bit(y, 24u64),
        bit(x, 25u64) == bit(y, 25u64),
        bit(x, 26u64) == bit(y, 26u64),
        bit(x, 27u64) == bit(y, 27u64),
        bit(x, 28u64) == bit(y, 28u64),
        bit(x, 29u64) == bit(y, 29u64),
        bit(x, 30u64) == bit(y, 30u64),
        bit(x, 31u64) == bit(y, 31u64),
        bit(x, 32u64) == bit(y, 32u64),
        bit(x, 33u64) == bit(y, 33u64),
        bit(x, 34u64) == bit(y, 34u64),
        bit(x, 35u64) == bit(y, 35u64),
        bit(x, 36u64) == bit(y, 36u64),
        bit(x, 37u64) == bit(y, 37u64),
        bit(x, 38u64) == bit(y, 38u64),
        bit(x, 39u64) == bit(y, 39u64),
        bit(x, 40u64) == bit(y, 40u64),
        bit(x, 41u64) == bit(y, 41u64),
        bit(x, 42u64) == bit(y, 42u64),
        bit(x, 43u64) == bit(y, 43u64),
        bit(x, 44u64) == bit(y, 44u64),
        bit(x, 45u64) == bit(y, 45u64),
        bit(x, 46u64) == bit(y, 46u64),
        bit(x, 47u64) == bit(y, 47u64),
        bit(x, 48u64) == bit(y, 48u64),
        bit(x, 49u64) == bit(y, 49u64),
        bit(x, 50u64) == bit(y, 50u64),
        bit(x, 51u64) == bit(y, 51u64),
        bit(x, 52u64) == bit(y, 52u64),
        bit(x, 53u64) == bit(y, 53u64),
        bit(x, 54u64) == bit(y, 54u64),
        bit(x, 55u64) == bit(y, 55u64),
        bit(x, 56u64) == bit(y, 56u64),
        bit(x, 57u64) == bit(y, 57u64),
        bit(x, 58u64) == bit(y, 58u64),
        bit(x, 59u64) == bit(y, 59u64),
        bit(x, 60u64) == bit(y, 60u64),
        bit(x, 61u64) == bit(y, 61u64),
        bit(x, 62u64) == bit(y, 62u64),
        bit(x, 63u64) == bit(y, 63u64),
    ensures
        x == y,
{
}

/// Two words with the same 64 bits are equal.
proof fn lemma_word_ext(x: u64, y: u64)
    requires
        forall|i: u64| i < 64 ==> #[trigger] bit(x, i) == bit(y, i),
    ensures
        x == y,
{
    assert(bit(x, 0u64) == bit(y, 0u64));
    assert(bit(x, 1u64) == bit(y, 1u64));
    assert(bit(x, 2u64) == bit(y, 2u64));
    assert(bit(x, 3u64) == bit(y, 3u64));
    assert(bit(x, 4u64) == bit(y, 4u64));
    assert(bit(x, 5u64) == bit(y, 5u64));
    assert(bit(x, 6u64) == bit(y, 6u64));
    assert(bit(x, 7u64) == bit(y, 7u64));
    assert(bit(x, 8u64) == bit(y, 8u64));
    assert(bit(x, 9u64) == bit(y, 9u64));
    assert(bit(x, 10u64) == bit(y, 10u64));
    assert(bit(x, 11u64) == bit(y, 11u64));
    assert(bit(x, 12u64) == bit(y, 12u64));
    assert(bit(x, 13u64) == bit(y, 13u64));
    assert(bit(x, 14u64) == bit(y, 14u64));
    assert(bit(x, 15u64) == bit(y, 15u64));
    assert(bit(x, 16u64) == bit(y, 16u64));
    assert(bit(x, 17u64) == bit(y, 17u64));
    assert(bit(x, 18u64) == bit(y, 18u64));
    assert(bit(x, 19u64) == bit(y, 19u64));
    assert(bit(x, 20u64) == bit(y, 20u64));
    assert(bit(x, 21u64) == bit(y, 21u64));
    assert(bit(x, 22u64) == bit(y, 22u64));
    assert(bit(x, 23u64) == bit(y, 23u64));
    assert(bit(x, 24u64) == bit(y, 24u64));
    assert(bit(x, 25u64) == bit(y, 25u64));
    assert(bit(x, 26u64) == bit(y, 26u64));
    assert(bit(x, 27u64) == bit(y, 27u64));
    assert(bit(x, 28u64) == bit(y, 28u64));
    assert(bit(x, 29u64) == bit(y, 29u64));
    assert(bit(x, 30u64) == bit(y, 30u64));
    assert(bit(x, 31u64) == bit(y, 31u64));
    assert(bit(x, 32u64) == bit(y, 32u64));
    assert(bit(x, 33u64) == bit(y, 33u64));
    assert(bit(x, 34u64) == bit(y, 34u64));
    assert(bit(x, 35u64) == bit(y, 35u64));
    assert(bit(x, 36u64) == bit(y, 36u64));
    assert(bit(x, 37u64) == bit(y, 37u64));
    assert(bit(x, 38u64) == bit(y, 38u64));
    assert(bit(x, 39u64) == bit(y, 39u64));
    assert(bit(x, 40u64) == bit(y, 40u64));
    assert(bit(x, 41u64) == bit(y, 41u64));
    assert(bit(x, 42u64) == bit(y, 42u64));
    assert(bit(x, 43u64) == bit(y, 43u64));
    assert(bit(x, 44u64) == bit(y, 44u64));
    assert(bit(x, 45u64) == bit(y, 45u64));
    assert(bit(x, 46u64) == bit(y, 46u64));
    assert(bit(x, 47u64) == bit(y, 47u64));
    assert(bit(x, 48u64) == bit(y, 48u64));
    assert(bit(x, 49u64) == bit(y, 49u64));
    assert(bit(x, 50u64) == bit(y, 50u64));
    assert(bit(x, 51u64) == bit(y, 51u64));
    assert(bit(x, 52u64) == bit(y, 52u64));
    assert(bit(x, 53u64) == bit(y, 53u64));
    assert(bit(x, 54u64) == bit(y, 54u64));
    assert(bit(x, 55u64) == bit(y, 55u64));
    assert(bit(x, 56u64) == bit(y, 56u64));
    assert(bit(x, 57u64) == bit(y, 57u64));
    assert(bit(x, 58u64) == bit(y, 58u64));
    assert(bit(x, 59u64) == bit(y, 59u64));
    assert(bit(x, 60u64) == bit(y, 60u64));
    assert(bit(x, 61u64) == bit(y, 61u64));
    assert(bit(x, 62u64) == bit(y, 62u64));
    assert(bit(x, 63u64) == bit(y, 63u64));
    lemma_bits_equal(x, y);
}

proof fn lemma_rotation_index(i: int, a: int, b: int)
    requires
        0 <= i < 64,
        0 <= a < 64,
        0 <= b < 64,
    ensures
        (((i + 64 - b) % 64) + 64 - a) % 64 == (i + 64 - (a + b) % 64) % 64,
{
    let j = if i >= b { i - b } else { i + 64 - b };
    assert((i + 64 - b) % 64 == j);
    let c = if a + b < 64 { a + b } else { a + b - 64 };
    assert((a + b) % 64 == c);
    let d = if j >= a { j - a } else { j + 64 - a };
    assert((j + 64 - a) % 64 == d);
    assert((i + 64 - c) % 64 == d);
}

proof fn lemma_rotl_compose(x: u64, a: u64, b: u64)
    requires
        a < 64,
        b < 64,
    ensures
        rotl(rotl(x, a), b) == rotl(x, ((a + b) % 64) as u64),
{
    let c = ((a + b) % 64) as u64;
    assert forall|i: u64| i < 64 implies #[trigger] bit(rotl(rotl(x, a), b), i) == bit(rotl(x, c), i) by {
        lemma_rotl_bit(rotl(x, a), b, i);
        let j = ((i + 64 - b) % 64) as u64;
        lemma_rotl_bit(x, a, j);
        lemma_rotl_bit(x, c, i);
        lemma_rotation_index(i as int, a as int, b as int);
    }
    lemma_word_ext(rotl(rotl(x, a), b), rotl(x, c));
}

proof fn lemma_rotl_xor_word(x: u64, y: u64, k: u64)
    by (bit_vector)
    requires
        0 < k < 64,
    ensures
        ((x ^ y) << k) | ((x ^ y) >> ((64 - k) as u64)) == ((x << k) | (x >> ((64 - k) as u64))) ^ ((y << k) | (y
            >> ((64 - k) as u64))),
{
}

proof fn lemma_rotl_not_word(x: u64, k: u64)
    by (bit_vector)
    requires
        0 < k < 64,
    ensures
        !((x << k) | (x >> ((64 - k) as u64))) == ((!x) << k) | ((!x) >> ((64 - k) as u64)),
{
}

proof fn lemma_rotl_xor(x: u64, y: u64, k: u64)
    requires
        k < 64,
    ensures
        rotl(x ^ y, k) == rotl(x, k) ^ rotl(y, k),
        !(rotl(x, k) ^ rotl(y, k)) == rotl(!(x ^ y), k),
{
    if k > 0 {
        lemma_rotl_xor_word(x, y, k);
        lemma_rotl_not_word(x ^ y, k);
    }
}

proof fn lemma_rotl_bit(x: u64, k: u64, b: u64)
    by (bit_vector)
    requires
        k < 64,
        b < 64,
    ensures
        bit(rotl(x, k), b) == bit(x, ((b + 64 - k) % 64) as u64),
{
}

/// Permuting by `j` and then by `k` is permuting by `j + k` (mod 64).
pub proof fn law_permute_compose(h: Seq<u64>, j: u32, k: u32)
    requires
        is_hv(h),
    ensures
        permute_spec(permute_spec(h, j), k) == permute_spec(h, ((j as nat + k as nat) % 64) as u32),
{
    let a = (j % 64) as u64;
    let b = (k % 64) as u64;
    assert(((j as nat + k as nat) % 64) as u32 % 64 == (a + b) % 64);
    assert forall|i: int| 0 <= i < 64 implies #[trigger] permute_spec(permute_spec(h, j), k)[i] == permute_spec(
        h,
        ((j as nat + k as nat) % 64) as u32,
    )[i] by {
        lemma_rotl_compose(h[i], a, b);
    }
    assert(permute_spec(permute_spec(h, j), k) =~= permute_spec(h, ((j as nat + k as nat) % 64) as u32));
}

/// Permuting by a whole turn (any multiple of 64, 0 included) changes nothing.
pub proof fn law_permute_full_turn(h: Seq<u64>, k: u32)
    requires
        is_hv(h),
        k % 64 == 0,
    ensures
        permute_spec(h, k) == h,
{
    assert(permute_spec(h, k) =~= h);
}

/// Permuting distributes over binding.
pub proof fn law_permute_distributes_over_bind(a: Seq<u64>, b: Seq<u64>, k: u32)
    ensures
        permute_spec(bind_spec(a, b), k) == bind_spec(permute_spec(a, k), permute_spec(b, k)),
{
    assert forall|i: int| 0 <= i < 64 implies #[trigger] permute_spec(bind_spec(a, b), k)[i] == bind_spec(
        permute_spec(a, k),
        permute_spec(b, k),
    )[i] by {
        lemma_rotl_xor(a[i], b[i], (k % 64) as u64);
    }
    assert(permute_spec(bind_spec(a, b), k) =~= bind_spec(permute_spec(a, k), permute_spec(b, k)));
}

/// Number of set bits of `x` at positions `lo..hi`.
pub open spec fn ones_range(x: u64, lo: int, hi: int) -> nat
    decreases hi - lo,
{
    if hi <= lo {
        0
    } else {
        ones_range(x, lo, hi - 1) + if bit(x, (hi - 1) as u64) { 1nat } else { 0nat }
    }
}

proof fn lemma_ones_range_full(x: u64, n: u64)
    requires
        n <= 64,
    ensures
        ones(x, n) == ones_range(x, 0, n as int),
    decreases n,
{
    if n > 0 {
        lemma_ones_range_full(x, (n - 1) as u64);
    }
}

proof fn lemma_ones_range_split(x: u64, lo: int, m: int, hi: int)
    requires
        lo <= m <= hi,
    ensures
        ones_range(x, lo, hi) == ones_range(x, lo, m) + ones_range(x, m, hi),
    decreases hi - m,
{
    if hi > m {
        lemma_ones_range_split(x, lo, m, hi - 1);
    }
}

proof fn lemma_ones_range_shift(x: u64, y: u64, lo: int, hi: int, d: int)
    requires
        0 <= lo <= hi <= 64,
        0 <= lo - d,
        hi - d <= 64,
        forall|b: int| lo <= b < hi ==> #[trigger] bit(y, b as u64) == bit(x, (b - d) as u64),
    ensures
        ones_range(y, lo, hi) == ones_range(x, lo - d, hi - d),
    decreases hi - lo,
{
    if hi > lo {
        lemma_ones_range_shift(x, y, lo, hi - 1, d);
        assert(bit(y, (hi - 1) as u64) == bit(x, (hi - 1 - d) as u64));
    }
}

proof fn lemma_ones_rotl(x: u64, k: u64)
    requires
        k < 64,
    ensures
        ones(rotl(x, k), 64) == ones(x, 64),
{
    let y = rotl(x, k);
    lemma_ones_range_full(x, 64);
    lemma_ones_range_full(y, 64);
    assert forall|b: int| 0 <= b < 64 implies #[trigger] bit(y, b as u64) == bit(x, ((b as u64 + 64 - k) % 64) as u64) by {
        lemma_rotl_bit(x, k, b as u64);
    }
    lemma_ones_range_split(y, 0, k as int, 64);
    lemma_ones_range_split(x, 0, 64 - k, 64);
    assert forall|b: int| k <= b < 64 implies #[trigger] bit(y, b as u64) == bit(x, (b - k) as u64) by {
        assert(((b as u64 + 64 - k) % 64) as int == b - k);
    }
    lemma_ones_range_shift(x, y, k as int, 64, k as int);
    assert forall|b: int| 0 <= b < k implies #[trigger] bit(y, b as u64) == bit(x, (b - (k - 64)) as u64) by {
        assert(((b as u64 + 64 - k) % 64) as int == b + 64 - k);
    }
    lemma_ones_range_shift(x, y, 0, k as int, k - 64);
}

/// Number of set bits in the first `w` words of `h`.
pub open spec fn weight_words(h: Seq<u64>, w: int) -> nat
    decreases w,
{
    if w <= 0 {
        0
    } else {
        weight_words(h, w - 1) + ones(h[w - 1], 64)
    }
}

/// Number of set bits of a hypervector.
pub open spec fn weight(h: Seq<u64>) -> nat {
    weight_words(h, 64)
}

proof fn lemma_weight_permute(h: Seq<u64>, k: u32, w: int)
    requires
        0 <= w <= 64,
    ensures
        weight_words(permute_spec(h, k), w) == weight_words(h, w),
    decreases w,
{
    if w > 0 {
        lemma_weight_permute(h, k, w - 1);
        lemma_ones_rotl(h[w - 1], (k % 64) as u64);
    }
}

/// Permuting keeps the number of set bits.
pub proof fn law_permute_keeps_weight(h: Seq<u64>, k: u32)
    ensures
        weight(permute_spec(h, k)) == weight(h),
{
    lemma_weight_permute(h, k, 64);
}

proof fn lemma_agree_permute(a: Seq<u64>, b: Seq<u64>, k: u32, w: int)
    requires
        0 <= w <= 64,
    ensures
        agree_words(permute_spec(a, k), permute_spec(b, k), w) == agree_words(a, b, w),
    decreases w,
{
    if w > 0 {
        lemma_agree_permute(a, b, k, w - 1);
        let r = (k % 64) as u64;
        lemma_rotl_xor(a[w - 1], b[w - 1], r);
        lemma_ones_rotl(!(a[w - 1] ^ b[w - 1]), r);
    }
}

/// Permuting both vectors by the same amount keeps their similarity.
pub proof fn law_permute_preserves_similarity(a: Seq<u64>, b: Seq<u64>, k: u32)
    ensures
        match_count_spec(permute_spec(a, k), permute_spec(b, k)) == match_count_spec(a, b),
{
    lemma_agree_permute(a, b, k, 64);
}

} // verus!
