use hera::hdc::{bind, bundle, match_count, permute, HVec, BITS, WORDS};
use hera::rng::{fnv1a, perturb, random_hv, xorshift, Xorshift, FNV_OFFSET};
use hera::rank::top_k;

fn filled(w: u64) -> HVec {
    [w; 64]
}

#[test]
fn dimensions_are_4096_bits() {
    assert_eq!(WORDS, 64);
    assert_eq!(BITS, 4096);
}

#[test]
fn fnv1a_known_values() {
    assert_eq!(fnv1a(""), FNV_OFFSET);
    assert_eq!(fnv1a(""), 14695981039346656037);
    assert_eq!(fnv1a("a"), 12638187200555641996);
    assert_eq!(fnv1a("hello"), 11831194018420276491);
}

#[test]
fn xorshift_sequence_from_one() {
    let mut g = Xorshift::new(1);
    assert_eq!(g.next(), 1082269761);
    assert_eq!(g.next(), 1152992998833853505);
    let mut h = xorshift(1);
    assert_eq!(h.next(), 1082269761);
}

#[test]
fn random_hv_is_seeded_and_deterministic() {
    let a = random_hv(1);
    assert_eq!(a[0], 1082269761);
    assert_eq!(a[1], 1152992998833853505);
    // A zero seed is treated as one.
    assert_eq!(random_hv(0), a);
    assert_eq!(random_hv(42)[0], 45454805674);
    assert_eq!(random_hv(42), random_hv(42));
    assert_ne!(random_hv(42), random_hv(43));
}

#[test]
fn bind_is_xor_and_self_inverse() {
    let a = random_hv(7);
    let b = random_hv(8);
    let ab = bind(&a, &b);
    for i in 0..64 {
        assert_eq!(ab[i], a[i] ^ b[i]);
    }
    assert_eq!(bind(&a, &ab), b);
    assert_eq!(bind(&ab, &b), a);
    assert_eq!(bind(&a, &b), bind(&b, &a));
    assert_eq!(bind(&a, &a), filled(0));
}

#[test]
fn bundle_of_nothing_is_zero() {
    let empty: Vec<HVec> = Vec::new();
    assert_eq!(bundle(&empty), filled(0));
}

#[test]
fn bundle_of_one_is_itself() {
    let a = random_hv(5);
    assert_eq!(bundle(&[a]), a);
}

#[test]
fn bundle_of_two_is_or() {
    // With two vectors the threshold is one vote.
    let a = random_hv(5);
    let b = random_hv(6);
    let r = bundle(&[a, b]);
    for i in 0..64 {
        assert_eq!(r[i], a[i] | b[i]);
    }
}

#[test]
fn bundle_of_three_is_majority() {
    let a = random_hv(7);
    let b = random_hv(8);
    let c = random_hv(9);
    let r = bundle(&[a, b, c]);
    for i in 0..64 {
        assert_eq!(r[i], (a[i] & b[i]) | (a[i] & c[i]) | (b[i] & c[i]));
    }
}

#[test]
fn bundle_of_four_needs_two_votes() {
    let mut v = filled(0);
    v[0] = 1;
    let z = filled(0);
    // One vote of four: below the threshold of two.
    assert_eq!(bundle(&[v, z, z, z])[0], 0);
    // Two votes of four: at the threshold.
    assert_eq!(bundle(&[v, v, z, z])[0], 1);
}

#[test]
fn permute_rotates_each_word() {
    let h = filled(1u64 << 63);
    assert_eq!(permute(&h, 1), filled(1));
    let mut g = filled(0);
    g[3] = 0x8000000000000001;
    let p = permute(&g, 4);
    assert_eq!(p[3], 24);
    assert_eq!(p[0], 0);
    // The shift is taken modulo 64.
    let a = random_hv(3);
    assert_eq!(permute(&a, 64), a);
    assert_eq!(permute(&a, 65), permute(&a, 1));
    assert_eq!(permute(&permute(&a, 5), 59), a);
}

#[test]
fn match_count_counts_agreeing_bits() {
    let a = random_hv(7);
    let b = random_hv(8);
    assert_eq!(match_count(&a, &a), 4096);
    assert_eq!(match_count(&filled(0), &filled(u64::MAX)), 0);
    assert_eq!(match_count(&a, &b), 2010);
    assert_eq!(match_count(&a, &b), match_count(&b, &a));
    let mut one_off = a;
    one_off[10] ^= 1 << 5;
    assert_eq!(match_count(&a, &one_off), 4095);
}

#[test]
fn binding_preserves_similarity() {
    let a = random_hv(7);
    let b = random_hv(8);
    let c = random_hv(9);
    assert_eq!(match_count(&bind(&a, &c), &bind(&b, &c)), match_count(&a, &b));
}

#[test]
fn perturb_with_zero_rate_changes_nothing() {
    let a = random_hv(11);
    assert_eq!(perturb(&a, 0, 99), a);
}

#[test]
fn perturb_twice_with_same_seed_restores() {
    let a = random_hv(11);
    let once = perturb(&a, 368934881474191040, 1234);
    assert_ne!(once, a);
    assert_eq!(perturb(&once, 368934881474191040, 1234), a);
}

#[test]
fn perturb_flip_pattern_is_seeded() {
    let z = filled(0);
    let p = perturb(&z, 368934881474191040, 1);
    let flipped: u32 = p.iter().map(|w| w.count_ones()).sum();
    assert_eq!(flipped, 92);
    assert_eq!(p[0], 1);
    // Every draw is below the maximum threshold.
    assert_eq!(perturb(&z, u64::MAX, 1), filled(u64::MAX));
}

#[test]
fn top_k_is_a_stable_descending_ranking() {
    let c: Vec<u32> = vec![3, 1, 3, 2];
    assert_eq!(top_k(&c, 3), vec![0, 2, 3]);
    assert_eq!(top_k(&c, 10), vec![0, 2, 3, 1]);
    assert_eq!(top_k(&c, 0), Vec::<usize>::new());
    let empty: Vec<u32> = Vec::new();
    assert_eq!(top_k(&empty, 4), Vec::<usize>::new());
    let ties: Vec<u32> = vec![5, 5, 5];
    assert_eq!(top_k(&ties, 2), vec![0, 1]);
}

#[test]
fn permute_composes_distributes_and_keeps_bits() {
    let a = random_hv(21);
    let b = random_hv(22);
    assert_eq!(permute(&permute(&a, 40), 30), permute(&a, 6));
    assert_eq!(permute(&permute(&a, u32::MAX), 1), a);
    assert_eq!(permute(&a, 128), a);
    assert_eq!(permute(&bind(&a, &b), 13), bind(&permute(&a, 13), &permute(&b, 13)));
    let ones = |h: &HVec| h.iter().map(|w| w.count_ones()).sum::<u32>();
    assert_eq!(ones(&permute(&a, 17)), ones(&a));
    assert_eq!(match_count(&permute(&a, 9), &permute(&b, 9)), match_count(&a, &b));
}
