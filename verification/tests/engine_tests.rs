use hera::engine::{encode, pos_key_string, ranked_scores, score_hvs, HDCEngine, ItemMemory};
use hera::hdc::{bind, bundle, match_count, permute, HVec};
use hera::rng::{fnv1a, random_hv};

fn corpus() -> HDCEngine {
    let mut e = HDCEngine::new();
    e.add_document("d0".to_string(), "the quick brown fox jumps", "animals", "a.txt", "text/plain");
    e.add_document("d1".to_string(), "the quick brown dog sleeps", "animals", "b.txt", "text/plain");
    e.add_document("d2".to_string(), "lorem ipsum dolor sit amet", "latin", "c.txt", "text/plain");
    e
}

#[test]
fn item_memory_assigns_seeded_vectors() {
    let mut m = ItemMemory::new();
    assert_eq!(m.size(), 0);
    let h = m.get("hello");
    assert_eq!(h, random_hv(fnv1a("hello")));
    assert_eq!(m.size(), 1);
    assert_eq!(m.get("hello"), h);
    assert_eq!(m.size(), 1);
    let w = m.get("world");
    assert_ne!(w, h);
    assert_eq!(m.size(), 2);
}

#[test]
fn position_keys_cycle_through_eight() {
    assert_eq!(pos_key_string(0), "__p0");
    assert_eq!(pos_key_string(3), "__p3");
    assert_eq!(pos_key_string(11), "__p3");
    assert_eq!(pos_key_string(7), "__p7");
}

#[test]
fn encode_without_tokens_is_zero() {
    let mut m = ItemMemory::new();
    let zero: HVec = [0u64; 64];
    assert_eq!(encode("", &mut m), zero);
    assert_eq!(encode("a b ! 42", &mut m), zero);
    assert_eq!(m.size(), 0);
}

#[test]
fn encode_bundles_positions_and_bigrams() {
    let mut m = ItemMemory::new();
    let e = encode("Hello world", &mut m);
    let h = random_hv(fnv1a("hello"));
    let w = random_hv(fnv1a("world"));
    let p0 = random_hv(fnv1a("__p0"));
    let p1 = random_hv(fnv1a("__p1"));
    let bg = bind(&permute(&h, 1), &w);
    let expected = bundle(&[bind(&h, &p0), bind(&w, &p1), bg, bg]);
    assert_eq!(e, expected);
    // hello, world, __p0, __p1
    assert_eq!(m.size(), 4);
}

#[test]
fn encode_is_deterministic_across_memories() {
    let mut m1 = ItemMemory::new();
    let mut m2 = ItemMemory::new();
    m2.get("unrelated");
    assert_eq!(encode("the quick brown fox", &mut m1), encode("the quick brown fox", &mut m2));
}

#[test]
fn engine_counts_documents_and_vocabulary() {
    let e = HDCEngine::new();
    assert_eq!(e.doc_count(), 0);
    assert_eq!(e.vocab_size(), 0);
    let e = corpus();
    assert_eq!(e.doc_count(), 3);
    // 12 distinct words and the position keys __p0 .. __p4.
    assert_eq!(e.vocab_size(), 17);
    assert_eq!(e.docs[1].id, "d1");
    assert_eq!(e.docs[1].text, "the quick brown dog sleeps");
    assert_eq!(e.docs[1].label, "animals");
    assert_eq!(e.docs[1].source, "b.txt");
    assert_eq!(e.docs[1].mime, "text/plain");
}

#[test]
fn search_raw_ranks_by_similarity() {
    let mut e = corpus();
    let r = e.search_raw("quick brown fox", 3);
    assert_eq!(r, vec![(2797, 0), (2387, 1), (2066, 2)]);
    let r2 = e.search_raw("quick brown fox", 2);
    assert_eq!(r2, vec![(2797, 0), (2387, 1)]);
    assert!(e.search_raw("quick brown fox", 0).is_empty());
    // The query's words were all known already.
    assert_eq!(e.vocab_size(), 17);
}

#[test]
fn search_raw_learns_new_words() {
    let mut e = corpus();
    e.search_raw("zebra", 1);
    assert_eq!(e.vocab_size(), 18);
}

#[test]
fn analogy_binds_b_a_and_c() {
    let mut e = corpus();
    let r = e.analogy("brown fox", "brown dog", "quick brown fox", 3);
    assert_eq!(r, vec![(2404, 1), (2262, 0), (2045, 2)]);
}

#[test]
fn clear_keeps_the_vocabulary() {
    let mut e = corpus();
    e.clear();
    assert_eq!(e.doc_count(), 0);
    assert_eq!(e.vocab_size(), 17);
    assert!(e.search_raw("quick brown fox", 5).is_empty());
}

#[test]
fn score_and_rank_helpers() {
    let a = random_hv(7);
    let b = random_hv(8);
    let c = score_hvs(&vec![a, b], &a);
    assert_eq!(c, vec![4096, 2010]);
    assert_eq!(ranked_scores(&vec![5, 9, 5, 1], 3), vec![(9, 1), (5, 0), (5, 2)]);
    assert_eq!(match_count(&a, &b), 2010);
}

#[test]
fn a_document_text_finds_its_document() {
    let mut e = corpus();
    assert_eq!(e.search_raw("the quick brown dog sleeps", 1), vec![(4096, 1)]);
    assert_eq!(e.search_raw("lorem ipsum dolor sit amet", 1), vec![(4096, 2)]);
}

#[test]
fn fewer_results_are_a_prefix_of_more() {
    let mut e = corpus();
    let all = e.search_raw("brown fox sleeps", 3);
    for k in 0..=3 {
        assert_eq!(e.search_raw("brown fox sleeps", k), all[..k].to_vec());
    }
    let a3 = e.analogy("dog", "fox", "lorem", 3);
    assert_eq!(e.analogy("dog", "fox", "lorem", 1), a3[..1].to_vec());
}
