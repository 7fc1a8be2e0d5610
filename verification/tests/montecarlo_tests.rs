use hera::engine::HDCEngine;
use hera::montecarlo::{
    Relation, MC_CONSENSUS_SEEN, MC_FLIP_THRESHOLD, MC_ITERATIONS, MC_TOP_K,
};

fn animals() -> HDCEngine {
    let mut e = HDCEngine::new();
    e.add_document("d0".to_string(), "the quick brown fox jumps", "animals", "a.txt", "text/plain");
    e.add_document("d1".to_string(), "the quick brown dog sleeps", "animals", "b.txt", "text/plain");
    e.add_document("d2".to_string(), "lorem ipsum dolor sit amet", "latin", "c.txt", "text/plain");
    e
}

fn twelve() -> HDCEngine {
    let texts = [
        "red apple pie",
        "green apple tart",
        "blue sky above",
        "dark night sky",
        "apple orchard harvest",
        "river stone bridge",
        "mountain snow peak",
        "ocean wave crest",
        "desert sand dune",
        "forest pine tree",
        "city street lamp",
        "apple cider vinegar",
    ];
    let mut e = HDCEngine::new();
    for (i, t) in texts.iter().enumerate() {
        e.add_document(format!("doc{}", i), t, "misc", "list", "text/plain");
    }
    e
}

#[test]
fn constants_match_the_documented_parameters() {
    assert_eq!(MC_ITERATIONS, 1000);
    assert_eq!(MC_TOP_K, 10);
    assert_eq!(MC_CONSENSUS_SEEN, 700);
    // 2% of 2^64, as the float computation rounds it.
    assert_eq!(MC_FLIP_THRESHOLD, (0.02f64 * u64::MAX as f64) as u64);
}

#[test]
fn search_mc_on_empty_corpus_is_empty() {
    let mut e = HDCEngine::new();
    assert!(e.search_mc("anything", 5).is_empty());
}

#[test]
fn search_mc_small_corpus_every_document_always_seen() {
    let mut e = animals();
    let r = e.search_mc("quick brown fox", 10);
    assert_eq!(r.len(), 3);
    let docs: Vec<usize> = r.iter().map(|t| t.doc).collect();
    assert_eq!(docs, vec![0, 1, 2]);
    let sums: Vec<u64> = r.iter().map(|t| t.score_sum).collect();
    assert_eq!(sums, vec![2767198, 2373700, 2065488]);
    for t in &r {
        assert_eq!(t.iterations_seen, 1000);
        assert!(t.validated);
    }
    assert_eq!(r[0].id, "d0");
    assert_eq!(r[0].text, "the quick brown fox jumps");
    assert_eq!(r[0].label, "animals");
    assert_eq!(r[0].source, "a.txt");
}

#[test]
fn search_mc_ranks_validated_first_then_by_score() {
    let mut e = twelve();
    let r = e.search_mc("fresh apple pie", 20);
    let got: Vec<(usize, usize, u64, bool)> =
        r.iter().map(|t| (t.doc, t.iterations_seen, t.score_sum, t.validated)).collect();
    assert_eq!(
        got,
        vec![
            (0, 1000, 2749738, true),
            (1, 1000, 2200622, true),
            (8, 1000, 2097052, true),
            (3, 1000, 2070998, true),
            (11, 1000, 2054502, true),
            (4, 999, 2049957, true),
            (9, 999, 2048397, true),
            (2, 997, 2036647, true),
            (7, 982, 1999314, true),
            (5, 978, 1988452, true),
            (6, 45, 91133, false),
        ]
    );
    // Document 10 never entered the window and is left out.
    assert!(r.iter().all(|t| t.doc != 10));
}

#[test]
fn search_mc_keeps_top_k() {
    let mut e = twelve();
    let r = e.search_mc("fresh apple pie", 3);
    let docs: Vec<usize> = r.iter().map(|t| t.doc).collect();
    assert_eq!(docs, vec![0, 1, 8]);
    assert_eq!(r[2].id, "doc8");
}

#[test]
fn classify_mc_picks_the_winning_label() {
    let mut e = animals();
    let r = e.classify_mc("quick brown fox");
    assert_eq!(r.len(), 1);
    assert_eq!(r[0].label, "animals");
    assert_eq!(r[0].count, 1000);
    assert_eq!(r[0].score_sum, 2568299);
    assert!(r[0].validated);
}

#[test]
fn classify_mc_without_documents_is_empty() {
    let mut e = HDCEngine::new();
    assert!(e.classify_mc("quick brown fox").is_empty());
}

#[test]
fn similarity_mc_samples_and_relation() {
    let mut e = HDCEngine::new();
    let r = e.similarity_mc("quick brown fox", "quick brown dog");
    assert_eq!(r.base, 3046);
    assert_eq!(r.samples.len(), 1000);
    assert_eq!(r.samples[0], 2964);
    assert_eq!(r.samples[999], 2974);
    let total: u64 = r.samples.iter().map(|&s| s as u64).sum();
    assert_eq!(total, 2968125);
    assert!(r.relation == Relation::Related);
    assert_eq!(r.relation.to_string(), "related");
}

#[test]
fn similarity_mc_of_identical_texts() {
    let mut e = HDCEngine::new();
    let r = e.similarity_mc("same words here", "same words here");
    assert_eq!(r.base, 4096);
    assert!(r.relation == Relation::StronglySimilar);
}

#[test]
fn relation_thresholds() {
    assert!(Relation::of(4096) == Relation::StronglySimilar);
    assert!(Relation::of(3073) == Relation::StronglySimilar);
    // 3072 / 4096 is exactly 0.75, which is not above 0.75.
    assert!(Relation::of(3072) == Relation::Related);
    // 2458 / 4096 is the first count above the f32 value of 0.60.
    assert!(Relation::of(2458) == Relation::Related);
    assert!(Relation::of(2457) == Relation::WeaklyRelated);
    assert!(Relation::of(2049) == Relation::WeaklyRelated);
    assert!(Relation::of(2048) == Relation::Dissimilar);
    assert!(Relation::of(0) == Relation::Dissimilar);
    assert!((2458f32 / 4096f32) > 0.60f32);
    assert!(!((2457f32 / 4096f32) > 0.60f32));
}

#[test]
fn relation_words() {
    assert_eq!(Relation::StronglySimilar.to_string(), "strongly similar");
    assert_eq!(Relation::Related.to_string(), "related");
    assert_eq!(Relation::WeaklyRelated.to_string(), "weakly related");
    assert_eq!(Relation::Dissimilar.to_string(), "dissimilar");
}

#[test]
fn search_mc_is_reproducible() {
    let mut e = animals();
    let a = e.search_mc("brown dog", 10);
    let b = e.search_mc("brown dog", 10);
    let key = |r: &Vec<hera::montecarlo::McTally>| {
        r.iter().map(|t| (t.doc, t.iterations_seen, t.score_sum, t.validated)).collect::<Vec<_>>()
    };
    assert_eq!(key(&a), key(&b));
}

#[test]
fn search_mc_does_not_depend_on_the_item_memory() {
    let mut e1 = animals();
    let mut e2 = animals();
    e2.search_raw("zebra giraffe unrelated words", 1);
    assert_ne!(e1.vocab_size(), e2.vocab_size());
    let key = |r: &Vec<hera::montecarlo::McTally>| {
        r.iter().map(|t| (t.doc, t.iterations_seen, t.score_sum, t.validated)).collect::<Vec<_>>()
    };
    assert_eq!(key(&e1.search_mc("lorem dog", 2)), key(&e2.search_mc("lorem dog", 2)));
}
