//! Monte Carlo validation: queries are re-run many times under seeded bit-flip
//! noise, and what keeps appearing is reported with how often it appeared.

use vstd::prelude::*;
use crate::hdc::{HVec, match_count, match_count_spec};
use crate::rng::{fnv1a, perturb, fnv1a_spec, perturb_spec};
use crate::text::{seed_string, seed_text};
use crate::rank::{top_k, top_k_spec, is_top_k, ranks_before};
use crate::engine::{HDCEngine, Document, encode, encode_spec, encode_vocab, doc_hvs,
    scores_spec, score_docs, score_hvs};
use crate::hdc::{bundle, bundle_spec, hv_views};

verus! {

/// Number of noisy iterations per query.
pub const MC_ITERATIONS: usize = 1000;

/// Size of the top-k window recorded in each iteration.
pub const MC_TOP_K: usize = 10;

/// Flip threshold of the query noise: a bit flips when a 64-bit draw is below
/// it, which is 2% of 2^64 (the value `(0.02 * u64::MAX as f64) as u64`).
pub const MC_FLIP_THRESHOLD: u64 = 368934881474191040;

/// Number of iterations (70% of `MC_ITERATIONS`) in which a result must
/// appear to be validated.
pub const MC_CONSENSUS_SEEN: usize = 700;

/// The noisy query of iteration `it`: `base` perturbed with the seed hashed
/// from `prefix`, `it`, `'_'` and `salt`.
pub open spec fn noisy_query(base: Seq<u64>, prefix: Seq<char>, salt: Seq<char>, it: nat) -> Seq<u64> {
    perturb_spec(base, MC_FLIP_THRESHOLD, fnv1a_spec(seed_text(prefix, it, salt)))
}

/// The similarity counts of the documents against the noisy query of iteration `it`.
pub open spec fn search_scores(base: Seq<u64>, hvs: Seq<Seq<u64>>, query: Seq<char>, it: nat) -> Seq<u32> {
    scores_spec(noisy_query(base, "mc_"@, query, it), hvs)
}

/// The documents in the top-k window of iteration `it`.
pub open spec fn search_window(base: Seq<u64>, hvs: Seq<Seq<u64>>, query: Seq<char>, it: nat) -> Seq<usize> {
    top_k_spec(search_scores(base, hvs, query, it), MC_TOP_K as nat)
}

/// In how many of the first `iters` iterations document `d` was in the window.
pub open spec fn seen_count(base: Seq<u64>, hvs: Seq<Seq<u64>>, query: Seq<char>, iters: nat, d: int) -> nat
    decreases iters,
{
    if iters == 0 {
        0
    } else {
        seen_count(base, hvs, query, (iters - 1) as nat, d) + if search_window(
            base,
            hvs,
            query,
            (iters - 1) as nat,
        ).contains(d as usize) {
            1nat
        } else {
            0nat
        }
    }
}

/// The sum of document `d`'s similarity counts over the first `iters`
/// iterations in which it was in the window.
pub open spec fn score_total(base: Seq<u64>, hvs: Seq<Seq<u64>>, query: Seq<char>, iters: nat, d: int) -> nat
    decreases iters,
{
    if iters == 0 {
        0
    } else {
        score_total(base, hvs, query, (iters - 1) as nat, d) + if search_window(
            base,
            hvs,
            query,
            (iters - 1) as nat,
        ).contains(d as usize) {
            search_scores(base, hvs, query, (iters - 1) as nat)[d] as nat
        } else {
            0nat
        }
    }
}

/// The documents among the first `n` that appeared in at least one window, in order.
pub open spec fn seen_docs(base: Seq<u64>, hvs: Seq<Seq<u64>>, query: Seq<char>, n: nat) -> Seq<usize>
    decreases n,
{
    if n == 0 {
        seq![]
    } else {
        let rest = seen_docs(base, hvs, query, (n - 1) as nat);
        if seen_count(base, hvs, query, MC_ITERATIONS as nat, n - 1) > 0 {
            rest.push((n - 1) as usize)
        } else {
            rest
        }
    }
}

proof fn lemma_seen_docs_bound(base: Seq<u64>, hvs: Seq<Seq<u64>>, query: Seq<char>, n: nat)
    ensures
        forall|a: int| 0 <= a < seen_docs(base, hvs, query, n).len() ==> #[trigger] seen_docs(base, hvs, query, n)[a] < n,
    decreases n,
{
    if n > 0 {
        lemma_seen_docs_bound(base, hvs, query, (n - 1) as nat);
        let rest = seen_docs(base, hvs, query, (n - 1) as nat);
        let all = seen_docs(base, hvs, query, n);
        assert forall|a: int| 0 <= a < all.len() implies #[trigger] all[a] < n by {
            if a < rest.len() {
                assert(all[a] == rest[a]);
            }
        }
    }
}

/// A document's Monte Carlo record: how often it was in the top-k window, the
/// sum of its similarity counts there, and whether it reached the consensus.
pub struct McTally {
    /// Index of the document in the engine.
    pub doc: usize,
    pub id: String,
    pub text: String,
    pub label: String,
    pub source: String,
    /// Number of iterations in which the document was in the window.
    pub iterations_seen: usize,
    /// Sum of its similarity counts (out of 4096) over those iterations.
    pub score_sum: u64,
    /// Whether it was in the window in at least 70% of the iterations.
    pub validated: bool,
}

/// Weight added to the ranking key of a validated result; it exceeds every
/// summed score (at most 4096 per iteration).
pub const MC_VALIDATED_WEIGHT: u32 = 8388608;

/// Ranking key of a search result: validated results above all others, then
/// the summed score, which is the consensus times the mean score scaled by
/// `4096 * MC_ITERATIONS`.
pub open spec fn mc_key(seen: nat, total: nat) -> u32 {
    ((if seen >= MC_CONSENSUS_SEEN { MC_VALIDATED_WEIGHT as nat } else { 0nat }) + total) as u32
}

/// The ranking keys of the documents listed in `sel`.
pub open spec fn mc_keys(base: Seq<u64>, hvs: Seq<Seq<u64>>, query: Seq<char>, sel: Seq<usize>) -> Seq<u32> {
    Seq::new(
        sel.len(),
        |a: int|
            mc_key(
                seen_count(base, hvs, query, MC_ITERATIONS as nat, sel[a] as int),
                score_total(base, hvs, query, MC_ITERATIONS as nat, sel[a] as int),
            ),
    )
}

/// `r` is what a Monte Carlo search of `docs` for `query` keeping `top_k`
/// results returns: the documents recorded at least once, validated first
/// and then by summed score, each with its tallies.
pub open spec fn mc_search_result(docs: Seq<Document>, query: Seq<char>, top_k: nat, r: Seq<McTally>) -> bool {
    let base = encode_spec(query);
    let hvs = doc_hvs(docs);
    let sel = seen_docs(base, hvs, query, docs.len());
    let order = top_k_spec(mc_keys(base, hvs, query, sel), top_k);
    &&& r.len() == if top_k < sel.len() { top_k as int } else { sel.len() as int }
    &&& r.len() == order.len()
    &&& forall|a: int, b: int|
        0 <= a < b < r.len() ==> (r[a].validated || !r[b].validated) && (r[a].validated
            == r[b].validated ==> r[a].score_sum >= r[b].score_sum)
    &&& forall|a: int|
        0 <= a < r.len() ==> {
            let d = sel[order[a] as int] as int;
            let seen = seen_count(base, hvs, query, MC_ITERATIONS as nat, d);
            &&& (#[trigger] r[a]).doc == d
            &&& r[a].id@ == docs[d].id@
            &&& r[a].text@ == docs[d].text@
            &&& r[a].label@ == docs[d].label@
            &&& r[a].source@ == docs[d].source@
            &&& r[a].iterations_seen == seen
            &&& r[a].score_sum == score_total(base, hvs, query, MC_ITERATIONS as nat, d)
            &&& r[a].validated == (seen >= MC_CONSENSUS_SEEN)
        }
}

/// Two lists of search results hold the same tallies, field for field.
pub open spec fn same_tallies(r1: Seq<McTally>, r2: Seq<McTally>) -> bool {
    &&& r1.len() == r2.len()
    &&& forall|a: int|
        0 <= a < r1.len() ==> {
            &&& (#[trigger] r1[a]).doc == r2[a].doc
            &&& r1[a].id@ == r2[a].id@
            &&& r1[a].text@ == r2[a].text@
            &&& r1[a].label@ == r2[a].label@
            &&& r1[a].source@ == r2[a].source@
            &&& r1[a].iterations_seen == r2[a].iterations_seen
            &&& r1[a].score_sum == r2[a].score_sum
            &&& r1[a].validated == r2[a].validated
        }
}

/// A Monte Carlo search is reproducible: its results depend only on the
/// documents, the query and `top_k` (the noise is seeded from the query and
/// the iteration, and the encoding does not depend on the item memory), so two
/// searches of the same documents for the same query agree.
pub proof fn law_search_mc_deterministic(
    docs: Seq<Document>,
    query: Seq<char>,
    top_k: nat,
    r1: Seq<McTally>,
    r2: Seq<McTally>,
)
    requires
        mc_search_result(docs, query, top_k, r1),
        mc_search_result(docs, query, top_k, r2),
    ensures
        same_tallies(r1, r2),
{
    assert forall|a: int| 0 <= a < r1.len() implies {
        &&& (#[trigger] r1[a]).doc == r2[a].doc
        &&& r1[a].id@ == r2[a].id@
        &&& r1[a].text@ == r2[a].text@
        &&& r1[a].label@ == r2[a].label@
        &&& r1[a].source@ == r2[a].source@
        &&& r1[a].iterations_seen == r2[a].iterations_seen
        &&& r1[a].score_sum == r2[a].score_sum
        &&& r1[a].validated == r2[a].validated
    } by {
        assert(r2[a] == r2[a]);
    }
}

/// The window entries are distinct document indices.
proof fn lemma_window_facts(c: Seq<u32>, k: nat, r: Seq<usize>)
    requires
        is_top_k(c, k, r),
    ensures
        forall|a: int| 0 <= a < r.len() ==> r[a] < c.len(),
        forall|a: int, b: int| 0 <= a < b < r.len() ==> r[a] != r[b],
{
    assert forall|a: int, b: int| 0 <= a < b < r.len() implies r[a] != r[b] by {
        assert(ranks_before(c, r[a] as int, r[b] as int));
    }
}

/// Adds one appearance, and the document's score, for every index in `top`.
fn record_window(seen: &mut Vec<usize>, sums: &mut Vec<u64>, top: &Vec<usize>, c: &Vec<u32>)
    requires
        old(seen)@.len() == c@.len(),
        old(sums)@.len() == c@.len(),
        forall|x: int| 0 <= x < top@.len() ==> top@[x] < c@.len(),
        forall|x: int, y: int| 0 <= x < y < top@.len() ==> top@[x] != top@[y],
        forall|j: int| 0 <= j < c@.len() ==> c@[j] <= 4096,
        forall|j: int| 0 <= j < c@.len() ==> old(seen)@[j] < usize::MAX && old(sums)@[j] + 4096 <= u64::MAX,
    ensures
        final(seen)@.len() == c@.len(),
        final(sums)@.len() == c@.len(),
        forall|j: int|
            0 <= j < c@.len() ==> final(seen)@[j] == old(seen)@[j] + if top@.contains(j as usize) {
                1int
            } else {
                0int
            },
        forall|j: int|
            0 <= j < c@.len() ==> final(sums)@[j] == old(sums)@[j] + if top@.contains(j as usize) {
                c@[j] as int
            } else {
                0int
            },
{
    let n = c.len();
    let ghost seen0 = seen@;
    let ghost sums0 = sums@;
    for a in 0..top.len()
        invariant
            n == c@.len(),
            seen0.len() == n,
            sums0.len() == n,
            forall|x: int| 0 <= x < top@.len() ==> top@[x] < n,
            forall|x: int, y: int| 0 <= x < y < top@.len() ==> top@[x] != top@[y],
            forall|j: int| 0 <= j < n ==> c@[j] <= 4096,
            forall|j: int| 0 <= j < n ==> seen0[j] < usize::MAX && sums0[j] + 4096 <= u64::MAX,
            seen@.len() == n,
            sums@.len() == n,
            forall|j: int|
                0 <= j < n ==> seen@[j] == seen0[j] + if top@.take(a as int).contains(j as usize) {
                    1int
                } else {
                    0int
                },
            forall|j: int|
                0 <= j < n ==> sums@[j] == sums0[j] + if top@.take(a as int).contains(j as usize) {
                    c@[j] as int
                } else {
                    0int
                },
    {
        let d = top[a];
        proof {
            assert forall|j: int| 0 <= j < n implies #[trigger] top@.take(a + 1).contains(j as usize)
                == (top@.take(a as int).contains(j as usize) || j == d) by {
                if top@.take(a + 1).contains(j as usize) {
                    let x = choose|x: int| 0 <= x < a + 1 && #[trigger] top@.take(a + 1)[x] == j as usize;
                    if x < a {
                        assert(top@.take(a as int)[x] == j as usize);
                    }
                }
                if j == d {
                    assert(top@.take(a + 1)[a as int] == d);
                }
                if top@.take(a as int).contains(j as usize) {
                    let x = choose|x: int| 0 <= x < a && #[trigger] top@.take(a as int)[x] == j as usize;
                    assert(top@.take(a + 1)[x] == j as usize);
                }
            }
            assert(!top@.take(a as int).contains(d)) by {
                if top@.take(a as int).contains(d) {
                    let x = choose|x: int| 0 <= x < a && #[trigger] top@.take(a as int)[x] == d;
                    assert(top@[x] == top@[a as int]);
                }
            }
        }
        let s = seen[d] + 1;
        seen.set(d, s);
        let t = sums[d] + c[d] as u64;
        sums.set(d, t);
    }
    assert(top@.take(top@.len() as int) =~= top@);
}

// ─── Similarity with noise ───────────────────────────────────────────────────

/// How related two texts are, judged by their similarity count `m` out of
/// 4096: above 0.75 (m > 3072), above 0.60 (m >= 2458, the first count above
/// the single-precision value of 0.60), above 0.50 (m > 2048), or not.
#[derive(PartialEq, Eq, Structural, Clone, Copy)]
pub enum Relation {
    StronglySimilar,
    Related,
    WeaklyRelated,
    Dissimilar,
}

/// The relation of a similarity count.
pub open spec fn relation_of(m: nat) -> Relation {
    if m > 3072 {
        Relation::StronglySimilar
    } else if m >= 2458 {
        Relation::Related
    } else if m > 2048 {
        Relation::WeaklyRelated
    } else {
        Relation::Dissimilar
    }
}

impl Relation {
    /// The relation of the similarity count `m`.
    pub fn of(m: u32) -> (r: Relation)
        ensures
            r == relation_of(m as nat),
    {
        if m > 3072 {
            Relation::StronglySimilar
        } else if m >= 2458 {
            Relation::Related
        } else if m > 2048 {
            Relation::WeaklyRelated
        } else {
            Relation::Dissimilar
        }
    }

    /// The relation in words.
    pub fn to_string(&self) -> (s: String)
        ensures
            s@ == match *self {
                Relation::StronglySimilar => "strongly similar"@,
                Relation::Related => "related"@,
                Relation::WeaklyRelated => "weakly related"@,
                Relation::Dissimilar => "dissimilar"@,
            },
    {
        match self {
            Relation::StronglySimilar => String::from_str("strongly similar"),
            Relation::Related => String::from_str("related"),
            Relation::WeaklyRelated => String::from_str("weakly related"),
            Relation::Dissimilar => String::from_str("dissimilar"),
        }
    }
}

/// The similarity of two texts and its spread under noise.
pub struct SimilarityTally {
    /// Similarity count of the two encodings.
    pub base: u32,
    /// Similarity count of the two noisy encodings in each iteration.
    pub samples: Vec<u32>,
    /// The relation judged from `base`.
    pub relation: Relation,
}

// ─── Classification ──────────────────────────────────────────────────────────

/// The distinct entries of `ls`, in order of first appearance.
pub open spec fn distinct_labels(ls: Seq<Seq<char>>) -> Seq<Seq<char>>
    decreases ls.len(),
{
    if ls.len() == 0 {
        seq![]
    } else {
        let p = distinct_labels(ls.drop_last());
        if p.contains(ls.last()) {
            p
        } else {
            p.push(ls.last())
        }
    }
}

/// The labels of a list of documents.
pub open spec fn doc_labels(docs: Seq<Document>) -> Seq<Seq<char>> {
    docs.map_values(|d: Document| d.label@)
}

/// The hypervectors of the documents labelled `l`, in document order.
pub open spec fn label_hvs(docs: Seq<Document>, l: Seq<char>) -> Seq<Seq<u64>>
    decreases docs.len(),
{
    if docs.len() == 0 {
        seq![]
    } else {
        let p = label_hvs(docs.drop_last(), l);
        if docs.last().label@ == l {
            p.push(docs.last().hv@)
        } else {
            p
        }
    }
}

/// The prototype of each label (in order of first appearance): the bundle of
/// its documents' hypervectors.
pub open spec fn prototypes(docs: Seq<Document>) -> Seq<Seq<u64>> {
    let ls = distinct_labels(doc_labels(docs));
    Seq::new(ls.len(), |j: int| bundle_spec(label_hvs(docs, ls[j])))
}

/// The similarity counts of the prototypes against the noisy text of iteration `it`.
pub open spec fn class_scores(base: Seq<u64>, protos: Seq<Seq<u64>>, text: Seq<char>, it: nat) -> Seq<u32> {
    scores_spec(noisy_query(base, "cls_"@, text, it), protos)
}

/// The winning prototype of iteration `it`: the highest count, the first
/// label on ties.
pub open spec fn class_winner(base: Seq<u64>, protos: Seq<Seq<u64>>, text: Seq<char>, it: nat) -> usize {
    top_k_spec(class_scores(base, protos, text, it), 1)[0]
}

/// In how many of the first `iters` iterations prototype `j` won.
pub open spec fn wins(base: Seq<u64>, protos: Seq<Seq<u64>>, text: Seq<char>, iters: nat, j: int) -> nat
    decreases iters,
{
    if iters == 0 {
        0
    } else {
        wins(base, protos, text, (iters - 1) as nat, j) + if protos.len() > 0 && class_winner(
            base,
            protos,
            text,
            (iters - 1) as nat,
        ) == j {
            1nat
        } else {
            0nat
        }
    }
}

/// The sum of prototype `j`'s winning counts over the first `iters` iterations.
pub open spec fn win_total(base: Seq<u64>, protos: Seq<Seq<u64>>, text: Seq<char>, iters: nat, j: int) -> nat
    decreases iters,
{
    if iters == 0 {
        0
    } else {
        win_total(base, protos, text, (iters - 1) as nat, j) + if protos.len() > 0 && class_winner(
            base,
            protos,
            text,
            (iters - 1) as nat,
        ) == j {
            class_scores(base, protos, text, (iters - 1) as nat)[j] as nat
        } else {
            0nat
        }
    }
}

/// The number of wins of every prototype over all iterations.
pub open spec fn win_counts(base: Seq<u64>, protos: Seq<Seq<u64>>, text: Seq<char>) -> Seq<u32> {
    Seq::new(protos.len(), |j: int| wins(base, protos, text, MC_ITERATIONS as nat, j) as u32)
}

proof fn lemma_distinct_labels(ls: Seq<Seq<char>>)
    ensures
        forall|i: int| 0 <= i < ls.len() ==> distinct_labels(ls).contains(#[trigger] ls[i]),
        forall|j: int| 0 <= j < distinct_labels(ls).len() ==> ls.contains(#[trigger] distinct_labels(ls)[j]),
        distinct_labels(ls).no_duplicates(),
    decreases ls.len(),
{
    if ls.len() > 0 {
        let init = ls.drop_last();
        lemma_distinct_labels(init);
        let p = distinct_labels(init);
        let d = distinct_labels(ls);
        assert forall|i: int| 0 <= i < ls.len() implies d.contains(#[trigger] ls[i]) by {
            if i < ls.len() - 1 {
                assert(init[i] == ls[i]);
                assert(p.contains(init[i]));
                if !p.contains(ls.last()) {
                    let x = choose|x: int| 0 <= x < p.len() && p[x] == init[i];
                    assert(d[x] == p[x]);
                }
            } else if !p.contains(ls.last()) {
                assert(d[p.len() as int] == ls.last());
            }
        }
        assert forall|j: int| 0 <= j < d.len() implies ls.contains(#[trigger] d[j]) by {
            if j < p.len() {
                assert(d[j] == p[j]);
                assert(init.contains(p[j]));
                let x = choose|x: int| 0 <= x < init.len() && init[x] == p[j];
                assert(ls[x] == init[x]);
            } else {
                assert(ls[ls.len() - 1] == ls.last());
            }
        }
        if !p.contains(ls.last()) {
            assert forall|a: int, b: int| 0 <= a < d.len() && 0 <= b < d.len() && a != b implies d[a] != d[b] by {
                if a < p.len() && b < p.len() {
                    assert(d[a] == p[a] && d[b] == p[b]);
                } else if a < p.len() {
                    assert(d[a] == p[a]);
                } else {
                    assert(d[b] == p[b]);
                }
            }
        }
    }
}

proof fn lemma_label_hvs_member(docs: Seq<Document>, i: int)
    requires
        0 <= i < docs.len(),
    ensures
        label_hvs(docs, docs[i].label@).contains(docs[i].hv@),
    decreases docs.len(),
{
    let l = docs[i].label@;
    let init = docs.drop_last();
    if i < docs.len() - 1 {
        lemma_label_hvs_member(init, i);
        assert(init[i] == docs[i]);
        let p = label_hvs(init, l);
        let x = choose|x: int| 0 <= x < p.len() && p[x] == docs[i].hv@;
        if docs.last().label@ == l {
            assert(label_hvs(docs, l)[x] == p[x]);
        }
    } else {
        let p = label_hvs(init, l);
        assert(label_hvs(docs, l)[p.len() as int] == docs[i].hv@);
    }
}

/// Every document takes part in classification: its label is one of the
/// labels classified (each listed once, each some document's label, each with
/// a prototype), and its vector is among those bundled into that label's
/// prototype.
pub proof fn law_every_label_classified(docs: Seq<Document>)
    ensures
        forall|i: int|
            0 <= i < docs.len() ==> distinct_labels(doc_labels(docs)).contains(#[trigger] docs[i].label@),
        forall|j: int|
            0 <= j < distinct_labels(doc_labels(docs)).len() ==> exists|i: int|
                0 <= i < docs.len() && docs[i].label@ == #[trigger] distinct_labels(doc_labels(docs))[j],
        distinct_labels(doc_labels(docs)).no_duplicates(),
        prototypes(docs).len() == distinct_labels(doc_labels(docs)).len(),
        forall|i: int| 0 <= i < docs.len() ==> label_hvs(docs, docs[i].label@).contains(#[trigger] docs[i].hv@),
{
    let ls = doc_labels(docs);
    lemma_distinct_labels(ls);
    assert forall|i: int| 0 <= i < docs.len() implies distinct_labels(ls).contains(#[trigger] docs[i].label@) by {
        assert(ls[i] == docs[i].label@);
    }
    assert forall|j: int| 0 <= j < distinct_labels(ls).len() implies exists|i: int|
        0 <= i < docs.len() && docs[i].label@ == #[trigger] distinct_labels(ls)[j] by {
        let x = choose|x: int| 0 <= x < ls.len() && ls[x] == distinct_labels(ls)[j];
        assert(docs[x].label@ == ls[x]);
    }
    assert forall|i: int| 0 <= i < docs.len() implies label_hvs(docs, docs[i].label@).contains(#[trigger] docs[i].hv@) by {
        lemma_label_hvs_member(docs, i);
    }
}

/// A label's Monte Carlo record: how many iterations it won and the sum of
/// its similarity counts in them.
pub struct LabelTally {
    pub label: String,
    /// Number of iterations the label's prototype was the most similar.
    pub count: usize,
    /// Sum of its similarity counts (out of 4096) in those iterations.
    pub score_sum: u64,
    /// Whether it won at least 70% of the iterations.
    pub validated: bool,
}

/// The distinct labels of the documents, in order of first appearance.
fn collect_labels(docs: &Vec<Document>) -> (ls: Vec<String>)
    ensures
        crate::text::strings_view(ls@) == distinct_labels(doc_labels(docs@)),
{
    let mut ls: Vec<String> = Vec::new();
    for i in 0..docs.len()
        invariant
            crate::text::strings_view(ls@) == distinct_labels(doc_labels(docs@).take(i as int)),
    {
        let ghost prev = doc_labels(docs@).take(i as int);
        assert(doc_labels(docs@).take(i + 1).drop_last() =~= prev);
        assert(doc_labels(docs@).take(i + 1).last() == docs@[i as int].label@);
        let mut found = false;
        for k in 0..ls.len()
            invariant
                i < docs@.len(),
                found <==> exists|x: int| 0 <= x < k && ls@[x]@ == docs@[i as int].label@,
        {
            if ls[k] == docs[i].label {
                found = true;
            }
        }
        let ghost v = crate::text::strings_view(ls@);
        if found {
            assert(v.contains(docs@[i as int].label@)) by {
                let x = choose|x: int| 0 <= x < ls@.len() && ls@[x]@ == docs@[i as int].label@;
                assert(v[x] == docs@[i as int].label@);
            }
        } else {
            assert(!v.contains(docs@[i as int].label@)) by {
                if v.contains(docs@[i as int].label@) {
                    let x = choose|x: int| 0 <= x < v.len() && v[x] == docs@[i as int].label@;
                    assert(ls@[x]@ == docs@[i as int].label@);
                }
            }
            ls.push(docs[i].label.clone());
            assert(crate::text::strings_view(ls@) =~= v.push(docs@[i as int].label@));
        }
    }
    assert(doc_labels(docs@).take(docs.len() as int) =~= doc_labels(docs@));
    ls
}

/// The hypervectors of the documents labelled `l`.
fn hvs_with_label(docs: &Vec<Document>, l: &String) -> (v: Vec<HVec>)
    ensures
        hv_views(v@) == label_hvs(docs@, l@),
{
    let mut v: Vec<HVec> = Vec::new();
    for i in 0..docs.len()
        invariant
            hv_views(v@) == label_hvs(docs@.take(i as int), l@),
    {
        assert(docs@.take(i + 1).drop_last() =~= docs@.take(i as int));
        assert(docs@.take(i + 1).last() == docs@[i as int]);
        if docs[i].label == *l {
            let ghost before = v@;
            v.push(docs[i].hv);
            assert(hv_views(v@) =~= hv_views(before).push(docs@[i as int].hv@));
        }
    }
    assert(docs@.take(docs.len() as int) =~= docs@);
    v
}

/// The prototype (bundle of document vectors) of each label.
fn build_prototypes(docs: &Vec<Document>, labels: &Vec<String>) -> (ps: Vec<HVec>)
    requires
        crate::text::strings_view(labels@) == distinct_labels(doc_labels(docs@)),
    ensures
        hv_views(ps@) == prototypes(docs@),
{
    let mut ps: Vec<HVec> = Vec::new();
    for j in 0..labels.len()
        invariant
            crate::text::strings_view(labels@) == distinct_labels(doc_labels(docs@)),
            hv_views(ps@) =~= prototypes(docs@).take(j as int),
    {
        let group = hvs_with_label(docs, &labels[j]);
        let p = bundle(group.as_slice());
        assert(labels@[j as int]@ == distinct_labels(doc_labels(docs@))[j as int]);
        assert(p@ == prototypes(docs@)[j as int]);
        let ghost before = ps@;
        ps.push(p);
        assert(hv_views(ps@) =~= hv_views(before).push(p@));
    }
    assert(prototypes(docs@).take(labels.len() as int) =~= prototypes(docs@));
    ps
}

/// Records the iteration's winner, the first index of the highest count in `c`
/// (nothing when `c` is empty): one more win, and its count added.
fn record_winner(counts: &mut Vec<u32>, sums: &mut Vec<u64>, c: &Vec<u32>)
    requires
        old(counts)@.len() == c@.len(),
        old(sums)@.len() == c@.len(),
        forall|j: int| 0 <= j < c@.len() ==> c@[j] <= 4096,
        forall|j: int| 0 <= j < c@.len() ==> old(counts)@[j] < u32::MAX && old(sums)@[j] + 4096 <= u64::MAX,
    ensures
        final(counts)@.len() == c@.len(),
        final(sums)@.len() == c@.len(),
        forall|j: int|
            0 <= j < c@.len() ==> final(counts)@[j] == old(counts)@[j] + if c@.len() > 0 && top_k_spec(c@, 1)[0] == j {
                1int
            } else {
                0int
            },
        forall|j: int|
            0 <= j < c@.len() ==> final(sums)@[j] == old(sums)@[j] + if c@.len() > 0 && top_k_spec(c@, 1)[0] == j {
                c@[j] as int
            } else {
                0int
            },
{
    if c.len() > 0 {
        let best = top_k(c, 1);
        let w = best[0];
        let cw = counts[w] + 1;
        counts.set(w, cw);
        let sw = sums[w] + c[w] as u64;
        sums.set(w, sw);
    }
}

impl HDCEngine {
    /// Monte Carlo validated search. The query is encoded once; in each of
    /// `MC_ITERATIONS` iterations it is perturbed with the seed hashed from
    /// `"mc_{iteration}_{query}"`, all documents are scored against it, and the
    /// `MC_TOP_K` best (equal scores in document order) are recorded. Of the
    /// documents recorded at least once, returns the `top_k` first in ranking
    /// order: validated ones first, then by summed score (consensus times mean
    /// score), equal keys in document order.
    pub fn search_mc(&mut self, query: &str, top_k: usize) -> (r: Vec<McTally>)
        ensures
            final(self).docs@ == old(self).docs@,
            final(self).mem@ == old(self).mem@.union(encode_vocab(query@)),
            mc_search_result(old(self).docs@, query@, top_k as nat, r@),
    {
        let base = encode(query, &mut self.mem);
        let n = self.docs.len();
        let ghost hvs = doc_hvs(self.docs@);
        let mut seen: Vec<usize> = Vec::new();
        let mut sums: Vec<u64> = Vec::new();
        for d in 0..n
            invariant
                seen@.len() == d,
                sums@.len() == d,
                forall|j: int| 0 <= j < d ==> seen@[j] == 0 && sums@[j] == 0,
        {
            seen.push(0);
            sums.push(0);
        }
        for it in 0..MC_ITERATIONS
            invariant
                n == self.docs@.len(),
                hvs == doc_hvs(self.docs@),
                base@ == encode_spec(query@),
                seen@.len() == n,
                sums@.len() == n,
                forall|j: int| 0 <= j < n ==> seen@[j] == seen_count(base@, hvs, query@, it as nat, j),
                forall|j: int| 0 <= j < n ==> sums@[j] == score_total(base@, hvs, query@, it as nat, j),
                forall|j: int| 0 <= j < n ==> seen@[j] <= it && sums@[j] <= 4096 * it,
        {
            let salt = seed_string("mc_", it as u64, query);
            let q = perturb(&base, MC_FLIP_THRESHOLD, fnv1a(salt.as_str()));
            let c = score_docs(&self.docs, &q);
            let top = crate::rank::top_k(&c, MC_TOP_K);
            proof {
                lemma_window_facts(c@, MC_TOP_K as nat, top@);
                assert(c@ == search_scores(base@, hvs, query@, it as nat));
                assert(top@ == search_window(base@, hvs, query@, it as nat));
                assert forall|j: int| 0 <= j < n implies c@[j] <= 4096 by {
                    assert(c@[j] == match_count_spec(q@, hvs[j]) as u32);
                    crate::hdc::lemma_match_count_bound(q@, hvs[j]);
                }
            }
            record_window(&mut seen, &mut sums, &top, &c);
        }
        assert(self.docs@ == old(self).docs@);
        let mut sel: Vec<usize> = Vec::new();
        let mut keys: Vec<u32> = Vec::new();
        for d in 0..n
            invariant
                n == self.docs@.len(),
                hvs == doc_hvs(self.docs@),
                base@ == encode_spec(query@),
                seen@.len() == n,
                sums@.len() == n,
                forall|j: int|
                    0 <= j < n ==> seen@[j] == seen_count(base@, hvs, query@, MC_ITERATIONS as nat, j)
                        && sums@[j] == score_total(base@, hvs, query@, MC_ITERATIONS as nat, j),
                forall|j: int| 0 <= j < n ==> sums@[j] <= 4096 * MC_ITERATIONS,
                sel@ == seen_docs(base@, hvs, query@, d as nat),
                keys@ == mc_keys(base@, hvs, query@, sel@),
        {
            let ghost prev = sel@;
            assert(seen_docs(base@, hvs, query@, (d + 1) as nat) == if seen@[d as int] > 0 {
                prev.push(d)
            } else {
                prev
            });
            if seen[d] > 0 {
                let w: u32 = if seen[d] >= MC_CONSENSUS_SEEN { MC_VALIDATED_WEIGHT } else { 0 };
                let key: u32 = w + sums[d] as u32;
                assert(key == mc_key(seen@[d as int] as nat, sums@[d as int] as nat));
                sel.push(d);
                keys.push(key);
                assert(keys@ =~= mc_keys(base@, hvs, query@, sel@));
            }
        }
        proof {
            lemma_seen_docs_bound(base@, hvs, query@, n as nat);
        }
        let order = crate::rank::top_k(&keys, top_k);
        let mut r: Vec<McTally> = Vec::new();
        for a in 0..order.len()
            invariant
                n == self.docs@.len(),
                hvs == doc_hvs(self.docs@),
                seen@.len() == n,
                sums@.len() == n,
                forall|j: int|
                    0 <= j < n ==> seen@[j] == seen_count(base@, hvs, query@, MC_ITERATIONS as nat, j)
                        && sums@[j] == score_total(base@, hvs, query@, MC_ITERATIONS as nat, j),
                forall|x: int| 0 <= x < sel@.len() ==> sel@[x] < n,
                keys@.len() == sel@.len(),
                forall|x: int| 0 <= x < order@.len() ==> order@[x] < keys@.len(),
                r@.len() == a,
                forall|x: int|
                    0 <= x < a ==> {
                        let j = sel@[order@[x] as int] as int;
                        &&& (#[trigger] r@[x]).doc == j
                        &&& r@[x].id@ == self.docs@[j].id@
                        &&& r@[x].text@ == self.docs@[j].text@
                        &&& r@[x].label@ == self.docs@[j].label@
                        &&& r@[x].source@ == self.docs@[j].source@
                        &&& r@[x].iterations_seen == seen@[j]
                        &&& r@[x].score_sum == sums@[j]
                        &&& r@[x].validated == (seen@[j] >= MC_CONSENSUS_SEEN)
                    },
        {
            let d = sel[order[a]];
            let doc = &self.docs[d];
            r.push(
                McTally {
                    doc: d,
                    id: doc.id.clone(),
                    text: doc.text.clone(),
                    label: doc.label.clone(),
                    source: doc.source.clone(),
                    iterations_seen: seen[d],
                    score_sum: sums[d],
                    validated: seen[d] >= MC_CONSENSUS_SEEN,
                },
            );
        }
        proof {
            assert forall|a: int, b: int| 0 <= a < b < r@.len() implies (r@[a].validated || !r@[b].validated)
                && (r@[a].validated == r@[b].validated ==> r@[a].score_sum >= r@[b].score_sum) by {
                assert(crate::rank::ranks_before(keys@, order@[a] as int, order@[b] as int));
                let ja = sel@[order@[a] as int] as int;
                let jb = sel@[order@[b] as int] as int;
                assert(keys@[order@[a] as int] == mc_key(seen@[ja] as nat, sums@[ja] as nat));
                assert(keys@[order@[b] as int] == mc_key(seen@[jb] as nat, sums@[jb] as nat));
            }
        }
        r
    }

    /// Similarity of two texts with Monte Carlo spread: the similarity count of
    /// their encodings, and in each of `MC_ITERATIONS` iterations the count of
    /// the two encodings perturbed with the seeds hashed from
    /// `"sa_{iteration}_{a}"` and `"sb_{iteration}_{b}"`.
    pub fn similarity_mc(&mut self, a: &str, b: &str) -> (r: SimilarityTally)
        ensures
            final(self).docs@ == old(self).docs@,
            final(self).mem@ == old(self).mem@.union(encode_vocab(a@)).union(encode_vocab(b@)),
            r.base == match_count_spec(encode_spec(a@), encode_spec(b@)),
            r.relation == relation_of(r.base as nat),
            r.samples@.len() == MC_ITERATIONS,
            forall|it: int|
                0 <= it < MC_ITERATIONS ==> #[trigger] r.samples@[it] == match_count_spec(
                    noisy_query(encode_spec(a@), "sa_"@, a@, it as nat),
                    noisy_query(encode_spec(b@), "sb_"@, b@, it as nat),
                ),
    {
        let ha = encode(a, &mut self.mem);
        let hb = encode(b, &mut self.mem);
        let base = match_count(&ha, &hb);
        let mut samples: Vec<u32> = Vec::new();
        for it in 0..MC_ITERATIONS
            invariant
                ha@ == encode_spec(a@),
                hb@ == encode_spec(b@),
                samples@.len() == it,
                forall|j: int|
                    0 <= j < it ==> #[trigger] samples@[j] == match_count_spec(
                        noisy_query(encode_spec(a@), "sa_"@, a@, j as nat),
                        noisy_query(encode_spec(b@), "sb_"@, b@, j as nat),
                    ),
        {
            let seed_a = fnv1a(seed_string("sa_", it as u64, a).as_str());
            let seed_b = fnv1a(seed_string("sb_", it as u64, b).as_str());
            let sa = perturb(&ha, MC_FLIP_THRESHOLD, seed_a);
            let sb = perturb(&hb, MC_FLIP_THRESHOLD, seed_b);
            samples.push(match_count(&sa, &sb));
        }
        SimilarityTally { base, samples, relation: Relation::of(base) }
    }

    /// Monte Carlo classification. Each distinct label (in order of first
    /// appearance) gets a prototype, the bundle of its documents' vectors. In
    /// each of `MC_ITERATIONS` iterations the encoded text is perturbed with the
    /// seed hashed from `"cls_{iteration}_{text}"` and the most similar
    /// prototype wins (on equal counts, the label that appeared first). Returns
    /// the labels that won at least once, most wins first (equal wins in label
    /// order), with their win counts and summed similarity counts.
    pub fn classify_mc(&mut self, text: &str) -> (r: Vec<LabelTally>)
        ensures
            final(self).docs@ == old(self).docs@,
            final(self).mem@ == old(self).mem@.union(encode_vocab(text@)),
            ({
                let docs = old(self).docs@;
                let labels = distinct_labels(doc_labels(docs));
                let protos = prototypes(docs);
                let base = encode_spec(text@);
                let counts = win_counts(base, protos, text@);
                let order = top_k_spec(counts, labels.len());
                &&& r@.len() <= labels.len()
                &&& forall|a: int, b: int| 0 <= a < b < r@.len() ==> r@[a].count >= r@[b].count
                &&& forall|a: int| 0 <= a < r@.len() ==> counts[order[a] as int] > 0
                &&& forall|a: int| r@.len() <= a < labels.len() ==> counts[order[a] as int] == 0
                &&& forall|a: int|
                    0 <= a < r@.len() ==> {
                        let j = order[a] as int;
                        &&& (#[trigger] r@[a]).label@ == labels[j]
                        &&& r@[a].count == wins(base, protos, text@, MC_ITERATIONS as nat, j)
                        &&& r@[a].score_sum == win_total(base, protos, text@, MC_ITERATIONS as nat, j)
                        &&& r@[a].validated == (r@[a].count >= MC_CONSENSUS_SEEN)
                    }
            }),
    {
        let labels = collect_labels(&self.docs);
        let protos = build_prototypes(&self.docs, &labels);
        let base = encode(text, &mut self.mem);
        let nl = labels.len();
        let ghost ps = hv_views(protos@);
        let mut counts: Vec<u32> = Vec::new();
        let mut sums: Vec<u64> = Vec::new();
        for j in 0..nl
            invariant
                counts@.len() == j,
                sums@.len() == j,
                forall|x: int| 0 <= x < j ==> counts@[x] == 0 && sums@[x] == 0,
        {
            counts.push(0);
            sums.push(0);
        }
        for it in 0..MC_ITERATIONS
            invariant
                nl == labels@.len(),
                ps == hv_views(protos@),
                ps.len() == nl,
                base@ == encode_spec(text@),
                counts@.len() == nl,
                sums@.len() == nl,
                forall|j: int| 0 <= j < nl ==> counts@[j] == wins(base@, ps, text@, it as nat, j),
                forall|j: int| 0 <= j < nl ==> sums@[j] == win_total(base@, ps, text@, it as nat, j),
                forall|j: int| 0 <= j < nl ==> counts@[j] <= it && sums@[j] <= 4096 * it,
        {
            let salt = seed_string("cls_", it as u64, text);
            let q = perturb(&base, MC_FLIP_THRESHOLD, fnv1a(salt.as_str()));
            let c = score_hvs(&protos, &q);
            proof {
                assert(c@ == class_scores(base@, ps, text@, it as nat));
            }
            proof {
                assert forall|j: int| 0 <= j < nl implies c@[j] <= 4096 by {
                    assert(c@[j] == match_count_spec(q@, ps[j]) as u32);
                    crate::hdc::lemma_match_count_bound(q@, ps[j]);
                }
            }
            let ghost counts0 = counts@;
            let ghost sums0 = sums@;
            record_winner(&mut counts, &mut sums, &c);
            proof {
                assert forall|j: int| 0 <= j < nl implies counts@[j] == wins(base@, ps, text@, (it + 1) as nat, j)
                    && sums@[j] == win_total(base@, ps, text@, (it + 1) as nat, j) by {
                    if nl > 0 {
                        assert(top_k_spec(c@, 1)[0] == class_winner(base@, ps, text@, it as nat));
                    }
                }
            }
        }
        assert(self.docs@ == old(self).docs@);
        assert(counts@ =~= win_counts(base@, ps, text@));
        let order = top_k(&counts, nl);
        let mut r: Vec<LabelTally> = Vec::new();
        let mut a: usize = 0;
        while a < order.len() && counts[order[a]] > 0
            invariant
                nl == labels@.len(),
                order@.len() == nl,
                counts@.len() == nl,
                is_top_k(counts@, nl as nat, order@),
                forall|x: int| 0 <= x < order@.len() ==> order@[x] < nl,
                a <= nl,
                sums@.len() == nl,
                labels@.len() == nl,
                r@.len() == a,
                forall|x: int| 0 <= x < a ==> counts@[order@[x] as int] > 0,
                forall|x: int|
                    0 <= x < a ==> {
                        let j = order@[x] as int;
                        &&& (#[trigger] r@[x]).label@ == labels@[j]@
                        &&& r@[x].count == counts@[j]
                        &&& r@[x].score_sum == sums@[j]
                        &&& r@[x].validated == (r@[x].count >= MC_CONSENSUS_SEEN)
                    },
            decreases nl - a,
        {
            let j = order[a];
            let count = counts[j] as usize;
            r.push(
                LabelTally {
                    label: labels[j].clone(),
                    count,
                    score_sum: sums[j],
                    validated: count >= MC_CONSENSUS_SEEN,
                },
            );
            a = a + 1;
        }
        proof {
            // Counts are in descending order, so the ones after the first zero are zero.
            assert forall|x: int| a <= x < nl implies counts@[order@[x] as int] == 0 by {
                if x > a {
                    assert(crate::rank::ranks_before(counts@, order@[a as int] as int, order@[x] as int));
                }
            }
            assert forall|x: int, y: int| 0 <= x < y < r@.len() implies r@[x].count >= r@[y].count by {
                assert(crate::rank::ranks_before(counts@, order@[x] as int, order@[y] as int));
            }
        }
        r
    }
}

} // verus!
