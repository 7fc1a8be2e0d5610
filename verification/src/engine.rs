//! Item memory, the text encoder, and the engine that stores encoded documents
//! and answers searches over them.

use vstd::prelude::*;
use crate::hdc::{HVec, bind, bundle, permute, match_count, bind_spec, bundle_spec,
    permute_spec, hv_views, match_count_spec, zero_hv};
use crate::rng::{fnv1a, random_hv, fnv1a_spec, random_hv_spec};
use crate::text::{tokenize, tokenize_spec, strings_view, digit_char};
use crate::rank::{top_k, top_k_spec};

verus! {

broadcast use vstd::seq_lib::group_seq_properties;

/// The hypervector that item memory assigns to a token: the random vector
/// seeded with the token's FNV-1a hash.
pub open spec fn token_hv(t: Seq<char>) -> Seq<u64> {
    random_hv_spec(fnv1a_spec(t))
}

/// A memory of token hypervectors. Each token's vector is created on first
/// use and kept; the memory's view is the set of tokens seen.
pub struct ItemMemory {
    entries: Vec<(String, HVec)>,
}

impl ItemMemory {
    /// The tokens in the order they were first seen.
    pub closed spec fn keys(&self) -> Seq<Seq<char>> {
        self.entries@.map_values(|e: (String, HVec)| e.0@)
    }

    #[verifier::type_invariant]
    spec fn inv(&self) -> bool {
        &&& self.keys().no_duplicates()
        &&& forall|i: int|
            0 <= i < self.entries@.len() ==> (#[trigger] self.entries@[i]).1@ == token_hv(
                self.entries@[i].0@,
            )
    }

    /// An empty memory.
    pub fn new() -> (m: Self)
        ensures
            m@ == Set::<Seq<char>>::empty(),
            m@.finite(),
    {
        let m = ItemMemory { entries: Vec::new() };
        assert(m.keys() =~= Seq::<Seq<char>>::empty());
        m
    }

    /// The hypervector of `token`, which is recorded in the memory.
    pub fn get(&mut self, token: &str) -> (r: HVec)
        ensures
            r@ == token_hv(token@),
            final(self)@ == old(self)@.insert(token@),
            final(self)@.finite(),
            final(self)@.len() == old(self)@.len() + if old(self)@.contains(token@) { 0int } else { 1int },
    {
        proof {
            use_type_invariant(&*self);
            self.lemma_finite();
        }
        let key = String::from_str(token);
        let n = self.entries.len();
        for i in 0..n
            invariant
                n == self.entries@.len(),
                key@ == token@,
                self.keys().no_duplicates(),
                forall|j: int|
                    0 <= j < self.entries@.len() ==> (#[trigger] self.entries@[j]).1@ == token_hv(
                        self.entries@[j].0@,
                    ),
                forall|j: int| 0 <= j < i ==> self.keys()[j] != token@,
        {
            if self.entries[i].0 == key {
                proof {
                    assert(self.keys()[i as int] == token@);
                    assert(self.keys().to_set().contains(token@));
                    assert(self@.insert(token@) =~= self@);
                }
                return self.entries[i].1;
            }
        }
        let hv = random_hv(fnv1a(token));
        let ghost old_keys = self.keys();
        let mut entries: Vec<(String, HVec)> = Vec::new();
        proof {
            assert(entries@.map_values(|e: (String, HVec)| e.0@) =~= Seq::<Seq<char>>::empty());
        }
        std::mem::swap(&mut entries, &mut self.entries);
        entries.push((key, hv));
        proof {
            assert(entries@.map_values(|e: (String, HVec)| e.0@) =~= old_keys.push(token@));
            assert(!old_keys.contains(token@));
        }
        self.entries = entries;
        proof {
            assert(old(self)@.finite());
            assert(!old(self)@.contains(token@));
            assert(self@ =~= old(self)@.insert(token@));
        }
        hv
    }

    /// Number of distinct tokens in the memory.
    pub fn size(&self) -> (n: usize)
        ensures
            n == self@.len(),
            self@.finite(),
    {
        proof {
            use_type_invariant(&*self);
            self.keys().unique_seq_to_set();
        }
        self.entries.len()
    }
}

impl View for ItemMemory {
    type V = Set<Seq<char>>;

    closed spec fn view(&self) -> Set<Seq<char>> {
        self.keys().to_set()
    }
}

impl ItemMemory {
    /// The set of tokens in a memory is finite.
    pub proof fn lemma_finite(&self)
        ensures
            self@.finite(),
    {
        self.keys().lemma_cardinality_of_set();
    }
}

// ─── Encoder ─────────────────────────────────────────────────────────────────

/// The item-memory key of position `i`: `"__p"` followed by the digit `i mod 8`.
pub open spec fn pos_key(i: int) -> Seq<char> {
    seq!['_', '_', 'p', digit_char(i % 8)]
}

/// The key string of position `i`.
pub fn pos_key_string(i: usize) -> (s: String)
    ensures
        s@ == pos_key(i as int),
{
    let mut s = String::from_str("__p");
    proof {
        reveal_strlit("__p");
    }
    let d = (i % 8) as u8;
    crate::text::string_push(&mut s, (48u8 + d) as char);
    assert(s@ =~= pos_key(i as int));
    s
}

/// One part per token: the token's vector bound with its position vector.
pub open spec fn unigram_parts(toks: Seq<Seq<char>>) -> Seq<Seq<u64>> {
    Seq::new(toks.len(), |i: int| bind_spec(token_hv(toks[i]), token_hv(pos_key(i))))
}

/// Two equal parts per pair of neighbouring tokens: the first token's vector
/// permuted by one bit, bound with the second token's vector.
pub open spec fn bigram_parts(toks: Seq<Seq<char>>) -> Seq<Seq<u64>> {
    Seq::new(
        if toks.len() > 0 { 2 * (toks.len() - 1) } else { 0 } as nat,
        |j: int| bind_spec(permute_spec(token_hv(toks[j / 2]), 1), token_hv(toks[j / 2 + 1])),
    )
}

/// The hypervector of a text: the bundle of its unigram and doubled bigram
/// parts; the zero vector for a text without tokens.
pub open spec fn encode_spec(text: Seq<char>) -> Seq<u64> {
    let toks = tokenize_spec(text);
    if toks.len() == 0 {
        zero_hv()
    } else {
        bundle_spec(unigram_parts(toks) + bigram_parts(toks))
    }
}

/// The keys that encoding a text records in item memory: its tokens and the
/// position keys of its token positions.
pub open spec fn encode_vocab(text: Seq<char>) -> Set<Seq<char>> {
    let toks = tokenize_spec(text);
    vocab_seq(toks, toks.len() as int).to_set()
}

/// The keys looked up for the first `i` token positions: each token followed by
/// its position key.
pub open spec fn vocab_seq(toks: Seq<Seq<char>>, i: int) -> Seq<Seq<char>> {
    Seq::new((2 * i) as nat, |k: int| if k % 2 == 0 { toks[k / 2] } else { pos_key(k / 2) })
}

/// Every token of a text takes part in its encoding. With `n` tokens, the
/// encoding is the bitwise majority of `3n - 2` vectors: for each token `i`,
/// its vector bound with the key of position `i`; and for each neighbouring
/// pair `i, i + 1`, twice the first token's vector rotated by one bit bound
/// with the second's. Encoding records every token and every position key in
/// item memory. A text without tokens encodes to the zero vector.
pub proof fn law_encode_uses_every_token(text: Seq<char>)
    ensures
        ({
            let toks = tokenize_spec(text);
            let n = toks.len() as int;
            &&& n == 0 ==> encode_spec(text) == zero_hv()
            &&& n > 0 ==> encode_spec(text) == bundle_spec(
                Seq::new(
                    (3 * n - 2) as nat,
                    |j: int|
                        if j < n {
                            bind_spec(token_hv(toks[j]), token_hv(pos_key(j)))
                        } else {
                            bind_spec(
                                permute_spec(token_hv(toks[(j - n) / 2]), 1),
                                token_hv(toks[(j - n) / 2 + 1]),
                            )
                        },
                ),
            )
            &&& forall|i: int|
                0 <= i < n ==> encode_vocab(text).contains(#[trigger] toks[i]) && encode_vocab(text).contains(
                    pos_key(i),
                )
        }),
{
    let toks = tokenize_spec(text);
    let n = toks.len() as int;
    if n > 0 {
        let parts = Seq::new(
            (3 * n - 2) as nat,
            |j: int|
                if j < n {
                    bind_spec(token_hv(toks[j]), token_hv(pos_key(j)))
                } else {
                    bind_spec(permute_spec(token_hv(toks[(j - n) / 2]), 1), token_hv(toks[(j - n) / 2 + 1]))
                },
        );
        assert(unigram_parts(toks) + bigram_parts(toks) =~= parts);
    }
    let v = vocab_seq(toks, n);
    assert forall|i: int| 0 <= i < n implies encode_vocab(text).contains(#[trigger] toks[i]) && encode_vocab(
        text,
    ).contains(pos_key(i)) by {
        assert(v[2 * i] == toks[i]);
        assert(v[2 * i + 1] == pos_key(i));
    }
}

/// Encodes a text: binds each token with its position (mod 8), adds each pair
/// of neighbouring tokens twice (first permuted by one), and bundles all parts.
pub fn encode(text: &str, mem: &mut ItemMemory) -> (r: HVec)
    ensures
        r@ == encode_spec(text@),
        final(mem)@ == old(mem)@.union(encode_vocab(text@)),
{
    let toks = tokenize(text);
    let ghost ts = strings_view(toks@);
    if toks.len() == 0 {
        let r: HVec = [0u64; 64];
        assert(r@ =~= zero_hv());
        assert(old(mem)@.union(encode_vocab(text@)) =~= old(mem)@);
        return r;
    }
    let n = toks.len();
    let ghost m0 = mem@;
    let mut parts: Vec<HVec> = Vec::new();
    for i in 0..n
        invariant
            n == toks@.len(),
            ts == strings_view(toks@),
            ts == tokenize_spec(text@),
            hv_views(parts@) =~= unigram_parts(ts).take(i as int),
            mem@ == m0.union(vocab_seq(ts, i as int).to_set()),
    {
        assert(toks@[i as int]@ == ts[i as int]);
        let tv = mem.get(toks[i].as_str());
        let key = pos_key_string(i);
        let pv = mem.get(key.as_str());
        let b = bind(&tv, &pv);
        assert(b@ == unigram_parts(ts)[i as int]);
        let ghost before = parts@;
        parts.push(b);
        proof {
            assert(parts@ == before.push(b));
            assert(hv_views(parts@) =~= hv_views(before).push(b@));
            assert(hv_views(parts@) =~= unigram_parts(ts).take(i + 1));
            let v1 = vocab_seq(ts, i as int);
            assert(vocab_seq(ts, i + 1) =~= v1.push(ts[i as int]).push(pos_key(i as int)));
            v1.lemma_push_to_set_commute(ts[i as int]);
            v1.push(ts[i as int]).lemma_push_to_set_commute(pos_key(i as int));
            assert(m0.union(v1.to_set()).insert(ts[i as int]).insert(pos_key(i as int)) =~= m0.union(
                vocab_seq(ts, i + 1).to_set(),
            ));
        }
    }
    assert(unigram_parts(ts).take(n as int) =~= unigram_parts(ts));
    let ghost vocab = mem@;
    assert(vocab == old(mem)@.union(encode_vocab(text@)));
    assert forall|j: int| 0 <= j < n implies vocab.contains(#[trigger] ts[j]) by {
        assert(vocab_seq(ts, n as int)[2 * j] == ts[j]);
        assert(vocab_seq(ts, n as int).to_set().contains(ts[j]));
    }
    for i in 0..n - 1
        invariant
            n == toks@.len(),
            n > 0,
            ts == strings_view(toks@),
            ts == tokenize_spec(text@),
            hv_views(parts@) =~= unigram_parts(ts) + bigram_parts(ts).take(2 * i),
            mem@ == vocab,
            forall|j: int| 0 <= j < n ==> vocab.contains(#[trigger] ts[j]),
    {
        assert(toks@[i as int]@ == ts[i as int]);
        assert(toks@[i + 1]@ == ts[i + 1]);
        let h1 = mem.get(toks[i].as_str());
        let h2 = mem.get(toks[i + 1].as_str());
        let bg = bind(&permute(&h1, 1), &h2);
        assert(bg@ == bigram_parts(ts)[2 * i]);
        assert(bg@ == bigram_parts(ts)[2 * i + 1]);
        let ghost before = parts@;
        parts.push(bg);
        parts.push(bg);
        proof {
            assert(vocab.insert(ts[i as int]) =~= vocab);
            assert(vocab.insert(ts[i + 1]) =~= vocab);
            assert(parts@ == before.push(bg).push(bg));
            assert(hv_views(parts@) =~= hv_views(before).push(bg@).push(bg@));
            assert(hv_views(parts@) =~= unigram_parts(ts) + bigram_parts(ts).take(2 * i + 2));
        }
    }
    assert(bigram_parts(ts).take(2 * (n - 1)) =~= bigram_parts(ts));
    bundle(parts.as_slice())
}

// ─── Documents and the engine ────────────────────────────────────────────────

/// A stored document with its hypervector.
pub struct Document {
    pub id: String,
    pub text: String,
    pub label: String,
    /// File name, URL, device id or other origin of the text.
    pub source: String,
    pub mime: String,
    pub hv: HVec,
}

/// The hypervectors of a list of documents.
pub open spec fn doc_hvs(docs: Seq<Document>) -> Seq<Seq<u64>> {
    docs.map_values(|d: Document| d.hv@)
}

/// The similarity counts of `q` against each of `hvs`.
pub open spec fn scores_spec(q: Seq<u64>, hvs: Seq<Seq<u64>>) -> Seq<u32> {
    Seq::new(hvs.len(), |i: int| match_count_spec(q, hvs[i]) as u32)
}

/// The `k` best-scoring indices, best first, each with its score.
pub open spec fn ranked(c: Seq<u32>, k: nat) -> Seq<(u32, usize)> {
    top_k_spec(c, k).map_values(|i: usize| (c[i as int], i))
}

/// `r` holds `min(k, c.len())` (score, index) pairs of `c`, best score first
/// and equal scores in index order, and no index it leaves out scores above
/// any index it holds.
pub open spec fn sorted_ranking(c: Seq<u32>, k: nat, r: Seq<(u32, usize)>) -> bool {
    &&& r.len() == if k < c.len() { k } else { c.len() }
    &&& forall|a: int| 0 <= a < r.len() ==> r[a].1 < c.len() && (#[trigger] r[a]).0 == c[r[a].1 as int]
    &&& forall|a: int, b: int|
        0 <= a < b < r.len() ==> r[a].0 > r[b].0 || (r[a].0 == r[b].0 && r[a].1 < r[b].1)
    &&& forall|j: int, a: int|
        0 <= j < c.len() && 0 <= a < r.len() && !r.map_values(|p: (u32, usize)| p.1).contains(j as usize)
            ==> c[j] <= r[a].0
}

/// Similarity counts of `q` against each of `hvs`.
pub fn score_hvs(hvs: &Vec<HVec>, q: &HVec) -> (c: Vec<u32>)
    ensures
        c@ == scores_spec(q@, hv_views(hvs@)),
{
    let mut c: Vec<u32> = Vec::new();
    for i in 0..hvs.len()
        invariant
            c@ =~= scores_spec(q@, hv_views(hvs@)).take(i as int),
    {
        c.push(match_count(q, &hvs[i]));
    }
    assert(scores_spec(q@, hv_views(hvs@)).take(hvs.len() as int) =~= scores_spec(q@, hv_views(hvs@)));
    c
}

/// Similarity counts of `q` against each document.
pub fn score_docs(docs: &Vec<Document>, q: &HVec) -> (c: Vec<u32>)
    ensures
        c@ == scores_spec(q@, doc_hvs(docs@)),
{
    let mut c: Vec<u32> = Vec::new();
    for i in 0..docs.len()
        invariant
            c@ =~= scores_spec(q@, doc_hvs(docs@)).take(i as int),
    {
        c.push(match_count(q, &docs[i].hv));
    }
    assert(scores_spec(q@, doc_hvs(docs@)).take(docs.len() as int) =~= scores_spec(q@, doc_hvs(docs@)));
    c
}

/// The `k` best indices of `c`, best first, each paired with its score.
pub fn ranked_scores(c: &Vec<u32>, k: usize) -> (r: Vec<(u32, usize)>)
    ensures
        r@ == ranked(c@, k as nat),
        sorted_ranking(c@, k as nat, r@),
{
    let idx = top_k(c, k);
    let mut r: Vec<(u32, usize)> = Vec::new();
    for a in 0..idx.len()
        invariant
            idx@ == top_k_spec(c@, k as nat),
            forall|b: int| 0 <= b < idx@.len() ==> idx@[b] < c@.len(),
            r@ =~= ranked(c@, k as nat).take(a as int),
    {
        let i = idx[a];
        r.push((c[i], i));
    }
    assert(ranked(c@, k as nat).take(idx.len() as int) =~= ranked(c@, k as nat));
    assert forall|a: int, b: int| 0 <= a < b < r@.len() implies r@[a].0 > r@[b].0 || (r@[a].0 == r@[b].0
        && r@[a].1 < r@[b].1) by {
        assert(crate::rank::ranks_before(c@, idx@[a] as int, idx@[b] as int));
    }
    assert(r@.map_values(|p: (u32, usize)| p.1) =~= idx@);
    assert forall|j: int, a: int|
        0 <= j < c@.len() && 0 <= a < r@.len() && !r@.map_values(|p: (u32, usize)| p.1).contains(j as usize)
            implies c@[j] <= r@[a].0 by {
        assert(crate::rank::ranks_before(c@, idx@[a] as int, j));
    }
    r
}

/// Asking for fewer results gives the first of the results for more: for
/// `k1 <= k2`, the ranking of the best `k1` is a prefix of that of the best `k2`.
pub proof fn law_ranked_prefix(c: Seq<u32>, k1: nat, k2: nat)
    requires
        k1 <= k2,
        c.len() <= usize::MAX,
    ensures
        ranked(c, k1).len() <= ranked(c, k2).len(),
        ranked(c, k1) == ranked(c, k2).take(ranked(c, k1).len() as int),
{
    crate::rank::law_top_k_prefix(c, k1, k2);
    let t1 = top_k_spec(c, k1);
    let t2 = top_k_spec(c, k2);
    assert(ranked(c, k1) =~= ranked(c, k2).take(ranked(c, k1).len() as int)) by {
        assert forall|a: int| 0 <= a < t1.len() implies #[trigger] ranked(c, k1)[a] == ranked(c, k2)[a] by {
            assert(t1[a] == t2[a]);
        }
    }
}

/// A document's own text finds it: querying with the text of a document that
/// was encoded from it scores that document 4096 (all bits agree), and no
/// document scores higher.
pub proof fn law_text_finds_its_document(docs: Seq<Document>, i: int)
    requires
        0 <= i < docs.len(),
        docs[i].hv@ == encode_spec(docs[i].text@),
    ensures
        scores_spec(encode_spec(docs[i].text@), doc_hvs(docs))[i] == 4096,
        forall|j: int|
            0 <= j < docs.len() ==> #[trigger] scores_spec(encode_spec(docs[i].text@), doc_hvs(docs))[j]
                <= scores_spec(encode_spec(docs[i].text@), doc_hvs(docs))[i],
{
    let q = encode_spec(docs[i].text@);
    crate::hdc::law_similarity_reflexive(q);
    assert(doc_hvs(docs)[i] == q);
    assert forall|j: int| 0 <= j < docs.len() implies #[trigger] scores_spec(q, doc_hvs(docs))[j]
        <= scores_spec(q, doc_hvs(docs))[i] by {
        crate::hdc::lemma_match_count_bound(q, doc_hvs(docs)[j]);
    }
}

/// A corpus of encoded documents and the item memory that encodes them.
pub struct HDCEngine {
    pub mem: ItemMemory,
    pub docs: Vec<Document>,
}

impl HDCEngine {
    /// An engine with no documents and an empty memory.
    pub fn new() -> (e: Self)
        ensures
            e.mem@ == Set::<Seq<char>>::empty(),
            e.docs@.len() == 0,
    {
        HDCEngine { mem: ItemMemory::new(), docs: Vec::new() }
    }

    /// Encodes `text` and stores it as a document with the given fields.
    pub fn add_document(&mut self, id: String, text: &str, label: &str, source: &str, mime: &str)
        ensures
            final(self).docs@.len() == old(self).docs@.len() + 1,
            forall|i: int| 0 <= i < old(self).docs@.len() ==> final(self).docs@[i] == old(self).docs@[i],
            final(self).docs@.last().id == id,
            final(self).docs@.last().text@ == text@,
            final(self).docs@.last().label@ == label@,
            final(self).docs@.last().source@ == source@,
            final(self).docs@.last().mime@ == mime@,
            final(self).docs@.last().hv@ == encode_spec(text@),
            final(self).mem@ == old(self).mem@.union(encode_vocab(text@)),
    {
        let hv = encode(text, &mut self.mem);
        self.docs.push(
            Document {
                id,
                text: String::from_str(text),
                label: String::from_str(label),
                source: String::from_str(source),
                mime: String::from_str(mime),
                hv,
            },
        );
    }

    /// Number of stored documents.
    pub fn doc_count(&self) -> (n: usize)
        ensures
            n == self.docs@.len(),
    {
        self.docs.len()
    }

    /// Number of distinct keys in item memory.
    pub fn vocab_size(&self) -> (n: usize)
        ensures
            n == self.mem@.len(),
    {
        self.mem.size()
    }

    /// Removes all documents; item memory is kept.
    pub fn clear(&mut self)
        ensures
            final(self).docs@.len() == 0,
            final(self).mem@ == old(self).mem@,
    {
        self.docs.clear();
    }

    /// Ranks all documents by similarity to the encoded query, best first, and
    /// returns the first `top_k` as (similarity count, document index); equal
    /// counts keep document order. The similarity of a pair is count / 4096.
    pub fn search_raw(&mut self, query: &str, top_k: usize) -> (r: Vec<(u32, usize)>)
        ensures
            final(self).docs@ == old(self).docs@,
            final(self).mem@ == old(self).mem@.union(encode_vocab(query@)),
            r@ == ranked(scores_spec(encode_spec(query@), doc_hvs(old(self).docs@)), top_k as nat),
            sorted_ranking(scores_spec(encode_spec(query@), doc_hvs(old(self).docs@)), top_k as nat, r@),
    {
        let q = encode(query, &mut self.mem);
        let c = score_docs(&self.docs, &q);
        ranked_scores(&c, top_k)
    }

    /// The analogy query "a is to b as c is to ?": binds the encodings of
    /// `b`, `a` and `c`, and ranks all documents by similarity to the result,
    /// best first, as (similarity count, document index), keeping `top_k`.
    pub fn analogy(&mut self, a: &str, b: &str, c: &str, top_k: usize) -> (r: Vec<(u32, usize)>)
        ensures
            final(self).docs@ == old(self).docs@,
            final(self).mem@ == old(self).mem@.union(encode_vocab(b@)).union(encode_vocab(a@)).union(
                encode_vocab(c@),
            ),
            r@ == ranked(
                scores_spec(
                    bind_spec(bind_spec(encode_spec(b@), encode_spec(a@)), encode_spec(c@)),
                    doc_hvs(old(self).docs@),
                ),
                top_k as nat,
            ),
            sorted_ranking(
                scores_spec(
                    bind_spec(bind_spec(encode_spec(b@), encode_spec(a@)), encode_spec(c@)),
                    doc_hvs(old(self).docs@),
                ),
                top_k as nat,
                r@,
            ),
    {
        let hb = encode(b, &mut self.mem);
        let ha = encode(a, &mut self.mem);
        let hc = encode(c, &mut self.mem);
        let q = bind(&bind(&hb, &ha), &hc);
        let s = score_docs(&self.docs, &q);
        ranked_scores(&s, top_k)
    }
}

} // verus!
