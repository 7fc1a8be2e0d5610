//! Ranking by score: the `k` best indices of a score list, best first, with
//! ties kept in index order (the order a stable descending sort gives).

use vstd::prelude::*;

verus! {

/// Index `i` ranks before index `j`: a higher score, or an equal score and a
/// smaller index.
pub open spec fn ranks_before(c: Seq<u32>, i: int, j: int) -> bool {
    c[i] > c[j] || (c[i] == c[j] && i < j)
}

/// `r` lists the best `min(k, c.len())` indices of `c`, best first: it is in
/// strict rank order, and every index it leaves out ranks after all it holds.
pub open spec fn is_top_k(c: Seq<u32>, k: nat, r: Seq<usize>) -> bool {
    &&& r.len() == if k < c.len() { k } else { c.len() }
    &&& forall|a: int| 0 <= a < r.len() ==> r[a] < c.len()
    &&& forall|a: int, b: int| 0 <= a < b < r.len() ==> ranks_before(c, r[a] as int, r[b] as int)
    &&& forall|j: int, a: int|
        0 <= j < c.len() && !r.contains(j as usize) && 0 <= a < r.len() ==> ranks_before(
            c,
            r[a] as int,
            j,
        )
}

/// The best `k` indices of `c`, best first (the list `is_top_k` describes,
/// which is unique by `law_top_k_unique`).
pub open spec fn top_k_spec(c: Seq<u32>, k: nat) -> Seq<usize> {
    choose|r: Seq<usize>| is_top_k(c, k, r)
}

/// At most one list meets `is_top_k` for given scores and `k`.
pub proof fn law_top_k_unique(c: Seq<u32>, k: nat, r1: Seq<usize>, r2: Seq<usize>)
    requires
        is_top_k(c, k, r1),
        is_top_k(c, k, r2),
    ensures
        r1 == r2,
{
    assert forall|a: int| 0 <= a < r1.len() implies r1[a] == r2[a] by {
        lemma_top_k_agree(c, k, r1, r2, a);
    }
    assert(r1 =~= r2);
}

proof fn lemma_top_k_agree(c: Seq<u32>, k: nat, r1: Seq<usize>, r2: Seq<usize>, a: int)
    requires
        is_top_k(c, k, r1),
        is_top_k(c, k, r2),
        0 <= a < r1.len(),
    ensures
        r1[a] == r2[a],
    decreases a,
{
    if a > 0 {
        lemma_top_k_agree(c, k, r1, r2, a - 1);
    }
    assert forall|b: int| 0 <= b < a implies r1[b] == r2[b] by {
        lemma_top_k_agree(c, k, r1, r2, b);
    }
    let x = r1[a] as int;
    let y = r2[a] as int;
    if x != y {
        if ranks_before(c, x, y) {
            lemma_top_k_one_side(c, k, r1, r2, a);
        } else {
            assert forall|b: int| 0 <= b < a implies r2[b] == r1[b] by {
                lemma_top_k_agree(c, k, r1, r2, b);
            }
            lemma_top_k_one_side(c, k, r2, r1, a);
        }
    }
}

proof fn lemma_top_k_one_side(c: Seq<u32>, k: nat, r1: Seq<usize>, r2: Seq<usize>, a: int)
    requires
        is_top_k(c, k, r1),
        is_top_k(c, k, r2),
        0 <= a < r1.len(),
        forall|b: int| 0 <= b < a ==> r1[b] == r2[b],
    ensures
        !ranks_before(c, r1[a] as int, r2[a] as int),
{
    let x = r1[a];
    if !ranks_before(c, r1[a] as int, r2[a] as int) {
    } else if r2.contains(x) {
        let q = choose|q: int| 0 <= q < r2.len() && r2[q] == x;
        if q < a {
            assert(r1[q] == x);
            assert(ranks_before(c, r1[q] as int, r1[a] as int));
        } else if q > a {
            assert(ranks_before(c, r2[a] as int, r2[q] as int));
        }
    } else {
        assert(ranks_before(c, r2[a] as int, x as int));
    }
}

/// The first position from `a` on whose index in `s` scores below `v`, or
/// `s.len()` when there is none.
pub open spec fn first_below(c: Seq<u32>, s: Seq<usize>, v: u32, a: int) -> int
    decreases s.len() - a,
{
    if a >= s.len() {
        s.len() as int
    } else if c[s[a] as int] < v {
        a
    } else {
        first_below(c, s, v, a + 1)
    }
}

/// The indices `0..n` of `c` in rank order, built by inserting each index
/// after those that score at least as much.
pub open spec fn sorted_upto(c: Seq<u32>, n: nat) -> Seq<usize>
    decreases n,
{
    if n == 0 {
        seq![]
    } else {
        let s = sorted_upto(c, (n - 1) as nat);
        let x = (n - 1) as usize;
        s.insert(first_below(c, s, c[x as int], 0), x)
    }
}

proof fn lemma_first_below(c: Seq<u32>, s: Seq<usize>, v: u32, a: int)
    requires
        0 <= a <= s.len(),
        forall|b: int| 0 <= b < s.len() ==> s[b] < c.len(),
    ensures
        a <= first_below(c, s, v, a) <= s.len(),
        forall|b: int| a <= b < first_below(c, s, v, a) ==> c[s[b] as int] >= v,
        first_below(c, s, v, a) < s.len() ==> c[s[first_below(c, s, v, a)] as int] < v,
    decreases s.len() - a,
{
    if a < s.len() && c[s[a] as int] >= v {
        lemma_first_below(c, s, v, a + 1);
    }
}

proof fn lemma_sorted_upto(c: Seq<u32>, n: nat)
    requires
        n <= c.len() <= usize::MAX,
    ensures
        sorted_upto(c, n).len() == n,
        forall|a: int| 0 <= a < n ==> sorted_upto(c, n)[a] < n,
        forall|a: int, b: int|
            0 <= a < b < n ==> ranks_before(c, sorted_upto(c, n)[a] as int, sorted_upto(c, n)[b] as int),
        forall|j: int| 0 <= j < n ==> #[trigger] sorted_upto(c, n).contains(j as usize),
    decreases n,
{
    if n > 0 {
        let m = (n - 1) as nat;
        lemma_sorted_upto(c, m);
        let s = sorted_upto(c, m);
        let x = m as usize;
        let v = c[x as int];
        lemma_first_below(c, s, v, 0);
        let p = first_below(c, s, v, 0);
        let t = s.insert(p, x);
        assert(sorted_upto(c, n) == t);
        assert(t[p] == x);
        assert forall|a: int| 0 <= a < n implies t[a] < n by {
            if a < p {
                assert(t[a] == s[a]);
            } else if a > p {
                assert(t[a] == s[a - 1]);
            }
        }
        assert forall|a: int, b: int| 0 <= a < b < n implies ranks_before(c, t[a] as int, t[b] as int) by {
            if b < p {
                assert(t[a] == s[a] && t[b] == s[b]);
                assert(ranks_before(c, s[a] as int, s[b] as int));
            } else if b == p {
                assert(t[a] == s[a]);
                assert(c[s[a] as int] >= v);
                assert(s[a] < m);
                assert(t[b] == x);
                assert(ranks_before(c, t[a] as int, t[b] as int));
            } else {
                assert(t[b] == s[b - 1]);
                if a < p {
                    assert(t[a] == s[a]);
                    assert(ranks_before(c, s[a] as int, s[b - 1] as int));
                } else if a == p {
                    assert(c[s[p] as int] < v);
                    if b - 1 > p {
                        assert(ranks_before(c, s[p] as int, s[b - 1] as int));
                    }
                    assert(c[s[b - 1] as int] < v);
                    assert(t[a] == x);
                    assert(ranks_before(c, t[a] as int, t[b] as int));
                } else {
                    assert(t[a] == s[a - 1]);
                    assert(ranks_before(c, s[a - 1] as int, s[b - 1] as int));
                }
            }
        }
        assert forall|j: int| 0 <= j < n implies #[trigger] t.contains(j as usize) by {
            if j == m {
                assert(t[p] == x);
            } else {
                assert(s.contains(j as usize));
                let q = choose|q: int| 0 <= q < s.len() && s[q] == j as usize;
                if q < p {
                    assert(t[q] == j as usize);
                } else {
                    assert(t[q + 1] == j as usize);
                }
            }
        }
    }
}

/// The first `min(k, c.len())` indices in rank order form the top-k list.
proof fn lemma_top_k_witness(c: Seq<u32>, k: nat)
    requires
        c.len() <= usize::MAX,
    ensures
        is_top_k(c, k, sorted_upto(c, c.len()).take(if k < c.len() { k as int } else { c.len() as int })),
{
    let n = c.len();
    lemma_sorted_upto(c, n);
    let s = sorted_upto(c, n);
    let m = if k < n { k as int } else { n as int };
    let r = s.take(m);
    assert forall|j: int, a: int| 0 <= j < n && !r.contains(j as usize) && 0 <= a < r.len() implies ranks_before(
        c,
        r[a] as int,
        j,
    ) by {
        assert(s.contains(j as usize));
        let q = choose|q: int| 0 <= q < s.len() && s[q] == j as usize;
        if q < m {
            assert(r[q] == j as usize);
        }
        assert(r[a] == s[a]);
        assert(ranks_before(c, s[a] as int, s[q] as int));
    }
}

/// The list `top_k_spec(c, k)` meets `is_top_k`: the `min(k, c.len())` best
/// indices of `c`, best first.
pub proof fn lemma_top_k_spec(c: Seq<u32>, k: nat)
    requires
        c.len() <= usize::MAX,
    ensures
        is_top_k(c, k, top_k_spec(c, k)),
{
    lemma_top_k_witness(c, k);
}

/// Asking for fewer of the best indices gives the first of the list for more:
/// for `k1 <= k2`, the top-`k1` list is a prefix of the top-`k2` list.
pub proof fn law_top_k_prefix(c: Seq<u32>, k1: nat, k2: nat)
    requires
        k1 <= k2,
        c.len() <= usize::MAX,
    ensures
        top_k_spec(c, k1).len() <= top_k_spec(c, k2).len(),
        top_k_spec(c, k1) == top_k_spec(c, k2).take(top_k_spec(c, k1).len() as int),
{
    lemma_top_k_spec(c, k1);
    lemma_top_k_spec(c, k2);
    let r2 = top_k_spec(c, k2);
    let m = if k1 < c.len() { k1 as int } else { c.len() as int };
    let r = r2.take(m);
    assert forall|j: int, a: int| 0 <= j < c.len() && !r.contains(j as usize) && 0 <= a < r.len() implies ranks_before(
        c,
        r[a] as int,
        j,
    ) by {
        assert(r[a] == r2[a]);
        if r2.contains(j as usize) {
            let q = choose|q: int| 0 <= q < r2.len() && r2[q] == j as usize;
            if q < m {
                assert(r[q] == j as usize);
            }
            assert(ranks_before(c, r2[a] as int, r2[q] as int));
        }
    }
    assert(is_top_k(c, k1, r));
    law_top_k_unique(c, k1, r, top_k_spec(c, k1));
}

/// The indices of the `k` highest scores, highest first; equal scores keep
/// their index order.
pub fn top_k(c: &Vec<u32>, k: usize) -> (r: Vec<usize>)
    ensures
        is_top_k(c@, k as nat, r@),
        r@ == top_k_spec(c@, k as nat),
{
    let n = c.len();
    let mut out: Vec<usize> = Vec::new();
    for i in 0..n
        invariant
            n == c@.len(),
            out@.len() == if k < i { k as int } else { i as int },
            forall|a: int| 0 <= a < out@.len() ==> out@[a] < i,
            forall|a: int, b: int|
                0 <= a < b < out@.len() ==> ranks_before(c@, out@[a] as int, out@[b] as int),
            forall|j: int, a: int|
                0 <= j < i && !out@.contains(j as usize) && 0 <= a < out@.len() ==> ranks_before(
                    c@,
                    out@[a] as int,
                    j,
                ),
            out@.len() < k ==> forall|j: int| 0 <= j < i ==> #[trigger] out@.contains(j as usize),
    {
        let ci = c[i];
        let mut p: usize = 0;
        while p < out.len() && c[out[p]] >= ci
            invariant
                n == c@.len(),
                i < n,
                ci == c@[i as int],
                p <= out@.len(),
                forall|a: int| 0 <= a < out@.len() ==> out@[a] < i,
                forall|a: int| 0 <= a < p ==> c@[out@[a] as int] >= ci,
            decreases out@.len() - p,
        {
            p = p + 1;
        }
        // Every listed index from `p` on scores below `ci`.
        assert forall|a: int| p <= a < out@.len() implies c@[out@[a] as int] < ci by {
            if p < out@.len() {
                assert(ranks_before(c@, out@[p as int] as int, out@[a] as int) || a == p);
            }
        }
        if p < k {
            let ghost old_out = out@;
            out.insert(p, i);
            assert(out@ == old_out.insert(p as int, i));
            if out.len() > k {
                let ghost full = out@;
                let e = out.pop().unwrap();
                proof {
                    assert(out@ =~= full.drop_last());
                    assert(e == full.last());
                    assert forall|j: int, a: int|
                        0 <= j <= i && !out@.contains(j as usize) && 0 <= a < out@.len()
                            implies ranks_before(c@, out@[a] as int, j) by {
                        if j == e {
                            assert(out@[a] == full[a]);
                        } else if j < i && !old_out.contains(j as usize) {
                            if a <= p {
                                if a < p {
                                    assert(out@[a] == old_out[a]);
                                } else {
                                    assert(out@[a] == i);
                                    assert(ranks_before(c@, old_out[p as int] as int, j));
                                }
                            } else {
                                assert(out@[a] == old_out[a - 1]);
                            }
                        } else if j < i {
                            let x = choose|x: int| 0 <= x < old_out.len() && old_out[x] == j as usize;
                            if x < p {
                                assert(out@[x] == j as usize);
                            } else {
                                assert(full[x + 1] == j as usize);
                                if x + 1 < full.len() - 1 {
                                    assert(out@[x + 1] == j as usize);
                                }
                            }
                        } else {
                            assert(out@[p as int] == i);
                        }
                    }
                }
            } else {
                proof {
                    assert forall|j: int, a: int|
                        0 <= j <= i && !out@.contains(j as usize) && 0 <= a < out@.len()
                            implies ranks_before(c@, out@[a] as int, j) by {
                        if j == i {
                            assert(out@[p as int] == i);
                        } else {
                            assert(old_out.contains(j as usize));
                            let x = choose|x: int| 0 <= x < old_out.len() && old_out[x] == j as usize;
                            if x < p {
                                assert(out@[x] == j as usize);
                            } else {
                                assert(out@[x + 1] == j as usize);
                            }
                        }
                    }
                    assert forall|j: int| 0 <= j <= i implies #[trigger] out@.contains(j as usize) by {
                        if j == i {
                            assert(out@[p as int] == i);
                        } else {
                            assert(old_out.contains(j as usize));
                            let x = choose|x: int| 0 <= x < old_out.len() && old_out[x] == j as usize;
                            if x < p {
                                assert(out@[x] == j as usize);
                            } else {
                                assert(out@[x + 1] == j as usize);
                            }
                        }
                    }
                }
            }
        } else {
            proof {
                assert forall|j: int, a: int|
                    0 <= j <= i && !out@.contains(j as usize) && 0 <= a < out@.len()
                        implies ranks_before(c@, out@[a] as int, j) by {
                    if j == i {
                        assert(c@[out@[a] as int] >= ci);
                    }
                }
            }
        }
    }
    proof {
        assert(is_top_k(c@, k as nat, out@));
        assert(exists|r: Seq<usize>| is_top_k(c@, k as nat, r));
        law_top_k_unique(c@, k as nat, out@, top_k_spec(c@, k as nat));
    }
    out
}

} // verus!
