//! The broad phase: which pairs of bodies the solver examines for contact.
//!
//! Every body is paired with every body of smaller id, scanning the bodies
//! in order and, for each, all bodies in order. A callback answers, for each
//! such pair of positions, whether the two bodies may touch within the next
//! step; the pairs it accepts are kept, as `(larger id, smaller id)`.
use vstd::prelude::*;

verus! {

/// The pairs `(i, j)` with `j < m` and `ids[i] > ids[j]`, in increasing `j`.
pub open spec fn row_candidates(ids: Seq<u64>, i: int, m: int) -> Seq<(usize, usize)>
    decreases m,
{
    if m <= 0 {
        Seq::empty()
    } else {
        let before = row_candidates(ids, i, m - 1);
        if ids[i] > ids[m - 1] {
            before.push((i as usize, (m - 1) as usize))
        } else {
            before
        }
    }
}

/// The candidate pairs whose first position is below `n`, in scan order.
pub open spec fn candidates_upto(ids: Seq<u64>, n: int) -> Seq<(usize, usize)>
    decreases n,
{
    if n <= 0 {
        Seq::empty()
    } else {
        candidates_upto(ids, n - 1) + row_candidates(ids, n - 1, ids.len() as int)
    }
}

/// All pairs of positions `(i, j)` with `ids[i] > ids[j]`, in the order the
/// scan meets them: by `i`, then by `j`.
pub open spec fn candidates(ids: Seq<u64>) -> Seq<(usize, usize)> {
    candidates_upto(ids, ids.len() as int)
}

/// The ids of the candidate pairs whose answer in `keep` is `true`, in order.
pub open spec fn selected(ids: Seq<u64>, cands: Seq<(usize, usize)>, keep: Seq<bool>) -> Seq<(u64, u64)>
    decreases cands.len(),
{
    if cands.len() == 0 {
        Seq::empty()
    } else {
        let before = selected(ids, cands.drop_last(), keep.drop_last());
        if keep.last() {
            before.push((ids[cands.last().0 as int], ids[cands.last().1 as int]))
        } else {
            before
        }
    }
}

/// `keep[k]` is an answer that `near` can give for the candidate `cands[k]`.
pub open spec fn answers<F: Fn(usize, usize) -> bool>(near: F, cands: Seq<(usize, usize)>, keep: Seq<bool>) -> bool {
    &&& keep.len() == cands.len()
    &&& forall|k: int| 0 <= k < cands.len() ==> near.ensures((cands[k].0, cands[k].1), #[trigger] keep[k])
}

/// Each pair holds the larger id first.
pub open spec fn larger_first(s: Seq<(u64, u64)>) -> bool {
    forall|k: int| 0 <= k < s.len() ==> #[trigger] s[k].0 > s[k].1
}

/// The pairs of bodies that may touch in the coming step.
#[derive(Debug)]
pub struct CollisionPairs {
    pairs: Vec<(u64, u64)>,
}

impl View for CollisionPairs {
    type V = Seq<(u64, u64)>;

    closed spec fn view(&self) -> Seq<(u64, u64)> {
        self.pairs@
    }
}

proof fn lemma_push_candidate(ids: Seq<u64>, cands: Seq<(usize, usize)>, keep: Seq<bool>, c: (usize, usize), b: bool)
    requires
        keep.len() == cands.len(),
    ensures
        selected(ids, cands.push(c), keep.push(b)) == if b {
            selected(ids, cands, keep).push((ids[c.0 as int], ids[c.1 as int]))
        } else {
            selected(ids, cands, keep)
        },
{
    assert(cands.push(c).drop_last() =~= cands);
    assert(keep.push(b).drop_last() =~= keep);
}

impl CollisionPairs {
    #[verifier::type_invariant]
    spec fn larger_id_first(self) -> bool {
        larger_first(self.pairs@)
    }

    /// No pairs.
    pub fn new() -> (pairs: Self)
        ensures
            pairs@ == Seq::<(u64, u64)>::empty(),
    {
        CollisionPairs { pairs: Vec::new() }
    }

    /// Forgets every pair.
    pub fn clear(&mut self)
        ensures
            final(self)@ == Seq::<(u64, u64)>::empty(),
    {
        self.pairs = Vec::new();
    }

    /// Number of pairs.
    pub fn len(&self) -> (n: usize)
        ensures
            n == self@.len(),
    {
        self.pairs.len()
    }

    /// The pairs, in the order they were found, each with the larger id first.
    pub fn as_slice(&self) -> (s: &[(u64, u64)])
        ensures
            s@ == self@,
            larger_first(s@),
    {
        proof {
            use_type_invariant(self);
        }
        self.pairs.as_slice()
    }

    /// Replaces the pairs with those of the bodies `ids` that `near` accepts:
    /// `near(i, j)` is asked, in scan order, for each pair of positions with
    /// `ids[i] > ids[j]`, and only for those; each accepted pair is kept as
    /// `(ids[i], ids[j])`.
    pub fn collect<F: Fn(usize, usize) -> bool>(&mut self, ids: &Vec<u64>, near: F)
        requires
            forall|i: usize, j: usize| i < ids.len() && j < ids.len() ==> #[trigger] near.requires((i, j)),
        ensures
            exists|keep: Seq<bool>|
                answers(near, candidates(ids@), keep) && final(self)@ == selected(ids@, candidates(ids@), keep),
            larger_first(final(self)@),
            // The pairs kept are exactly the candidates that `near` accepted, in
            // scan order: `idx[k]` is the candidate behind the k-th kept pair.
            exists|keep: Seq<bool>, idx: Seq<int>|
                #![trigger keep.len(), idx.len()]
                {
                    &&& keep.len() == candidates(ids@).len()
                    &&& forall|m: int|
                        0 <= m < keep.len() ==> near.ensures(
                            (candidates(ids@)[m].0, candidates(ids@)[m].1),
                            #[trigger] keep[m],
                        )
                    &&& idx.len() == final(self)@.len()
                    &&& forall|k: int|
                        0 <= k < idx.len() ==> {
                            &&& 0 <= #[trigger] idx[k] < keep.len()
                            &&& keep[idx[k]]
                            &&& final(self)@[k] == (
                                ids@[candidates(ids@)[idx[k]].0 as int],
                                ids@[candidates(ids@)[idx[k]].1 as int],
                            )
                        }
                    &&& forall|k: int, l: int| 0 <= k < l < idx.len() ==> #[trigger] idx[k] < #[trigger] idx[l]
                    &&& forall|m: int|
                        0 <= m < keep.len() && #[trigger] keep[m] ==> exists|k: int|
                            0 <= k < idx.len() && #[trigger] idx[k] == m
                },
    {
        let n = ids.len();
        let mut out: Vec<(u64, u64)> = Vec::new();
        let ghost mut keep: Seq<bool> = Seq::empty();
        let mut i: usize = 0;
        while i < n
            invariant
                n == ids.len(),
                i <= n,
                forall|a: usize, b: usize| a < ids.len() && b < ids.len() ==> #[trigger] near.requires((a, b)),
                answers(near, candidates_upto(ids@, i as int), keep),
                out@ == selected(ids@, candidates_upto(ids@, i as int), keep),
                larger_first(out@),
            decreases n - i,
        {
            let ghost base = candidates_upto(ids@, i as int);
            let mut j: usize = 0;
            assert(base + row_candidates(ids@, i as int, 0) =~= base);
            while j < n
                invariant
                    n == ids.len(),
                    i < n,
                    j <= n,
                    base == candidates_upto(ids@, i as int),
                    forall|a: usize, b: usize| a < ids.len() && b < ids.len() ==> #[trigger] near.requires((a, b)),
                    answers(near, base + row_candidates(ids@, i as int, j as int), keep),
                    out@ == selected(ids@, base + row_candidates(ids@, i as int, j as int), keep),
                    larger_first(out@),
                decreases n - j,
            {
                let ghost done = base + row_candidates(ids@, i as int, j as int);
                if ids[i] > ids[j] {
                    let hit = near(i, j);
                    proof {
                        lemma_push_candidate(ids@, done, keep, (i, j), hit);
                        assert(base + row_candidates(ids@, i as int, j + 1) =~= done.push((i, j)));
                        keep = keep.push(hit);
                    }
                    if hit {
                        out.push((ids[i], ids[j]));
                    }
                } else {
                    assert(row_candidates(ids@, i as int, j + 1) == row_candidates(ids@, i as int, j as int));
                }
                j += 1;
            }
            i += 1;
        }
        assert(candidates_upto(ids@, n as int) == candidates(ids@));
        proof {
            let cands = candidates(ids@);
            let idx = selected_holds_exactly_the_accepted(ids@, cands, keep);
            assert(keep.len() == cands.len() && idx.len() == out@.len());
        }
        self.pairs = out;
    }
}

/// Selection keeps exactly the candidates whose answer is `true`, in order,
/// and nothing else: the returned `idx` maps the k-th kept pair to the
/// position of its candidate; positions increase, and every accepted
/// candidate is kept. In particular, with no `true` answer nothing is kept,
/// and there are as many kept pairs as `true` answers.
pub proof fn selected_holds_exactly_the_accepted(ids: Seq<u64>, cands: Seq<(usize, usize)>, keep: Seq<bool>) -> (idx: Seq<int>)
    requires
        keep.len() == cands.len(),
    ensures
        idx.len() == selected(ids, cands, keep).len(),
        forall|k: int|
            0 <= k < idx.len() ==> {
                &&& 0 <= #[trigger] idx[k] < cands.len()
                &&& keep[idx[k]]
                &&& selected(ids, cands, keep)[k] == (ids[cands[idx[k]].0 as int], ids[cands[idx[k]].1 as int])
            },
        forall|k: int, l: int| 0 <= k < l < idx.len() ==> #[trigger] idx[k] < #[trigger] idx[l],
        forall|m: int|
            0 <= m < cands.len() && #[trigger] keep[m] ==> exists|k: int| 0 <= k < idx.len() && #[trigger] idx[k] == m,
    decreases cands.len(),
{
    if cands.len() == 0 {
        Seq::<int>::empty()
    } else {
        let n = cands.len() - 1;
        let p = cands.drop_last();
        let q = keep.drop_last();
        let idx0 = selected_holds_exactly_the_accepted(ids, p, q);
        let s0 = selected(ids, p, q);
        let s = selected(ids, cands, keep);
        assert forall|m: int| 0 <= m < n implies p[m] == cands[m] && q[m] == keep[m] by {}
        if keep.last() {
            let idx = idx0.push(n);
            assert(s == s0.push((ids[cands[n].0 as int], ids[cands[n].1 as int])));
            assert forall|k: int| 0 <= k < idx.len() implies {
                &&& 0 <= #[trigger] idx[k] < cands.len()
                &&& keep[idx[k]]
                &&& s[k] == (ids[cands[idx[k]].0 as int], ids[cands[idx[k]].1 as int])
            } by {
                if k < idx0.len() {
                    assert(idx[k] == idx0[k]);
                    assert(s[k] == s0[k]);
                }
            }
            assert forall|m: int| 0 <= m < cands.len() && #[trigger] keep[m] implies exists|k: int|
                0 <= k < idx.len() && #[trigger] idx[k] == m by {
                if m < n {
                    assert(q[m]);
                    let k = choose|k: int| 0 <= k < idx0.len() && #[trigger] idx0[k] == m;
                    assert(idx[k] == idx0[k]);
                } else {
                    assert(idx[idx.len() - 1] == n);
                }
            }
            idx
        } else {
            assert(s == s0);
            assert forall|k: int| 0 <= k < idx0.len() implies {
                &&& 0 <= #[trigger] idx0[k] < cands.len()
                &&& keep[idx0[k]]
                &&& s[k] == (ids[cands[idx0[k]].0 as int], ids[cands[idx0[k]].1 as int])
            } by {}
            assert forall|m: int| 0 <= m < cands.len() && #[trigger] keep[m] implies exists|k: int|
                0 <= k < idx0.len() && #[trigger] idx0[k] == m by {
                assert(m < n);
                assert(q[m]);
            }
            idx0
        }
    }
}

/// `p` comes before `q` in the scan: by first position, then by second.
pub open spec fn scanned_before(p: (usize, usize), q: (usize, usize)) -> bool {
    p.0 < q.0 || (p.0 == q.0 && p.1 < q.1)
}

proof fn lemma_row(ids: Seq<u64>, i: int, m: int)
    requires
        0 <= i < ids.len(),
        0 <= m <= ids.len(),
        ids.len() <= usize::MAX,
    ensures
        forall|k: int| 0 <= k < row_candidates(ids, i, m).len() ==> {
            let c = #[trigger] row_candidates(ids, i, m)[k];
            &&& c.0 as int == i
            &&& c.1 < m
            &&& ids[i] > ids[c.1 as int]
        },
        forall|k: int, l: int|
            0 <= k < l < row_candidates(ids, i, m).len() ==> #[trigger] row_candidates(ids, i, m)[k].1
                < #[trigger] row_candidates(ids, i, m)[l].1,
        forall|b: int|
            0 <= b < m && ids[i] > ids[b] ==> #[trigger] row_candidates(ids, i, m).contains((i as usize, b as usize)),
    decreases m,
{
    if m > 0 {
        lemma_row(ids, i, m - 1);
        let prev = row_candidates(ids, i, m - 1);
        let row = row_candidates(ids, i, m);
        assert forall|b: int| 0 <= b < m && ids[i] > ids[b] implies #[trigger] row.contains(
            (i as usize, b as usize),
        ) by {
            if b == m - 1 {
                assert(row[row.len() - 1] == (i as usize, b as usize));
            } else {
                assert(prev.contains((i as usize, b as usize)));
                let k = choose|k: int| 0 <= k < prev.len() && prev[k] == (i as usize, b as usize);
                assert(row[k] == prev[k]);
            }
        }
    }
}

proof fn lemma_upto(ids: Seq<u64>, n: int)
    requires
        0 <= n <= ids.len(),
        ids.len() <= usize::MAX,
    ensures
        forall|k: int| 0 <= k < candidates_upto(ids, n).len() ==> {
            let c = #[trigger] candidates_upto(ids, n)[k];
            &&& c.0 < n
            &&& c.1 < ids.len()
            &&& ids[c.0 as int] > ids[c.1 as int]
        },
        forall|k: int, l: int|
            0 <= k < l < candidates_upto(ids, n).len() ==> scanned_before(
                #[trigger] candidates_upto(ids, n)[k],
                #[trigger] candidates_upto(ids, n)[l],
            ),
        forall|a: int, b: int|
            0 <= a < n && 0 <= b < ids.len() && ids[a] > ids[b] ==> #[trigger] candidates_upto(
                ids,
                n,
            ).contains((a as usize, b as usize)),
    decreases n,
{
    if n > 0 {
        lemma_upto(ids, n - 1);
        lemma_row(ids, n - 1, ids.len() as int);
        let prev = candidates_upto(ids, n - 1);
        let row = row_candidates(ids, n - 1, ids.len() as int);
        let all = candidates_upto(ids, n);
        assert(all == prev + row);
        assert forall|k: int| 0 <= k < all.len() implies {
            let c = #[trigger] all[k];
            &&& c.0 < n
            &&& c.1 < ids.len()
            &&& ids[c.0 as int] > ids[c.1 as int]
        } by {
            if k < prev.len() {
                assert(all[k] == prev[k]);
            } else {
                assert(all[k] == row[k - prev.len()]);
            }
        }
        assert forall|k: int, l: int| 0 <= k < l < all.len() implies scanned_before(
            #[trigger] all[k],
            #[trigger] all[l],
        ) by {
            if l < prev.len() {
                assert(all[k] == prev[k] && all[l] == prev[l]);
            } else if k < prev.len() {
                assert(all[k] == prev[k]);
                assert(all[l] == row[l - prev.len()]);
            } else {
                assert(all[k] == row[k - prev.len()]);
                assert(all[l] == row[l - prev.len()]);
            }
        }
        assert forall|a: int, b: int|
            0 <= a < n && 0 <= b < ids.len() && ids[a] > ids[b] implies #[trigger] all.contains(
            (a as usize, b as usize),
        ) by {
            if a < n - 1 {
                assert(prev.contains((a as usize, b as usize)));
                let k = choose|k: int| 0 <= k < prev.len() && prev[k] == (a as usize, b as usize);
                assert(all[k] == prev[k]);
            } else {
                assert(row.contains((a as usize, b as usize)));
                let k = choose|k: int| 0 <= k < row.len() && row[k] == (a as usize, b as usize);
                assert(all[prev.len() + k] == row[k]);
            }
        }
    }
}

/// The scan examines a pair of positions `(i, j)` exactly when the body at
/// `i` has the larger id.
pub proof fn candidates_are_the_pairs_with_larger_id_first(ids: Seq<u64>, i: int, j: int)
    requires
        ids.len() <= usize::MAX,
        0 <= i < ids.len(),
        0 <= j < ids.len(),
    ensures
        candidates(ids).contains((i as usize, j as usize)) <==> ids[i] > ids[j],
{
    lemma_upto(ids, ids.len() as int);
    let c = candidates(ids);
    if c.contains((i as usize, j as usize)) {
        let k = choose|k: int| 0 <= k < c.len() && c[k] == (i as usize, j as usize);
        assert(c[k].0 as int == i && c[k].1 as int == j);
    }
}

/// The scan meets the pairs in order, by first position and then by second,
/// so it never examines a pair of positions twice.
pub proof fn candidates_follow_scan_order(ids: Seq<u64>, k: int, l: int)
    requires
        ids.len() <= usize::MAX,
        0 <= k < l < candidates(ids).len(),
    ensures
        scanned_before(candidates(ids)[k], candidates(ids)[l]),
        candidates(ids).no_duplicates(),
{
    lemma_upto(ids, ids.len() as int);
    let c = candidates(ids);
    assert forall|a: int, b: int| 0 <= a < c.len() && 0 <= b < c.len() && a != b implies c[a] != c[b] by {
        if a < b {
            assert(scanned_before(c[a], c[b]));
        } else {
            assert(scanned_before(c[b], c[a]));
        }
    }
}

/// When no two bodies share an id, each two different bodies are examined
/// together exactly once, in one orientation only.
pub proof fn each_two_bodies_examined_once(ids: Seq<u64>, i: int, j: int)
    requires
        ids.len() <= usize::MAX,
        ids.no_duplicates(),
        0 <= i < ids.len(),
        0 <= j < ids.len(),
        i != j,
    ensures
        candidates(ids).contains((i as usize, j as usize)) != candidates(ids).contains((j as usize, i as usize)),
        candidates(ids).no_duplicates(),
{
    candidates_are_the_pairs_with_larger_id_first(ids, i, j);
    candidates_are_the_pairs_with_larger_id_first(ids, j, i);
    lemma_upto(ids, ids.len() as int);
    let c = candidates(ids);
    assert forall|a: int, b: int| 0 <= a < c.len() && 0 <= b < c.len() && a != b implies c[a] != c[b] by {
        if a < b {
            assert(scanned_before(c[a], c[b]));
        } else {
            assert(scanned_before(c[b], c[a]));
        }
    }
}

/// No collected pair joins a body with itself.
pub proof fn collected_pairs_join_distinct_bodies(pairs: Seq<(u64, u64)>)
    requires
        larger_first(pairs),
    ensures
        forall|k: int| 0 <= k < pairs.len() ==> #[trigger] pairs[k].0 != pairs[k].1,
{
    assert forall|k: int| 0 <= k < pairs.len() implies #[trigger] pairs[k].0 != pairs[k].1 by {
        assert(pairs[k].0 > pairs[k].1);
    }
}

impl Default for CollisionPairs {
    fn default() -> (pairs: Self)
        ensures
            pairs@ == Seq::<(u64, u64)>::empty(),
    {
        CollisionPairs::new()
    }
}

} // verus!
