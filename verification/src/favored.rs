//! The favored subset: a small set of test cases that covers every edge
//! the corpus covers.

use vstd::prelude::*;
use crate::corpus::{cover_of, edge_set, full_cover, Corpus, TestCase, TestCaseModel};

verus! {

/// The score by which test cases are ranked: execution time times length.
/// Lower is better.
pub open spec fn score(t: TestCaseModel) -> nat {
    (t.exec_time as nat) * t.bytes.len()
}

/// Whether the test case at `i` comes before the one at `j`: by lower score,
/// and among equal scores by lower index.
pub open spec fn precedes(cases: Seq<TestCaseModel>, i: int, j: int) -> bool {
    score(cases[i]) < score(cases[j]) || (score(cases[i]) == score(cases[j]) && i < j)
}

/// `order` with `idx` put in behind the last entry that comes before it.
pub open spec fn insert_by_score(cases: Seq<TestCaseModel>, order: Seq<usize>, idx: usize) -> Seq<
    usize,
>
    decreases order.len(),
{
    if order.len() == 0 {
        seq![idx]
    } else if precedes(cases, order.last() as int, idx as int) {
        order.push(idx)
    } else {
        insert_by_score(cases, order.drop_last(), idx).push(order.last())
    }
}

/// The first `n` indexes of `cases` in increasing score order.
pub open spec fn score_order(cases: Seq<TestCaseModel>, n: nat) -> Seq<usize>
    decreases n,
{
    if n == 0 {
        Seq::empty()
    } else {
        insert_by_score(cases, score_order(cases, (n - 1) as nat), (n - 1) as usize)
    }
}

/// Walks `order` and keeps each test case that covers an edge which none of
/// those kept before it covers.
pub open spec fn greedy_cover(cases: Seq<TestCaseModel>, order: Seq<usize>) -> Seq<usize>
    decreases order.len(),
{
    if order.len() == 0 {
        Seq::empty()
    } else {
        let kept = greedy_cover(cases, order.drop_last());
        let next = order.last();
        if cases[next as int].edges.subset_of(cover_of(cases, kept)) {
            kept
        } else {
            kept.push(next)
        }
    }
}

/// The favored subset of a corpus: the greedy cover taken in score order.
pub open spec fn favored_of(cases: Seq<TestCaseModel>) -> Seq<usize> {
    greedy_cover(cases, score_order(cases, cases.len()))
}

/// Putting `idx` in at position `p` is what `insert_by_score` does, when no
/// entry from `p` on comes before `idx` and the entry before `p` does.
proof fn lemma_insert_at(cases: Seq<TestCaseModel>, order: Seq<usize>, idx: usize, p: int)
    requires
        0 <= p <= order.len(),
        forall|k: int| p <= k < order.len() ==> !precedes(cases, #[trigger] order[k] as int, idx as int),
        p > 0 ==> precedes(cases, order[p - 1] as int, idx as int),
    ensures
        insert_by_score(cases, order, idx) == order.insert(p, idx),
    decreases order.len() - p,
{
    if order.len() == 0 {
        assert(seq![idx] =~= order.insert(p, idx));
    } else if p == order.len() {
        assert(order.push(idx) =~= order.insert(p, idx));
    } else {
        assert(!precedes(cases, order[order.len() - 1] as int, idx as int));
        let front = order.drop_last();
        assert forall|k: int| p <= k < front.len() implies !precedes(
            cases,
            #[trigger] front[k] as int,
            idx as int,
        ) by {
            assert(front[k] == order[k]);
        }
        lemma_insert_at(cases, front, idx, p);
        assert(front.insert(p, idx).push(order.last()) =~= order.insert(p, idx));
    }
}

/// The score of a test case, as a machine number.
fn score_at(t: &TestCase) -> (s: u128)
    ensures
        s == score(t@),
{
    let time: u64 = t.exec_time();
    let len: usize = t.bytes().len();
    assert(time as int * len as int <= 0xffff_ffff_ffff_ffff * 0xffff_ffff_ffff_ffff)
        by (nonlinear_arith)
        requires
            0 <= time as int <= 0xffff_ffff_ffff_ffff,
            0 <= len as int <= 0xffff_ffff_ffff_ffff,
    ;
    (time as u128) * (len as u128)
}

/// The indexes of the corpus in increasing score order; among equal scores
/// the test case added first comes first.
pub fn ranked(corpus: &Corpus) -> (order: Vec<usize>)
    ensures
        order@ == score_order(corpus@, corpus@.len()),
        in_score_order(corpus@, order@),
{
    let n: usize = corpus.count();
    proof {
        lemma_score_order_sorted(corpus@, n as nat);
    }
    let mut order: Vec<usize> = Vec::new();
    let mut i: usize = 0;
    while i < n
        invariant
            i <= n,
            n == corpus@.len(),
            order@ == score_order(corpus@, i as nat),
            order@.len() == i,
            forall|k: int| 0 <= k < order@.len() ==> #[trigger] order@[k] < i,
        decreases n - i,
    {
        let own: u128 = match corpus.get(i) {
            Some(t) => score_at(t),
            None => 0,
        };
        let mut p: usize = order.len();
        let mut searching: bool = true;
        while searching && p > 0
            invariant
                p <= order@.len(),
                i < n,
                n == corpus@.len(),
                own == score(corpus@[i as int]),
                forall|k: int| 0 <= k < order@.len() ==> #[trigger] order@[k] < i,
                forall|k: int|
                    p <= k < order@.len() ==> !precedes(corpus@, #[trigger] order@[k] as int, i as int),
                !searching ==> p > 0 && precedes(corpus@, order@[p - 1] as int, i as int),
            decreases p + (if searching { 1int } else { 0int }),
        {
            let before: usize = order[p - 1];
            let other: u128 = match corpus.get(before) {
                Some(t) => score_at(t),
                None => 0,
            };
            if other <= own {
                searching = false;
            } else {
                p = p - 1;
            }
        }
        proof {
            lemma_insert_at(corpus@, order@, i, p as int);
        }
        order.insert(p, i);
        i = i + 1;
    }
    order
}

/// What `insert_by_score` keeps: the entries of `order`, and `idx`, and
/// nothing else.
pub proof fn lemma_insert_entries(cases: Seq<TestCaseModel>, order: Seq<usize>, idx: usize)
    ensures
        insert_by_score(cases, order, idx).len() == order.len() + 1,
        insert_by_score(cases, order, idx).contains(idx),
        forall|x: usize| order.contains(x) ==> insert_by_score(cases, order, idx).contains(x),
        forall|k: int|
            0 <= k < order.len() + 1 ==> {
                let x = #[trigger] insert_by_score(cases, order, idx)[k];
                x == idx || order.contains(x)
            },
    decreases order.len(),
{
    let r = insert_by_score(cases, order, idx);
    if order.len() == 0 {
        assert(r[0] == idx);
    } else if precedes(cases, order.last() as int, idx as int) {
        assert(r[order.len() as int] == idx);
        assert forall|x: usize| order.contains(x) implies r.contains(x) by {
            let k = choose|k: int| 0 <= k < order.len() && order[k] == x;
            assert(r[k] == x);
        }
        assert forall|k: int| 0 <= k < order.len() + 1 implies {
            let x = #[trigger] r[k];
            x == idx || order.contains(x)
        } by {
            if k < order.len() {
                assert(order[k] == r[k]);
            }
        }
    } else {
        let front = order.drop_last();
        let inner = insert_by_score(cases, front, idx);
        lemma_insert_entries(cases, front, idx);
        assert(r == inner.push(order.last()));
        let at = choose|k: int| 0 <= k < inner.len() && inner[k] == idx;
        assert(r[at] == idx);
        assert forall|x: usize| order.contains(x) implies r.contains(x) by {
            let k = choose|k: int| 0 <= k < order.len() && order[k] == x;
            if k < front.len() {
                assert(front[k] == x);
                assert(front.contains(x));
                assert(inner.contains(x));
                let m = choose|m: int| 0 <= m < inner.len() && inner[m] == x;
                assert(r[m] == x);
            } else {
                assert(r[inner.len() as int] == x);
            }
        }
        assert forall|k: int| 0 <= k < order.len() + 1 implies {
            let x = #[trigger] r[k];
            x == idx || order.contains(x)
        } by {
            if k < inner.len() {
                let x = inner[k];
                assert(r[k] == x);
                if x != idx {
                    assert(front.contains(x));
                    let m = choose|m: int| 0 <= m < front.len() && front[m] == x;
                    assert(order[m] == x);
                }
            } else {
                assert(order[order.len() - 1] == r[k]);
            }
        }
    }
}

/// Whether `order` goes by increasing score: of two entries the earlier one
/// comes before the later one, by lower score and among equal scores by
/// lower index.
pub open spec fn in_score_order(cases: Seq<TestCaseModel>, order: Seq<usize>) -> bool {
    forall|a: int, b: int|
        0 <= a < b < order.len() ==> precedes(
            cases,
            #[trigger] order[a] as int,
            #[trigger] order[b] as int,
        )
}

/// Putting one more index in by score keeps the order by score.
proof fn lemma_insert_sorted(cases: Seq<TestCaseModel>, order: Seq<usize>, idx: usize)
    requires
        in_score_order(cases, order),
        forall|k: int| 0 <= k < order.len() ==> #[trigger] order[k] != idx,
    ensures
        in_score_order(cases, insert_by_score(cases, order, idx)),
    decreases order.len(),
{
    let r = insert_by_score(cases, order, idx);
    if order.len() == 0 {
    } else if precedes(cases, order.last() as int, idx as int) {
        let last = order.len() - 1;
        assert forall|a: int, b: int| 0 <= a < b < r.len() implies precedes(
            cases,
            #[trigger] r[a] as int,
            #[trigger] r[b] as int,
        ) by {
            if b < order.len() {
                assert(precedes(cases, order[a] as int, order[b] as int));
            } else if a < last {
                assert(precedes(cases, order[a] as int, order[last] as int));
            }
        }
    } else {
        let front = order.drop_last();
        let last = order.len() - 1;
        let inner = insert_by_score(cases, front, idx);
        assert forall|a: int, b: int| 0 <= a < b < front.len() implies precedes(
            cases,
            #[trigger] front[a] as int,
            #[trigger] front[b] as int,
        ) by {
            assert(precedes(cases, order[a] as int, order[b] as int));
        }
        assert forall|k: int| 0 <= k < front.len() implies #[trigger] front[k] != idx by {
            assert(order[k] != idx);
        }
        lemma_insert_sorted(cases, front, idx);
        lemma_insert_entries(cases, front, idx);
        assert(order[last] != idx);
        assert forall|a: int, b: int| 0 <= a < b < r.len() implies precedes(
            cases,
            #[trigger] r[a] as int,
            #[trigger] r[b] as int,
        ) by {
            if b < inner.len() {
                assert(precedes(cases, inner[a] as int, inner[b] as int));
            } else {
                let x = inner[a];
                assert(r[a] == x);
                if x != idx {
                    assert(front.contains(x));
                    let m = choose|m: int| 0 <= m < front.len() && front[m] == x;
                    assert(precedes(cases, order[m] as int, order[last] as int));
                }
            }
        }
    }
}

/// The score order is in increasing order of score: of two of its entries
/// the earlier one has the lower score, or the same score and the lower
/// index.
pub proof fn lemma_score_order_sorted(cases: Seq<TestCaseModel>, n: nat)
    requires
        n <= usize::MAX,
    ensures
        in_score_order(cases, score_order(cases, n)),
    decreases n,
{
    if n > 0 {
        let before = score_order(cases, (n - 1) as nat);
        lemma_score_order_sorted(cases, (n - 1) as nat);
        lemma_order_entries(cases, (n - 1) as nat);
        assert forall|k: int| 0 <= k < before.len() implies #[trigger] before[k] != (n - 1) as usize by {
            assert(before[k] < n - 1);
        }
        lemma_insert_sorted(cases, before, (n - 1) as usize);
    }
}

/// The score order of the first `n` test cases holds each index below `n`,
/// and nothing else.
pub proof fn lemma_order_entries(cases: Seq<TestCaseModel>, n: nat)
    requires
        n <= usize::MAX,
    ensures
        score_order(cases, n).len() == n,
        forall|k: int| 0 <= k < n ==> #[trigger] score_order(cases, n)[k] < n,
        forall|i: usize| i < n ==> score_order(cases, n).contains(i),
    decreases n,
{
    if n > 0 {
        let before = score_order(cases, (n - 1) as nat);
        let idx = (n - 1) as usize;
        lemma_order_entries(cases, (n - 1) as nat);
        lemma_insert_entries(cases, before, idx);
        let order = score_order(cases, n);
        assert forall|k: int| 0 <= k < n implies #[trigger] order[k] < n by {
            let x = order[k];
            if x != idx {
                assert(before.contains(x));
                let m = choose|m: int| 0 <= m < before.len() && before[m] == x;
                assert(before[m] < n - 1);
            }
        }
        assert forall|i: usize| i < n implies order.contains(i) by {
            if i != idx {
                assert(before.contains(i));
            }
        }
    }
}

/// One more pick adds its own edges to the cover, and nothing else.
pub proof fn lemma_cover_push(cases: Seq<TestCaseModel>, picks: Seq<usize>, idx: usize)
    requires
        idx < cases.len(),
    ensures
        cover_of(cases, picks.push(idx)) == cover_of(cases, picks).union(cases[idx as int].edges),
{
    let more = picks.push(idx);
    assert forall|e: int| cover_of(cases, more).contains(e) implies cover_of(cases, picks).union(
        cases[idx as int].edges,
    ).contains(e) by {
        let k = choose|k: int|
            0 <= k < more.len() && more[k] < cases.len() && #[trigger] cases[more[k] as int].edges.contains(e);
        if k < picks.len() {
            assert(picks[k] == more[k]);
            assert(cases[picks[k] as int].edges.contains(e));
        }
    }
    assert forall|e: int|
        cover_of(cases, picks).union(cases[idx as int].edges).contains(e) implies cover_of(
        cases,
        more,
    ).contains(e) by {
        if cover_of(cases, picks).contains(e) {
            let k = choose|k: int|
                0 <= k < picks.len() && picks[k] < cases.len() && #[trigger] cases[picks[k] as int].edges.contains(e);
            assert(more[k] == picks[k]);
            assert(cases[more[k] as int].edges.contains(e));
        } else {
            assert(more[picks.len() as int] == idx);
            assert(cases[more[picks.len() as int] as int].edges.contains(e));
        }
    }
    assert(cover_of(cases, more) =~= cover_of(cases, picks).union(cases[idx as int].edges));
}

/// The greedy cover of `order` covers what `order` covers, and picks from
/// `order` only.
pub proof fn lemma_greedy_covers(cases: Seq<TestCaseModel>, order: Seq<usize>)
    requires
        forall|k: int| 0 <= k < order.len() ==> #[trigger] order[k] < cases.len(),
    ensures
        cover_of(cases, greedy_cover(cases, order)) == cover_of(cases, order),
        forall|k: int|
            0 <= k < greedy_cover(cases, order).len() ==> order.contains(
                #[trigger] greedy_cover(cases, order)[k],
            ),
        greedy_cover(cases, order).len() <= order.len(),
    decreases order.len(),
{
    if order.len() == 0 {
        assert(cover_of(cases, greedy_cover(cases, order)) =~= cover_of(cases, order));
    } else {
        let front = order.drop_last();
        let next = order.last();
        let kept = greedy_cover(cases, front);
        let all = greedy_cover(cases, order);
        lemma_greedy_covers(cases, front);
        assert(order =~= front.push(next));
        lemma_cover_push(cases, front, next);
        lemma_cover_push(cases, kept, next);
        assert(cover_of(cases, all) =~= cover_of(cases, order));
        assert forall|k: int| 0 <= k < all.len() implies order.contains(#[trigger] all[k]) by {
            if k < kept.len() {
                let x = kept[k];
                assert(front.contains(x));
                let m = choose|m: int| 0 <= m < front.len() && front[m] == x;
                assert(order[m] == x);
            } else {
                assert(order[order.len() - 1] == next);
            }
        }
    }
}

/// The favored subset covers exactly the edges that the whole corpus covers,
/// and each of its members is a test case of the corpus.
pub proof fn lemma_favored_covers_all(cases: Seq<TestCaseModel>)
    requires
        cases.len() <= usize::MAX,
    ensures
        cover_of(cases, favored_of(cases)) == full_cover(cases),
        forall|k: int| 0 <= k < favored_of(cases).len() ==> #[trigger] favored_of(cases)[k] < cases.len(),
        favored_of(cases).len() <= cases.len(),
{
    let order = score_order(cases, cases.len());
    lemma_order_entries(cases, cases.len());
    lemma_greedy_covers(cases, order);
    let favored = favored_of(cases);
    assert forall|k: int| 0 <= k < favored.len() implies #[trigger] favored[k] < cases.len() by {
        let x = favored[k];
        assert(order.contains(x));
        let m = choose|m: int| 0 <= m < order.len() && order[m] == x;
        assert(order[m] < cases.len());
    }
    assert forall|e: int| full_cover(cases).contains(e) implies cover_of(cases, order).contains(e) by {
        let i = choose|i: int| 0 <= i < cases.len() && #[trigger] cases[i].edges.contains(e);
        assert(order.contains(i as usize));
        let m = choose|m: int| 0 <= m < order.len() && order[m] == i as usize;
        assert(cases[order[m] as int].edges.contains(e));
    }
    assert forall|e: int| cover_of(cases, order).contains(e) implies full_cover(cases).contains(e) by {
        let k = choose|k: int|
            0 <= k < order.len() && order[k] < cases.len() && #[trigger] cases[order[k] as int].edges.contains(e);
        assert(cases[order[k] as int].edges.contains(e));
    }
    assert(cover_of(cases, order) =~= full_cover(cases));
}

/// Whether two corpus snapshots hold, index by index, test cases with the
/// same bytes, the same edges and the same execution time. Energy, favored
/// flag and depth may differ.
pub open spec fn same_shape(a: Seq<TestCaseModel>, b: Seq<TestCaseModel>) -> bool {
    &&& a.len() == b.len()
    &&& forall|i: int|
        0 <= i < a.len() ==> (#[trigger] a[i]).bytes == b[i].bytes && a[i].edges == b[i].edges
            && a[i].exec_time == b[i].exec_time
}

proof fn lemma_insert_same_shape(
    a: Seq<TestCaseModel>,
    b: Seq<TestCaseModel>,
    order: Seq<usize>,
    idx: usize,
)
    requires
        same_shape(a, b),
        idx < a.len(),
        forall|k: int| 0 <= k < order.len() ==> #[trigger] order[k] < a.len(),
    ensures
        insert_by_score(a, order, idx) == insert_by_score(b, order, idx),
    decreases order.len(),
{
    if order.len() > 0 {
        let last = order.last();
        assert(order[order.len() - 1] < a.len());
        assert(a[last as int].bytes == b[last as int].bytes);
        assert(a[idx as int].bytes == b[idx as int].bytes);
        assert(precedes(a, last as int, idx as int) == precedes(b, last as int, idx as int));
        let front = order.drop_last();
        assert forall|k: int| 0 <= k < front.len() implies #[trigger] front[k] < a.len() by {
            assert(front[k] == order[k]);
        }
        lemma_insert_same_shape(a, b, front, idx);
    }
}

proof fn lemma_order_same_shape(a: Seq<TestCaseModel>, b: Seq<TestCaseModel>, n: nat)
    requires
        same_shape(a, b),
        n <= a.len(),
        a.len() <= usize::MAX,
    ensures
        score_order(a, n) == score_order(b, n),
    decreases n,
{
    if n > 0 {
        lemma_order_same_shape(a, b, (n - 1) as nat);
        lemma_order_entries(a, (n - 1) as nat);
        let before = score_order(a, (n - 1) as nat);
        assert forall|k: int| 0 <= k < before.len() implies #[trigger] before[k] < a.len() by {
            assert(before[k] < n - 1);
        }
        lemma_insert_same_shape(a, b, before, (n - 1) as usize);
    }
}

proof fn lemma_cover_same_shape(a: Seq<TestCaseModel>, b: Seq<TestCaseModel>, picks: Seq<usize>)
    requires
        same_shape(a, b),
    ensures
        cover_of(a, picks) == cover_of(b, picks),
{
    assert forall|e: int| cover_of(a, picks).contains(e) implies cover_of(b, picks).contains(e) by {
        let k = choose|k: int|
            0 <= k < picks.len() && picks[k] < a.len() && #[trigger] a[picks[k] as int].edges.contains(e);
        assert(a[picks[k] as int].edges == b[picks[k] as int].edges);
        assert(b[picks[k] as int].edges.contains(e));
    }
    assert forall|e: int| cover_of(b, picks).contains(e) implies cover_of(a, picks).contains(e) by {
        let k = choose|k: int|
            0 <= k < picks.len() && picks[k] < b.len() && #[trigger] b[picks[k] as int].edges.contains(e);
        assert(a[picks[k] as int].edges == b[picks[k] as int].edges);
        assert(a[picks[k] as int].edges.contains(e));
    }
    assert(cover_of(a, picks) =~= cover_of(b, picks));
}

proof fn lemma_greedy_same_shape(a: Seq<TestCaseModel>, b: Seq<TestCaseModel>, order: Seq<usize>)
    requires
        same_shape(a, b),
        forall|k: int| 0 <= k < order.len() ==> #[trigger] order[k] < a.len(),
    ensures
        greedy_cover(a, order) == greedy_cover(b, order),
    decreases order.len(),
{
    if order.len() > 0 {
        let front = order.drop_last();
        assert forall|k: int| 0 <= k < front.len() implies #[trigger] front[k] < a.len() by {
            assert(front[k] == order[k]);
        }
        lemma_greedy_same_shape(a, b, front);
        lemma_cover_same_shape(a, b, greedy_cover(a, front));
        let next = order.last();
        assert(order[order.len() - 1] < a.len());
        assert(a[next as int].edges == b[next as int].edges);
    }
}

/// The favored subset is a function of the snapshot's bytes, edges and
/// execution times alone: two corpora that agree in these, however they came
/// to be filled, have the same favored subset.
pub proof fn lemma_favored_same_shape(a: Seq<TestCaseModel>, b: Seq<TestCaseModel>)
    requires
        same_shape(a, b),
        a.len() <= usize::MAX,
    ensures
        favored_of(a) == favored_of(b),
{
    lemma_order_same_shape(a, b, a.len());
    lemma_order_entries(a, a.len());
    lemma_greedy_same_shape(a, b, score_order(a, a.len()));
}

/// Whether the test case covers an edge that `seen` does not hold yet.
fn covers_unseen(t: &TestCase, seen: &Vec<bool>) -> (fresh: bool)
    requires
        forall|k: int| 0 <= k < t.edge_list().len() ==> #[trigger] t.edge_list()[k] < seen@.len(),
    ensures
        fresh == exists|e: int| t@.edges.contains(e) && 0 <= e < seen@.len() && !seen@[e],
{
    let edges = t.edges();
    let mut k: usize = 0;
    while k < edges.len()
        invariant
            k <= edges@.len(),
            edges@ == t.edge_list(),
            edge_set(edges@) == t@.edges,
            forall|m: int| 0 <= m < edges@.len() ==> #[trigger] edges@[m] < seen@.len(),
            forall|m: int| 0 <= m < k ==> seen@[#[trigger] edges@[m] as int],
        decreases edges@.len() - k,
    {
        if !seen[edges[k]] {
            assert(edge_set(edges@).contains(edges@[k as int] as int));
            return true;
        }
        k = k + 1;
    }
    assert forall|e: int| t@.edges.contains(e) && 0 <= e < seen@.len() implies seen@[e] by {
        let m = choose|m: int| 0 <= m < edges@.len() && #[trigger] edges@[m] as int == e;
        assert(seen@[edges@[m] as int]);
    }
    false
}

/// Marks every edge of the test case in `seen`.
fn mark_edges(t: &TestCase, seen: &mut Vec<bool>)
    requires
        forall|k: int| 0 <= k < t.edge_list().len() ==> #[trigger] t.edge_list()[k] < old(seen)@.len(),
    ensures
        final(seen)@.len() == old(seen)@.len(),
        forall|e: int|
            0 <= e < old(seen)@.len() ==> final(seen)@[e] == (old(seen)@[e] || t@.edges.contains(e)),
{
    let edges = t.edges();
    let mut k: usize = 0;
    while k < edges.len()
        invariant
            k <= edges@.len(),
            edges@ == t.edge_list(),
            edge_set(edges@) == t@.edges,
            seen@.len() == old(seen)@.len(),
            forall|m: int| 0 <= m < edges@.len() ==> #[trigger] edges@[m] < seen@.len(),
            forall|e: int|
                0 <= e < seen@.len() ==> seen@[e] == (old(seen)@[e] || exists|m: int|
                    0 <= m < k && #[trigger] edges@[m] as int == e),
        decreases edges@.len() - k,
    {
        let ghost before = seen@;
        let edge: usize = edges[k];
        seen.set(edge, true);
        assert forall|e: int| 0 <= e < seen@.len() implies seen@[e] == (old(seen)@[e] || exists|m: int|
            0 <= m < k + 1 && #[trigger] edges@[m] as int == e) by {
            if e == edge as int {
                assert(edges@[k as int] as int == e);
            } else {
                assert(seen@[e] == before[e]);
                if exists|m: int| 0 <= m < k + 1 && #[trigger] edges@[m] as int == e {
                    let m = choose|m: int| 0 <= m < k + 1 && #[trigger] edges@[m] as int == e;
                    assert(m < k);
                }
            }
        }
        k = k + 1;
    }
    assert forall|e: int| 0 <= e < old(seen)@.len() implies seen@[e] == (old(seen)@[e]
        || t@.edges.contains(e)) by {
        if t@.edges.contains(e) {
            let m = choose|m: int| 0 <= m < edges@.len() && #[trigger] edges@[m] as int == e;
            assert(edges@[m] as int == e);
        }
    }
}

/// The favored subset of the corpus: its test cases are walked in increasing
/// score order, and each one is kept that covers an edge which none of those
/// kept before it covers. The indexes come out in the order in which they
/// were kept.
pub fn favored_subset(corpus: &Corpus) -> (favored: Vec<usize>)
    requires
        corpus.wf(),
    ensures
        favored@ == favored_of(corpus@),
        cover_of(corpus@, favored@) == full_cover(corpus@),
        forall|k: int| 0 <= k < favored@.len() ==> #[trigger] favored@[k] < corpus@.len(),
{
    let order: Vec<usize> = ranked(corpus);
    let count: usize = corpus.count();
    let size: usize = corpus.map_size();
    let mut seen: Vec<bool> = Vec::new();
    let mut e: usize = 0;
    while e < size
        invariant
            e <= size,
            seen@.len() == e,
            forall|x: int| 0 <= x < e ==> !seen@[x],
        decreases size - e,
    {
        seen.push(false);
        e = e + 1;
    }
    proof {
        lemma_order_entries(corpus@, corpus@.len());
        lemma_favored_covers_all(corpus@);
        corpus.lemma_edges_in_map();
    }
    let mut kept: Vec<usize> = Vec::new();
    let mut j: usize = 0;
    while j < order.len()
        invariant
            j <= order@.len(),
            corpus.wf(),
            order@ == score_order(corpus@, corpus@.len()),
            forall|k: int| 0 <= k < order@.len() ==> #[trigger] order@[k] < corpus@.len(),
            seen@.len() == corpus.edge_limit(),
            kept@ == greedy_cover(corpus@, order@.take(j as int)),
            forall|x: int| 0 <= x < seen@.len() ==> seen@[x] == cover_of(corpus@, kept@).contains(x),
            forall|i: int, x: int|
                0 <= i < corpus@.len() && #[trigger] corpus@[i].edges.contains(x) ==> 0 <= x
                    < corpus.edge_limit(),
        decreases order@.len() - j,
    {
        let idx: usize = order[j];
        let ghost before = kept@;
        proof {
            assert(order@.take(j + 1).drop_last() =~= order@.take(j as int));
            assert(order@.take(j + 1).last() == idx);
            lemma_cover_push(corpus@, before, idx);
        }
        match corpus.get(idx) {
            Some(t) => {
                proof {
                    corpus.lemma_wf_at(idx as int);
                }
                let fresh: bool = covers_unseen(t, &seen);
                proof {
                    if fresh {
                        let x = choose|x: int| t@.edges.contains(x) && 0 <= x < seen@.len() && !seen@[x];
                        assert(!cover_of(corpus@, before).contains(x));
                    } else {
                        assert forall|x: int| t@.edges.contains(x) implies cover_of(
                            corpus@,
                            before,
                        ).contains(x) by {
                            assert(corpus@[idx as int].edges.contains(x));
                            assert(0 <= x < seen@.len());
                            assert(seen@[x]);
                        }
                    }
                    assert(fresh == !corpus@[idx as int].edges.subset_of(cover_of(corpus@, before)));
                }
                if fresh {
                    mark_edges(t, &mut seen);
                    kept.push(idx);
                }
            },
            None => {},
        }
        j = j + 1;
    }
    assert(order@.take(j as int) =~= order@);
    kept
}

} // verus!
