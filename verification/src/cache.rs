//! Which test cases are held in memory: a bounded set that gives up its
//! least recently used member.

use vstd::prelude::*;

verus! {

/// `order` without `x`.
pub open spec fn without(order: Seq<usize>, x: usize) -> Seq<usize>
    decreases order.len(),
{
    if order.len() == 0 {
        Seq::empty()
    } else if order.last() == x {
        without(order.drop_last(), x)
    } else {
        without(order.drop_last(), x).push(order.last())
    }
}

/// No index stands twice.
pub open spec fn distinct(order: Seq<usize>) -> bool {
    forall|i: int, j: int| 0 <= i < j < order.len() ==> order[i] != order[j]
}

/// The resident test cases after a use of `x`, least recently used first: `x`
/// moves to the end, and if that makes more than `capacity`, the first one
/// leaves.
pub open spec fn after_use(order: Seq<usize>, capacity: nat, x: usize) -> Seq<usize> {
    let moved = without(order, x).push(x);
    if moved.len() > capacity {
        moved.drop_first()
    } else {
        moved
    }
}

/// The test case that a use of `x` puts out of memory, if any.
pub open spec fn evicted_by(order: Seq<usize>, capacity: nat, x: usize) -> Option<usize> {
    let moved = without(order, x).push(x);
    if moved.len() > capacity {
        Some(moved[0])
    } else {
        None
    }
}

/// Taking out an index that stands once, at `p`, is removing position `p`;
/// taking out one that does not stand there changes nothing.
pub proof fn lemma_without(order: Seq<usize>, x: usize, p: int)
    requires
        distinct(order),
    ensures
        0 <= p < order.len() && order[p] == x ==> without(order, x) == order.remove(p),
        !order.contains(x) ==> without(order, x) == order,
        distinct(without(order, x)),
        !without(order, x).contains(x),
        without(order, x).len() <= order.len(),
        forall|y: usize| y != x && order.contains(y) ==> without(order, x).contains(y),
        forall|k: int| 0 <= k < without(order, x).len() ==> order.contains(#[trigger] without(order, x)[k]),
    decreases order.len(),
{
    if order.len() > 0 {
        let front = order.drop_last();
        let last = order.last();
        assert(distinct(front));
        lemma_without(front, x, p);
        let w = without(front, x);
        assert forall|k: int| 0 <= k < w.len() implies w[k] != last by {
            assert(front.contains(w[k]));
            let m = choose|m: int| 0 <= m < front.len() && front[m] == w[k];
            assert(order[m] != order[order.len() - 1]);
        }
        if last == x {
            assert(!front.contains(x)) by {
                if front.contains(x) {
                    let m = choose|m: int| 0 <= m < front.len() && front[m] == x;
                    assert(order[m] != order[order.len() - 1]);
                }
            }
            if 0 <= p < order.len() && order[p] == x {
                assert(p == order.len() - 1) by {
                    if p < order.len() - 1 {
                        assert(order[p] != order[order.len() - 1]);
                    }
                }
                assert(order.remove(p) =~= front);
            }
            assert(order.contains(x)) by {
                assert(order[order.len() - 1] == x);
            }
        } else {
            if 0 <= p < order.len() && order[p] == x {
                assert(front[p] == x);
                assert(front.remove(p).push(last) =~= order.remove(p));
            }
            if !order.contains(x) {
                assert(!front.contains(x)) by {
                    if front.contains(x) {
                        let m = choose|m: int| 0 <= m < front.len() && front[m] == x;
                        assert(order[m] == x);
                    }
                }
                assert(front.push(last) =~= order);
            }
            let r = w.push(last);
            assert(r[w.len() as int] == last);
            assert(!r.contains(x)) by {
                if r.contains(x) {
                    let m = choose|m: int| 0 <= m < r.len() && r[m] == x;
                    if m < w.len() {
                        assert(w[m] == x);
                        assert(w.contains(x));
                    }
                }
            }
        }
        let result = without(order, x);
        assert forall|y: usize| y != x && order.contains(y) implies result.contains(y) by {
            let m = choose|m: int| 0 <= m < order.len() && order[m] == y;
            if m < front.len() {
                assert(front[m] == y);
                assert(front.contains(y));
                let k = choose|k: int| 0 <= k < w.len() && w[k] == y;
                assert(result[k] == y);
            } else {
                assert(result[w.len() as int] == y);
            }
        }
        assert forall|k: int| 0 <= k < result.len() implies order.contains(#[trigger] result[k]) by {
            if k < w.len() {
                assert(result[k] == w[k]);
                assert(front.contains(w[k]));
                let m = choose|m: int| 0 <= m < front.len() && front[m] == w[k];
                assert(order[m] == w[k]);
            } else {
                assert(order[order.len() - 1] == last);
            }
        }
    }
}

/// Which test cases of the corpus are held in memory. At most `capacity` are;
/// when one more is needed, the least recently used one gives way. The copy
/// on disk is not touched by that.
pub struct Cache {
    capacity: usize,
    resident: Vec<usize>,
}

impl View for Cache {
    type V = Seq<usize>;

    closed spec fn view(&self) -> Seq<usize> {
        self.resident@
    }
}

impl Cache {
    /// The most test cases that the cache holds.
    pub closed spec fn limit(&self) -> nat {
        self.capacity as nat
    }

    /// No test case is resident twice, and no more are resident than the
    /// cache holds.
    pub open spec fn wf(&self) -> bool {
        distinct(self@) && self@.len() <= self.limit()
    }

    /// An empty cache for `capacity` test cases.
    pub fn new(capacity: usize) -> (cache: Cache)
        ensures
            cache.wf(),
            cache@ == Seq::<usize>::empty(),
            cache.limit() == capacity,
    {
        Cache { capacity, resident: Vec::new() }
    }

    /// The number of resident test cases.
    pub fn len(&self) -> (n: usize)
        ensures
            n == self@.len(),
    {
        self.resident.len()
    }

    /// Whether the test case at `index` is in memory.
    pub fn is_resident(&self, index: usize) -> (found: bool)
        ensures
            found == self@.contains(index),
    {
        self.position(index).is_some()
    }

    fn position(&self, index: usize) -> (at: Option<usize>)
        ensures
            at.is_some() == self@.contains(index),
            at matches Some(p) ==> p < self@.len() && self@[p as int] == index,
    {
        let mut i: usize = 0;
        while i < self.resident.len()
            invariant
                i <= self.resident@.len(),
                forall|k: int| 0 <= k < i ==> self.resident@[k] != index,
            decreases self.resident@.len() - i,
        {
            if self.resident[i] == index {
                return Some(i);
            }
            i = i + 1;
        }
        None
    }

    /// Notes a use of the test case at `index`: it becomes the most recently
    /// used one, loaded if it was not resident. Returns the test case that
    /// has to leave memory for it, if the cache was full.
    pub fn touch(&mut self, index: usize) -> (evicted: Option<usize>)
        requires
            old(self).wf(),
        ensures
            final(self).wf(),
            final(self).limit() == old(self).limit(),
            final(self)@ == after_use(old(self)@, old(self).limit(), index),
            evicted == evicted_by(old(self)@, old(self).limit(), index),
    {
        proof {
            lemma_without(self@, index, 0);
        }
        match self.position(index) {
            Some(p) => {
                proof {
                    lemma_without(self@, index, p as int);
                }
                let moved: usize = self.resident.remove(p);
            },
            None => {},
        }
        assert(self.resident@ == without(old(self)@, index));
        self.resident.push(index);
        let ghost moved = self.resident@;
        assert(distinct(moved)) by {
            let w = without(old(self)@, index);
            assert forall|i: int, j: int| 0 <= i < j < moved.len() implies moved[i] != moved[j] by {
                if j == w.len() {
                    assert(w[i] != index) by {
                        if w[i] == index {
                            assert(w.contains(index));
                        }
                    }
                } else {
                    assert(w[i] != w[j]);
                }
            }
        }
        if self.resident.len() > self.capacity {
            let first: usize = self.resident.remove(0);
            assert(self.resident@ =~= moved.drop_first());
            Some(first)
        } else {
            None
        }
    }
}

/// After a use the test case is the most recently used one, unless the cache
/// holds nothing at all; and a test case that has to leave was the least
/// recently used of those that the use did not name.
pub proof fn lemma_touch_order(order: Seq<usize>, capacity: nat, x: usize)
    requires
        distinct(order),
        order.len() <= capacity,
    ensures
        capacity > 0 ==> after_use(order, capacity, x).len() > 0 && after_use(
            order,
            capacity,
            x,
        ).last() == x,
        after_use(order, capacity, x).len() <= capacity,
        evicted_by(order, capacity, x) matches Some(e) ==> (capacity > 0 ==> e == order[0] && !order.contains(x)
            && order.len() == capacity),
        order.contains(x) ==> evicted_by(order, capacity, x).is_none(),
{
    lemma_without(order, x, 0);
    let w = without(order, x);
    let moved = w.push(x);
    if order.contains(x) {
        let p = choose|p: int| 0 <= p < order.len() && order[p] == x;
        lemma_without(order, x, p);
        assert(w.len() == order.len() - 1);
    } else {
        assert(w == order);
    }
    if moved.len() > capacity && capacity > 0 {
        assert(moved[0] == order[0]);
        assert(moved.drop_first().last() == x);
    }
}

} // verus!
