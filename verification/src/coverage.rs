//! Coverage maps: hit counters per edge, their buckets, and the comparison
//! of one execution against the global maximum.

use vstd::prelude::*;

verus! {

/// True when `exec` holds, at some edge, a count above the one `global` holds.
pub open spec fn novel(global: Seq<u8>, exec: Seq<u8>) -> bool {
    exists|i: int| 0 <= i < global.len() && i < exec.len() && #[trigger] exec[i] > global[i]
}

/// The pointwise maximum of `global` and `exec`, over the edges of `global`.
pub open spec fn merged(global: Seq<u8>, exec: Seq<u8>) -> Seq<u8> {
    Seq::new(
        global.len(),
        |i: int|
            if i < exec.len() && exec[i] > global[i] {
                exec[i]
            } else {
                global[i]
            },
    )
}

/// The edges that a map has seen at least once.
pub open spec fn covered(map: Seq<u8>) -> Set<int> {
    Set::new(|i: int| 0 <= i < map.len() && map[i] != 0)
}

/// The bucket that a raw hit count falls into: 0, 1, 2, 3, 4-7, 8-15, 16-31,
/// 32-127 and 128-255 each share one value.
pub open spec fn bucket_of(count: u8) -> u8 {
    if count <= 2 {
        count
    } else if count == 3 {
        4
    } else if count <= 7 {
        8
    } else if count <= 15 {
        16
    } else if count <= 31 {
        32
    } else if count <= 127 {
        64
    } else {
        128
    }
}

/// A map with every count replaced by its bucket.
pub open spec fn bucketed(map: Seq<u8>) -> Seq<u8> {
    Seq::new(map.len(), |i: int| bucket_of(map[i]))
}

/// Reduces a raw hit count to its bucket.
pub fn bucket_hitcount(count: u8) -> (bucket: u8)
    ensures
        bucket == bucket_of(count),
{
    if count <= 2 {
        count
    } else if count == 3 {
        4
    } else if count <= 7 {
        8
    } else if count <= 15 {
        16
    } else if count <= 31 {
        32
    } else if count <= 127 {
        64
    } else {
        128
    }
}

/// A fixed-size array of hit counters, one per instrumented edge.
pub struct CoverageMap {
    pub counters: Vec<u8>,
}

impl View for CoverageMap {
    type V = Seq<u8>;

    open spec fn view(&self) -> Seq<u8> {
        self.counters@
    }
}

impl CoverageMap {
    /// A map of `size` edges, none of them hit.
    pub fn new(size: usize) -> (map: CoverageMap)
        ensures
            map@ == Seq::new(size as nat, |i: int| 0u8),
    {
        let mut counters: Vec<u8> = Vec::new();
        let mut i: usize = 0;
        while i < size
            invariant
                i <= size,
                counters@ == Seq::new(i as nat, |k: int| 0u8),
            decreases size - i,
        {
            counters.push(0u8);
            i = i + 1;
            assert(counters@ =~= Seq::new(i as nat, |k: int| 0u8));
        }
        CoverageMap { counters }
    }

    /// A map that holds the given counters.
    pub fn from_counters(counters: Vec<u8>) -> (map: CoverageMap)
        ensures
            map@ == counters@,
    {
        CoverageMap { counters }
    }

    /// The number of edges.
    pub fn len(&self) -> (n: usize)
        ensures
            n == self@.len(),
    {
        self.counters.len()
    }

    /// The count at `edge`, or 0 beyond the map.
    pub fn get(&self, edge: usize) -> (count: u8)
        ensures
            count == (if edge < self@.len() {
                self@[edge as int]
            } else {
                0u8
            }),
    {
        if edge < self.counters.len() {
            self.counters[edge]
        } else {
            0
        }
    }

    /// Counts one more hit of `edge`; the counter stays at 255 once there.
    /// An edge beyond the map is ignored.
    pub fn record_hit(&mut self, edge: usize)
        ensures
            final(self)@ == (if edge < old(self)@.len() {
                old(self)@.update(
                    edge as int,
                    if old(self)@[edge as int] < 255 {
                        (old(self)@[edge as int] + 1) as u8
                    } else {
                        255u8
                    },
                )
            } else {
                old(self)@
            }),
    {
        if edge < self.counters.len() {
            let c: u8 = self.counters[edge];
            let next: u8 = if c < 255 {
                c + 1
            } else {
                255
            };
            self.counters.set(edge, next);
        }
    }

    /// Sets every counter back to 0, as before each execution.
    pub fn reset(&mut self)
        ensures
            final(self)@ == Seq::new(old(self)@.len(), |i: int| 0u8),
    {
        let n: usize = self.counters.len();
        let mut i: usize = 0;
        while i < n
            invariant
                i <= n,
                n == self.counters@.len(),
                n == old(self)@.len(),
                forall|k: int| 0 <= k < i ==> self.counters@[k] == 0,
            decreases n - i,
        {
            self.counters.set(i, 0u8);
            i = i + 1;
        }
        assert(self.counters@ =~= Seq::new(old(self)@.len(), |i: int| 0u8));
    }

    /// Replaces every raw count by its bucket.
    pub fn classify(&mut self)
        ensures
            final(self)@ == bucketed(old(self)@),
    {
        let n: usize = self.counters.len();
        let mut i: usize = 0;
        while i < n
            invariant
                i <= n,
                n == self.counters@.len(),
                n == old(self)@.len(),
                forall|k: int| 0 <= k < i ==> self.counters@[k] == bucket_of(old(self)@[k]),
                forall|k: int| i <= k < n ==> self.counters@[k] == old(self)@[k],
            decreases n - i,
        {
            let b: u8 = bucket_hitcount(self.counters[i]);
            self.counters.set(i, b);
            i = i + 1;
        }
        assert(self.counters@ =~= bucketed(old(self)@));
    }

    /// Whether `exec` exceeds this map at some edge.
    pub fn is_novel(&self, exec: &CoverageMap) -> (found: bool)
        ensures
            found == novel(self@, exec@),
    {
        let n: usize = if self.counters.len() < exec.counters.len() {
            self.counters.len()
        } else {
            exec.counters.len()
        };
        let mut i: usize = 0;
        while i < n
            invariant
                i <= n,
                n <= self@.len(),
                n <= exec@.len(),
                n == self@.len() || n == exec@.len(),
                forall|k: int| 0 <= k < i ==> exec@[k] <= self@[k],
            decreases n - i,
        {
            if exec.counters[i] > self.counters[i] {
                return true;
            }
            i = i + 1;
        }
        false
    }

    /// Raises each counter to the count that `exec` holds there, where that is
    /// higher. Counters never go down.
    pub fn merge(&mut self, exec: &CoverageMap)
        ensures
            final(self)@ == merged(old(self)@, exec@),
    {
        let n: usize = if self.counters.len() < exec.counters.len() {
            self.counters.len()
        } else {
            exec.counters.len()
        };
        let mut i: usize = 0;
        while i < n
            invariant
                i <= n,
                n <= exec@.len(),
                n == self.counters@.len() || n == exec@.len(),
                self.counters@.len() == old(self)@.len(),
                n <= old(self)@.len(),
                forall|k: int| 0 <= k < i ==> self.counters@[k] == merged(old(self)@, exec@)[k],
                forall|k: int| i <= k < old(self)@.len() ==> self.counters@[k] == old(self)@[k],
            decreases n - i,
        {
            if exec.counters[i] > self.counters[i] {
                self.counters.set(i, exec.counters[i]);
            }
            i = i + 1;
        }
        assert(self.counters@ =~= merged(old(self)@, exec@));
    }

    /// The edges at which `exec` exceeds this map, in increasing order. There
    /// is one if and only if `exec` is novel.
    pub fn novelties(&self, exec: &CoverageMap) -> (edges: Vec<usize>)
        ensures
            members(edges@) == novelties_of(self@, exec@),
            forall|a: int, b: int| 0 <= a < b < edges@.len() ==> edges@[a] < edges@[b],
            (edges@.len() > 0) == novel(self@, exec@),
    {
        let n: usize = if self.counters.len() < exec.counters.len() {
            self.counters.len()
        } else {
            exec.counters.len()
        };
        let mut edges: Vec<usize> = Vec::new();
        let mut i: usize = 0;
        while i < n
            invariant
                i <= n,
                n <= self@.len(),
                n <= exec@.len(),
                n == self@.len() || n == exec@.len(),
                forall|k: int| 0 <= k < edges@.len() ==> edges@[k] < i && exec@[edges@[k] as int] > self@[edges@[k] as int],
                forall|e: int|
                    0 <= e < i && exec@[e] > self@[e] ==> exists|k: int|
                        0 <= k < edges@.len() && #[trigger] edges@[k] as int == e,
                forall|a: int, b: int| 0 <= a < b < edges@.len() ==> edges@[a] < edges@[b],
            decreases n - i,
        {
            if exec.counters[i] > self.counters[i] {
                let ghost before = edges@;
                edges.push(i);
                assert forall|e: int| 0 <= e < i + 1 && exec@[e] > self@[e] implies exists|k: int|
                    0 <= k < edges@.len() && #[trigger] edges@[k] as int == e by {
                    if e < i {
                        let k = choose|k: int| 0 <= k < before.len() && #[trigger] before[k] as int == e;
                        assert(edges@[k] as int == e);
                    } else {
                        assert(edges@[before.len() as int] as int == e);
                    }
                }
            }
            i = i + 1;
        }
        assert(members(edges@) =~= novelties_of(self@, exec@));
        proof {
            if edges@.len() > 0 {
                let e = edges@[0] as int;
                assert(exec@[e] > self@[e]);
            }
            if novel(self@, exec@) {
                let w = choose|w: int| 0 <= w < self@.len() && w < exec@.len() && #[trigger] exec@[w] > self@[w];
                assert(novelties_of(self@, exec@).contains(w));
                assert(members(edges@).contains(w));
            }
        }
        edges
    }

    /// The number of edges that `exec` has hit and this map has never seen.
    pub fn count_fresh(&self, exec: &CoverageMap) -> (n: usize)
        ensures
            n == fresh_count(self@, exec@),
    {
        let mut n: usize = 0;
        let mut i: usize = 0;
        while i < self.counters.len()
            invariant
                i <= self@.len(),
                n <= i,
                n == fresh_below(self@, exec@, i as nat),
            decreases self@.len() - i,
        {
            if i < exec.counters.len() && self.counters[i] == 0 && exec.counters[i] != 0 {
                n = n + 1;
            }
            i = i + 1;
        }
        n
    }

    /// The number of edges seen at least once.
    pub fn count_covered(&self) -> (n: usize)
        ensures
            n == nonzero_count(self@),
            n == covered(self@).len(),
    {
        proof {
            lemma_nonzero_count(self@);
        }
        let mut n: usize = 0;
        let mut i: usize = 0;
        while i < self.counters.len()
            invariant
                i <= self@.len(),
                n <= i,
                n == nonzero_count(self@.take(i as int)),
            decreases self@.len() - i,
        {
            assert(self@.take(i + 1).drop_last() =~= self@.take(i as int));
            if self.counters[i] != 0 {
                n = n + 1;
            }
            i = i + 1;
        }
        assert(self@.take(i as int) =~= self@);
        n
    }
}

/// The edges at which `exec` holds a count above the one `global` holds: what
/// an execution brings that is new.
pub open spec fn novelties_of(global: Seq<u8>, exec: Seq<u8>) -> Set<int> {
    Set::new(|i: int| 0 <= i < global.len() && i < exec.len() && exec[i] > global[i])
}

/// The set of the numbers in a list.
pub open spec fn members(list: Seq<usize>) -> Set<int> {
    Set::new(|e: int| exists|k: int| 0 <= k < list.len() && #[trigger] list[k] as int == e)
}

/// How many of the first `n` edges `exec` has hit that `global` has never
/// seen.
pub open spec fn fresh_below(global: Seq<u8>, exec: Seq<u8>, n: nat) -> nat
    decreases n,
{
    if n == 0 {
        0
    } else {
        fresh_below(global, exec, (n - 1) as nat) + (if n - 1 < global.len() && n - 1 < exec.len()
            && global[n - 1] == 0 && exec[n - 1] != 0 {
            1nat
        } else {
            0nat
        })
    }
}

/// How many edges of the global map `exec` has hit that `global` has never
/// seen.
pub open spec fn fresh_count(global: Seq<u8>, exec: Seq<u8>) -> nat {
    fresh_below(global, exec, global.len())
}

/// How many counters of a map are not 0.
pub open spec fn nonzero_count(map: Seq<u8>) -> nat
    decreases map.len(),
{
    if map.len() == 0 {
        0
    } else {
        nonzero_count(map.drop_last()) + (if map.last() != 0 {
            1nat
        } else {
            0nat
        })
    }
}

/// The count of the counters that are not 0 is the number of covered edges.
pub proof fn lemma_nonzero_count(map: Seq<u8>)
    ensures
        covered(map).finite(),
        covered(map).len() == nonzero_count(map),
    decreases map.len(),
{
    if map.len() == 0 {
        assert(covered(map) =~= Set::<int>::empty());
    } else {
        let front = map.drop_last();
        let last = map.len() - 1;
        lemma_nonzero_count(front);
        if map.last() != 0 {
            assert(covered(map) =~= covered(front).insert(last));
            assert(!covered(front).contains(last));
        } else {
            assert(covered(map) =~= covered(front));
        }
    }
}

} // verus!
