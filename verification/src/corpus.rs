//! Test cases and the corpus: an append-only, indexed collection over a
//! coverage map of fixed size.

use vstd::prelude::*;
use crate::coverage::{covered, CoverageMap};

verus! {

/// A test case as plain values: its bytes, the edges it was first found to
/// cover, and the metadata that scheduling reads.
pub struct TestCaseModel {
    pub bytes: Seq<u8>,
    pub edges: Set<int>,
    pub exec_time: u64,
    pub energy: u64,
    pub favored: bool,
    pub depth: u64,
    pub new_edges: u64,
}

/// The edges below `limit` that a map has seen at least once.
pub open spec fn covered_below(map: Seq<u8>, limit: int) -> Set<int> {
    Set::new(|e: int| 0 <= e < map.len() && e < limit && map[e] != 0)
}

/// The set of edges that a list of edge numbers names.
pub open spec fn edge_set(edges: Seq<usize>) -> Set<int> {
    Set::new(|e: int| exists|k: int| 0 <= k < edges.len() && #[trigger] edges[k] as int == e)
}

/// An input with the metadata kept about it. The bytes never change once the
/// test case is made.
pub struct TestCase {
    bytes: Vec<u8>,
    edges: Vec<usize>,
    exec_time: u64,
    energy: u64,
    favored: bool,
    depth: u64,
    new_edges: u64,
}

impl View for TestCase {
    type V = TestCaseModel;

    closed spec fn view(&self) -> TestCaseModel {
        TestCaseModel {
            bytes: self.bytes@,
            edges: edge_set(self.edges@),
            exec_time: self.exec_time,
            energy: self.energy,
            favored: self.favored,
            depth: self.depth,
            new_edges: self.new_edges,
        }
    }
}

impl TestCase {
    /// The edge numbers as stored; a new test case holds each once, in
    /// increasing order.
    pub closed spec fn edge_list(&self) -> Seq<usize> {
        self.edges@
    }

    /// A test case for `bytes` that covered what `coverage` holds, took
    /// `exec_time` to run and sits `depth` mutations away from a seed. It
    /// starts with energy 1, is not favored and has no new edge to its name.
    pub fn new(bytes: Vec<u8>, coverage: &CoverageMap, exec_time: u64, depth: u64) -> (t: TestCase)
        ensures
            t@.bytes == bytes@,
            t@.edges == covered(coverage@),
            t@.exec_time == exec_time,
            t@.energy == 1,
            !t@.favored,
            t@.depth == depth,
            t@.new_edges == 0,
            forall|k: int| 0 <= k < t.edge_list().len() ==> t.edge_list()[k] < coverage@.len(),
            forall|a: int, b: int|
                0 <= a < b < t.edge_list().len() ==> t.edge_list()[a] < t.edge_list()[b],
    {
        let edges: Vec<usize> = nonzero_edges(coverage, coverage.len());
        assert(covered_below(coverage@, coverage@.len() as int) =~= covered(coverage@));
        TestCase { bytes, edges, exec_time, energy: 1, favored: false, depth, new_edges: 0 }
    }

    /// As `new`, but only the edges below `limit` are kept, and `new_edges`
    /// is the number of edges that the test case was first to cover.
    pub fn within(
        bytes: Vec<u8>,
        coverage: &CoverageMap,
        limit: usize,
        exec_time: u64,
        depth: u64,
        new_edges: u64,
    ) -> (t: TestCase)
        ensures
            t@ == (TestCaseModel {
                bytes: bytes@,
                edges: covered_below(coverage@, limit as int),
                exec_time,
                energy: 1,
                favored: false,
                depth,
                new_edges,
            }),
            forall|k: int| 0 <= k < t.edge_list().len() ==> t.edge_list()[k] < limit,
            forall|a: int, b: int|
                0 <= a < b < t.edge_list().len() ==> t.edge_list()[a] < t.edge_list()[b],
    {
        let edges: Vec<usize> = nonzero_edges(coverage, limit);
        TestCase { bytes, edges, exec_time, energy: 1, favored: false, depth, new_edges }
    }

    /// The number of edges that the test case was first to cover.
    pub fn new_edges(&self) -> (n: u64)
        ensures
            n == self@.new_edges,
    {
        self.new_edges
    }

    /// The measured execution time.
    pub fn exec_time(&self) -> (t: u64)
        ensures
            t == self@.exec_time,
    {
        self.exec_time
    }

    /// The scheduling weight.
    pub fn energy(&self) -> (e: u64)
        ensures
            e == self@.energy,
    {
        self.energy
    }

    /// Whether the test case belongs to the favored subset.
    pub fn is_favored(&self) -> (f: bool)
        ensures
            f == self@.favored,
    {
        self.favored
    }

    /// The generation depth: how many mutations away from a seed.
    pub fn depth(&self) -> (d: u64)
        ensures
            d == self@.depth,
    {
        self.depth
    }

    /// Sets the execution time and leaves the rest.
    pub fn set_exec_time(&mut self, exec_time: u64)
        ensures
            final(self)@ == (TestCaseModel { exec_time, ..old(self)@ }),
            final(self).edge_list() == old(self).edge_list(),
    {
        self.exec_time = exec_time;
    }

    /// Sets the energy and leaves the rest.
    pub fn set_energy(&mut self, energy: u64)
        ensures
            final(self)@ == (TestCaseModel { energy, ..old(self)@ }),
            final(self).edge_list() == old(self).edge_list(),
    {
        self.energy = energy;
    }

    /// Sets the favored flag and leaves the rest.
    pub fn set_favored(&mut self, favored: bool)
        ensures
            final(self)@ == (TestCaseModel { favored, ..old(self)@ }),
            final(self).edge_list() == old(self).edge_list(),
    {
        self.favored = favored;
    }

    /// The input bytes.
    pub fn bytes(&self) -> (b: &Vec<u8>)
        ensures
            b@ == self@.bytes,
    {
        &self.bytes
    }

    /// The covered edges, as stored.
    pub fn edges(&self) -> (e: &Vec<usize>)
        ensures
            e@ == self.edge_list(),
            edge_set(e@) == self@.edges,
    {
        &self.edges
    }

    /// Whether the test case covers `edge`.
    pub fn covers(&self, edge: usize) -> (found: bool)
        ensures
            found == self@.edges.contains(edge as int),
    {
        let mut i: usize = 0;
        while i < self.edges.len()
            invariant
                i <= self.edges@.len(),
                forall|k: int| 0 <= k < i ==> self.edges@[k] != edge,
            decreases self.edges@.len() - i,
        {
            if self.edges[i] == edge {
                return true;
            }
            i = i + 1;
        }
        false
    }
}

/// The edges of a map below `limit` with a count above 0, in increasing order.
pub fn nonzero_edges(coverage: &CoverageMap, limit: usize) -> (edges: Vec<usize>)
    ensures
        edge_set(edges@) == covered_below(coverage@, limit as int),
        forall|k: int| 0 <= k < edges@.len() ==> edges@[k] < coverage@.len() && edges@[k] < limit,
        forall|a: int, b: int| 0 <= a < b < edges@.len() ==> edges@[a] < edges@[b],
{
    let mut edges: Vec<usize> = Vec::new();
    let end: usize = if limit < coverage.len() {
        limit
    } else {
        coverage.len()
    };
    let mut i: usize = 0;
    while i < end
        invariant
            i <= end,
            end <= coverage@.len(),
            end <= limit,
            end == limit || end == coverage@.len(),
            forall|k: int| 0 <= k < edges@.len() ==> edges@[k] < i && coverage@[edges@[k] as int] != 0,
            forall|e: int|
                0 <= e < i && coverage@[e] != 0 ==> exists|k: int|
                    0 <= k < edges@.len() && #[trigger] edges@[k] as int == e,
            forall|a: int, b: int| 0 <= a < b < edges@.len() ==> edges@[a] < edges@[b],
        decreases end - i,
    {
        if coverage.get(i) != 0 {
            let ghost before = edges@;
            edges.push(i);
            assert forall|e: int| 0 <= e < i + 1 && coverage@[e] != 0 implies exists|k: int|
                0 <= k < edges@.len() && #[trigger] edges@[k] as int == e by {
                if e < i {
                    let k = choose|k: int| 0 <= k < before.len() && #[trigger] before[k] as int == e;
                    assert(edges@[k] as int == e);
                } else {
                    assert(edges@[before.len() as int] as int == e);
                }
            }
        }
        i = i + 1;
    }
    assert(edge_set(edges@) =~= covered_below(coverage@, limit as int));
    edges
}

/// Whether `list` holds `x`.
pub fn holds(list: &Vec<usize>, x: usize) -> (found: bool)
    ensures
        found == list@.contains(x),
{
    let mut i: usize = 0;
    while i < list.len()
        invariant
            i <= list@.len(),
            forall|k: int| 0 <= k < i ==> list@[k] != x,
        decreases list@.len() - i,
    {
        if list[i] == x {
            return true;
        }
        i = i + 1;
    }
    false
}

/// The energies of the test cases, by index.
pub open spec fn energies_of(cases: Seq<TestCaseModel>) -> Seq<u64> {
    Seq::new(cases.len(), |i: int| cases[i].energy)
}

/// The edges that at least one test case of `cases` covers.
pub open spec fn full_cover(cases: Seq<TestCaseModel>) -> Set<int> {
    Set::new(|e: int| exists|i: int| 0 <= i < cases.len() && #[trigger] cases[i].edges.contains(e))
}

/// The edges that at least one of the test cases picked by `picks` covers.
pub open spec fn cover_of(cases: Seq<TestCaseModel>, picks: Seq<usize>) -> Set<int> {
    Set::new(
        |e: int|
            exists|k: int|
                0 <= k < picks.len() && picks[k] < cases.len() && #[trigger] cases[picks[k] as int].edges.contains(e),
    )
}

/// An append-only collection of test cases over a coverage map of fixed size.
/// A test case is known by the index it got when it was added.
pub struct Corpus {
    entries: Vec<TestCase>,
    map_size: usize,
}

impl View for Corpus {
    type V = Seq<TestCaseModel>;

    closed spec fn view(&self) -> Seq<TestCaseModel> {
        Seq::new(self.entries@.len(), |i: int| self.entries@[i]@)
    }
}

impl Corpus {
    /// The number of edges of the coverage map that the corpus was made for.
    pub closed spec fn edge_limit(&self) -> nat {
        self.map_size as nat
    }

    /// The stored edge numbers of the test case at `index`.
    pub closed spec fn edge_list_at(&self, index: int) -> Seq<usize> {
        self.entries@[index].edge_list()
    }

    /// Every test case covers edges of the map only.
    pub closed spec fn wf(&self) -> bool {
        forall|i: int, k: int|
            0 <= i < self.entries@.len() && 0 <= k < self.entries@[i].edge_list().len()
                ==> (#[trigger] self.entries@[i].edge_list()[k]) < self.map_size
    }

    /// In a well-formed corpus no test case covers an edge beyond the map.
    pub proof fn lemma_edges_in_map(&self)
        requires
            self.wf(),
        ensures
            forall|i: int, e: int|
                0 <= i < self@.len() && #[trigger] self@[i].edges.contains(e) ==> 0 <= e
                    < self.edge_limit(),
            forall|i: int| 0 <= i < self@.len() ==> #[trigger] self@[i].edges == edge_set(self.edge_list_at(i)),
    {
        assert forall|i: int, e: int|
            0 <= i < self@.len() && #[trigger] self@[i].edges.contains(e) implies 0 <= e
            < self.edge_limit() by {
            let list = self.entries@[i].edge_list();
            let k = choose|k: int| 0 <= k < list.len() && #[trigger] list[k] as int == e;
            assert(list[k] < self.map_size);
        }
    }

    /// In a well-formed corpus the stored edges of each test case lie in the map.
    pub proof fn lemma_wf_at(&self, index: int)
        requires
            self.wf(),
            0 <= index < self@.len(),
        ensures
            forall|k: int|
                0 <= k < self.edge_list_at(index).len() ==> #[trigger] self.edge_list_at(index)[k]
                    < self.edge_limit(),
    {
        assert forall|k: int| 0 <= k < self.edge_list_at(index).len() implies #[trigger] self.edge_list_at(
            index,
        )[k] < self.edge_limit() by {
            assert(self.entries@[index].edge_list()[k] < self.map_size);
        }
    }

    /// An empty corpus for a coverage map of `map_size` edges.
    pub fn new(map_size: usize) -> (corpus: Corpus)
        ensures
            corpus.wf(),
            corpus@ == Seq::<TestCaseModel>::empty(),
            corpus.edge_limit() == map_size,
    {
        let corpus = Corpus { entries: Vec::new(), map_size };
        assert(corpus@ =~= Seq::<TestCaseModel>::empty());
        corpus
    }

    /// The number of test cases.
    pub fn count(&self) -> (n: usize)
        ensures
            n == self@.len(),
    {
        self.entries.len()
    }

    /// The size of the coverage map that the corpus was made for.
    pub fn map_size(&self) -> (n: usize)
        ensures
            n == self.edge_limit(),
    {
        self.map_size
    }

    /// The test case at `index`, if there is one.
    pub fn get(&self, index: usize) -> (found: Option<&TestCase>)
        ensures
            found.is_some() == (index < self@.len()),
            found matches Some(t) ==> t@ == self@[index as int] && t.edge_list() == self.edge_list_at(
                index as int,
            ),
    {
        if index < self.entries.len() {
            Some(&self.entries[index])
        } else {
            None
        }
    }

    /// Sets the favored flag of each test case: on where `picks` names its
    /// index, off elsewhere. Nothing else changes.
    pub fn set_favored_flags(&mut self, picks: &Vec<usize>)
        requires
            old(self).wf(),
        ensures
            final(self).wf(),
            final(self).edge_limit() == old(self).edge_limit(),
            final(self)@.len() == old(self)@.len(),
            forall|i: int|
                0 <= i < old(self)@.len() ==> #[trigger] final(self)@[i] == (TestCaseModel {
                    favored: picks@.contains(i as usize),
                    ..old(self)@[i]
                }),
    {
        let n: usize = self.entries.len();
        let mut i: usize = 0;
        while i < n
            invariant
                i <= n,
                n == self.entries@.len(),
                n == old(self).entries@.len(),
                self.map_size == old(self).map_size,
                forall|m: int|
                    0 <= m < n ==> (#[trigger] self.entries@[m]).edge_list() == old(
                        self,
                    ).entries@[m].edge_list(),
                forall|m: int|
                    0 <= m < i ==> (#[trigger] self.entries@[m])@ == (TestCaseModel {
                        favored: picks@.contains(m as usize),
                        ..old(self).entries@[m]@
                    }),
                forall|m: int| i <= m < n ==> (#[trigger] self.entries@[m])@ == old(self).entries@[m]@,
            decreases n - i,
        {
            let on: bool = holds(picks, i);
            self.entries[i].set_favored(on);
            i = i + 1;
        }
        assert forall|i: int, k: int|
            0 <= i < self.entries@.len() && 0 <= k < self.entries@[i].edge_list().len() implies (
        #[trigger] self.entries@[i].edge_list()[k]) < self.map_size by {
            assert(old(self).entries@[i].edge_list()[k] < old(self).map_size);
        }
    }

    /// Sets the energy of the test case at `index` and leaves the rest. An
    /// index beyond the corpus changes nothing.
    pub fn set_energy(&mut self, index: usize, energy: u64)
        requires
            old(self).wf(),
        ensures
            final(self).wf(),
            final(self).edge_limit() == old(self).edge_limit(),
            final(self)@ == (if index < old(self)@.len() {
                old(self)@.update(index as int, TestCaseModel { energy, ..old(self)@[index as int] })
            } else {
                old(self)@
            }),
    {
        if index < self.entries.len() {
            self.entries[index].set_energy(energy);
            assert forall|i: int, k: int|
                0 <= i < self.entries@.len() && 0 <= k < self.entries@[i].edge_list().len() implies (
            #[trigger] self.entries@[i].edge_list()[k]) < self.map_size by {
                assert(old(self).entries@[i].edge_list()[k] < old(self).map_size);
            }
            assert(self@ =~= old(self)@.update(
                index as int,
                TestCaseModel { energy, ..old(self)@[index as int] },
            ));
        }
    }

    /// Sets the execution time of the test case at `index` and leaves the
    /// rest. An index beyond the corpus changes nothing.
    pub fn set_exec_time(&mut self, index: usize, exec_time: u64)
        requires
            old(self).wf(),
        ensures
            final(self).wf(),
            final(self).edge_limit() == old(self).edge_limit(),
            final(self)@ == (if index < old(self)@.len() {
                old(self)@.update(
                    index as int,
                    TestCaseModel { exec_time, ..old(self)@[index as int] },
                )
            } else {
                old(self)@
            }),
    {
        if index < self.entries.len() {
            self.entries[index].set_exec_time(exec_time);
            assert forall|i: int, k: int|
                0 <= i < self.entries@.len() && 0 <= k < self.entries@[i].edge_list().len() implies (
            #[trigger] self.entries@[i].edge_list()[k]) < self.map_size by {
                assert(old(self).entries@[i].edge_list()[k] < old(self).map_size);
            }
            assert(self@ =~= old(self)@.update(
                index as int,
                TestCaseModel { exec_time, ..old(self)@[index as int] },
            ));
        }
    }

    /// The energies of the test cases, by index.
    pub fn energies(&self) -> (list: Vec<u64>)
        ensures
            list@ == energies_of(self@),
    {
        let mut list: Vec<u64> = Vec::new();
        let mut i: usize = 0;
        while i < self.entries.len()
            invariant
                i <= self.entries@.len(),
                list@.len() == i,
                forall|k: int| 0 <= k < i ==> list@[k] == self@[k].energy,
            decreases self.entries@.len() - i,
        {
            list.push(self.entries[i].energy());
            i = i + 1;
        }
        assert(list@ =~= energies_of(self@));
        list
    }

    /// Appends a test case made of `bytes`, the edges of `coverage` within the
    /// map, `exec_time`, `depth` and the number of edges it was first to
    /// cover, and returns its index. The test cases already there keep their
    /// index and their values.
    pub fn add(
        &mut self,
        bytes: Vec<u8>,
        coverage: &CoverageMap,
        exec_time: u64,
        depth: u64,
        new_edges: u64,
    ) -> (index: usize)
        requires
            old(self).wf(),
        ensures
            final(self).wf(),
            final(self).edge_limit() == old(self).edge_limit(),
            index == old(self)@.len(),
            final(self)@ == old(self)@.push(
                TestCaseModel {
                    bytes: bytes@,
                    edges: covered_below(coverage@, old(self).edge_limit() as int),
                    exec_time,
                    energy: 1,
                    favored: false,
                    depth,
                    new_edges,
                },
            ),
    {
        let t = TestCase::within(bytes, coverage, self.map_size, exec_time, depth, new_edges);
        let index: usize = self.entries.len();
        self.entries.push(t);
        assert(self@ =~= old(self)@.push(t@));
        index
    }
}

/// A test case as it is kept on disk: the input, and what was measured of it
/// when it was admitted.
pub struct Stored {
    pub bytes: Vec<u8>,
    pub coverage: CoverageMap,
    pub exec_time: u64,
    pub depth: u64,
    pub new_edges: u64,
}

/// The test case that a stored one becomes in a corpus for a map of `limit`
/// edges.
pub open spec fn restored(stored: Stored, limit: int) -> TestCaseModel {
    TestCaseModel {
        bytes: stored.bytes@,
        edges: covered_below(stored.coverage@, limit),
        exec_time: stored.exec_time,
        energy: 1,
        favored: false,
        depth: stored.depth,
        new_edges: stored.new_edges,
    }
}

/// Builds a corpus from the test cases that an earlier session kept: one
/// test case for each stored one, in the same order.
pub fn restore(map_size: usize, stored: Vec<Stored>) -> (corpus: Corpus)
    ensures
        corpus.wf(),
        corpus.edge_limit() == map_size,
        corpus@.len() == stored@.len(),
        forall|i: int| 0 <= i < stored@.len() ==> #[trigger] corpus@[i] == restored(stored@[i], map_size as int),
{
    let mut corpus: Corpus = Corpus::new(map_size);
    let mut rest: Vec<Stored> = stored;
    let mut kept: Vec<Stored> = Vec::new();
    let ghost all = rest@;
    // Taken from the back, so that each one can be moved out; put back in order below.
    while rest.len() > 0
        invariant
            rest@.len() + kept@.len() == all.len(),
            forall|i: int| 0 <= i < rest@.len() ==> rest@[i] == all[i],
            forall|i: int| 0 <= i < kept@.len() ==> kept@[i] == all[all.len() - 1 - i],
        decreases rest@.len(),
    {
        match rest.pop() {
            Some(s) => {
                kept.push(s);
            },
            None => {},
        }
    }
    while kept.len() > 0
        invariant
            corpus.wf(),
            corpus.edge_limit() == map_size,
            corpus@.len() + kept@.len() == all.len(),
            forall|i: int| 0 <= i < kept@.len() ==> kept@[i] == all[all.len() - 1 - i],
            forall|i: int| 0 <= i < corpus@.len() ==> #[trigger] corpus@[i] == restored(all[i], map_size as int),
        decreases kept@.len(),
    {
        match kept.pop() {
            Some(s) => {
                let ghost before = corpus@;
                let index: usize = corpus.add(s.bytes, &s.coverage, s.exec_time, s.depth, s.new_edges);
                assert forall|i: int| 0 <= i < corpus@.len() implies #[trigger] corpus@[i] == restored(
                    all[i],
                    map_size as int,
                ) by {
                    if i < before.len() {
                        assert(corpus@[i] == before[i]);
                    }
                }
            },
            None => {},
        }
    }
    corpus
}

} // verus!
