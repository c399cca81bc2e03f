//! The power schedule applied to a corpus.

use vstd::prelude::*;
use crate::calibrate::{average_of, average_time};
use crate::corpus::{Corpus, TestCaseModel};
use crate::energy::{energy_for, energy_of, Calibration};

verus! {

/// The execution times of the test cases, by index.
pub open spec fn times_of(cases: Seq<TestCaseModel>) -> Seq<u64> {
    Seq::new(cases.len(), |i: int| cases[i].exec_time)
}

/// The numbers of new edges of the test cases, by index.
pub open spec fn new_edges_of(cases: Seq<TestCaseModel>) -> Seq<u64> {
    Seq::new(cases.len(), |i: int| cases[i].new_edges)
}

/// The deepest generation among the test cases; 0 for none.
pub open spec fn max_depth_of(cases: Seq<TestCaseModel>) -> u64
    decreases cases.len(),
{
    if cases.len() == 0 {
        0
    } else {
        let before = max_depth_of(cases.drop_last());
        if cases.last().depth > before {
            cases.last().depth
        } else {
            before
        }
    }
}

/// What the power schedule reads for the test case at `i`: its own time, new
/// edges and depth, against the averages and the deepest generation of the
/// corpus.
pub open spec fn calibration_of(cases: Seq<TestCaseModel>, i: int) -> Calibration {
    Calibration {
        exec_time: cases[i].exec_time,
        avg_exec_time: average_of(times_of(cases)) as u64,
        new_edges: cases[i].new_edges,
        avg_new_edges: average_of(new_edges_of(cases)) as u64,
        depth: cases[i].depth,
        max_depth: max_depth_of(cases),
    }
}

/// The corpus with the energy of each test case set by the power schedule.
pub open spec fn with_energy(cases: Seq<TestCaseModel>) -> Seq<TestCaseModel> {
    Seq::new(
        cases.len(),
        |i: int| TestCaseModel { energy: energy_of(calibration_of(cases, i)) as u64, ..cases[i] },
    )
}

/// What the power schedule needs to know of the corpus as a whole.
#[derive(Clone, Copy, Debug, PartialEq, Eq, Structural)]
pub struct CorpusAverages {
    pub avg_exec_time: u64,
    pub avg_new_edges: u64,
    pub max_depth: u64,
}

/// The averages of execution time and new edges over the corpus, and its
/// deepest generation.
pub fn averages(corpus: &Corpus) -> (a: CorpusAverages)
    ensures
        a.avg_exec_time == average_of(times_of(corpus@)),
        a.avg_new_edges == average_of(new_edges_of(corpus@)),
        a.max_depth == max_depth_of(corpus@),
{
    let mut times: Vec<u64> = Vec::new();
    let mut news: Vec<u64> = Vec::new();
    let mut deepest: u64 = 0;
    let n: usize = corpus.count();
    let mut i: usize = 0;
    while i < n
        invariant
            i <= n,
            n == corpus@.len(),
            times@ == times_of(corpus@.take(i as int)),
            news@ == new_edges_of(corpus@.take(i as int)),
            deepest == max_depth_of(corpus@.take(i as int)),
        decreases n - i,
    {
        assert(corpus@.take(i + 1).drop_last() =~= corpus@.take(i as int));
        match corpus.get(i) {
            Some(t) => {
                times.push(t.exec_time());
                news.push(t.new_edges());
                if t.depth() > deepest {
                    deepest = t.depth();
                }
            },
            None => {},
        }
        i = i + 1;
        assert(times@ =~= times_of(corpus@.take(i as int)));
        assert(news@ =~= new_edges_of(corpus@.take(i as int)));
    }
    assert(corpus@.take(n as int) =~= corpus@);
    CorpusAverages {
        avg_exec_time: average_time(&times),
        avg_new_edges: average_time(&news),
        max_depth: deepest,
    }
}

/// Sets the energy of every test case by the power schedule, from its own
/// calibration and the averages of the corpus. Nothing else changes, and
/// every energy is positive afterwards.
pub fn assign_energy(corpus: &mut Corpus)
    requires
        old(corpus).wf(),
    ensures
        final(corpus).wf(),
        final(corpus).edge_limit() == old(corpus).edge_limit(),
        final(corpus)@ == with_energy(old(corpus)@),
        forall|i: int| 0 <= i < final(corpus)@.len() ==> (#[trigger] final(corpus)@[i]).energy >= 2,
{
    let a: CorpusAverages = averages(corpus);
    let n: usize = corpus.count();
    let mut i: usize = 0;
    while i < n
        invariant
            i <= n,
            n == corpus@.len(),
            n == old(corpus)@.len(),
            corpus.wf(),
            corpus.edge_limit() == old(corpus).edge_limit(),
            a.avg_exec_time == average_of(times_of(old(corpus)@)),
            a.avg_new_edges == average_of(new_edges_of(old(corpus)@)),
            a.max_depth == max_depth_of(old(corpus)@),
            forall|k: int| 0 <= k < i ==> #[trigger] corpus@[k] == with_energy(old(corpus)@)[k],
            forall|k: int| i <= k < n ==> #[trigger] corpus@[k] == old(corpus)@[k],
        decreases n - i,
    {
        let c: Calibration = match corpus.get(i) {
            Some(t) => Calibration {
                exec_time: t.exec_time(),
                avg_exec_time: a.avg_exec_time,
                new_edges: t.new_edges(),
                avg_new_edges: a.avg_new_edges,
                depth: t.depth(),
                max_depth: a.max_depth,
            },
            None => Calibration {
                exec_time: 0,
                avg_exec_time: 0,
                new_edges: 0,
                avg_new_edges: 0,
                depth: 0,
                max_depth: 0,
            },
        };
        assert(c == calibration_of(old(corpus)@, i as int));
        let e: u64 = energy_for(c);
        corpus.set_energy(i, e);
        i = i + 1;
    }
    assert(corpus@ =~= with_energy(old(corpus)@));
    assert forall|i: int| 0 <= i < corpus@.len() implies (#[trigger] corpus@[i]).energy >= 2 by {
        crate::energy::lemma_energy_positive(calibration_of(old(corpus)@, i));
        assert(corpus@[i] == with_energy(old(corpus)@)[i]);
    }
}

} // verus!
