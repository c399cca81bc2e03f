//! One worker: feedback state and corpus together, and what an observed
//! execution or a peer's message does to them.

use vstd::prelude::*;
use crate::coordinator::{capped_sum, Message, RunStatistics};
use crate::corpus::{covered_below, full_cover, Corpus, TestCaseModel};
use crate::coverage::{bucketed, covered, fresh_count, merged, novel, CoverageMap};
use crate::favored::{favored_of, favored_subset};
use crate::feedback::{
    count_after, global_after, known_after, noted, objective_admits, valid, EngineModel,
    FeedbackEngine, Outcome, Verdict,
};
use crate::calibrate::{smoothed, smoothed_spec, Measurement};
use crate::power::{assign_energy, with_energy};

verus! {

/// What one execution was observed to do.
pub struct Observation {
    /// The input that was run.
    pub bytes: Vec<u8>,
    /// The hit counts of the run, in buckets.
    pub coverage: CoverageMap,
    /// How long the run took.
    pub exec_time: u64,
    /// How the run ended.
    pub outcome: Outcome,
    /// The signature of the crash site; read only where the run counts as a
    /// crash.
    pub signature: u64,
    /// The generation depth of the input.
    pub depth: u64,
}

/// An observation as plain values.
pub struct ObservationModel {
    pub bytes: Seq<u8>,
    pub coverage: Seq<u8>,
    pub exec_time: u64,
    pub outcome: Outcome,
    pub signature: u64,
    pub depth: u64,
}

impl View for Observation {
    type V = ObservationModel;

    open spec fn view(&self) -> ObservationModel {
        ObservationModel {
            bytes: self.bytes@,
            coverage: self.coverage@,
            exec_time: self.exec_time,
            outcome: self.outcome,
            signature: self.signature,
            depth: self.depth,
        }
    }
}

/// Puts together what the observers saw of one execution. The raw hit counts
/// are reduced to their buckets.
pub fn observe(
    bytes: Vec<u8>,
    counters: Vec<u8>,
    exec_time: u64,
    outcome: Outcome,
    signature: u64,
    depth: u64,
) -> (observed: Observation)
    ensures
        observed@ == (ObservationModel {
            bytes: bytes@,
            coverage: bucketed(counters@),
            exec_time,
            outcome,
            signature,
            depth,
        }),
{
    let mut coverage: CoverageMap = CoverageMap::from_counters(counters);
    coverage.classify();
    Observation { bytes, coverage, exec_time, outcome, signature, depth }
}

/// A worker's state as plain values.
pub struct WorkerModel {
    pub engine: EngineModel,
    pub cases: Seq<TestCaseModel>,
    pub executions: u64,
}

/// The test case that an admitted observation becomes.
pub open spec fn admitted_case(global: Seq<u8>, o: ObservationModel) -> TestCaseModel {
    TestCaseModel {
        bytes: o.bytes,
        edges: covered_below(o.coverage, global.len() as int),
        exec_time: o.exec_time,
        energy: 1,
        favored: false,
        depth: o.depth,
        new_edges: fresh_count(global, o.coverage) as u64,
    }
}

/// What the two feedbacks decide on an observation.
pub open spec fn verdict_for(m: WorkerModel, o: ObservationModel) -> Verdict {
    Verdict {
        input_admitted: novel(m.engine.global, o.coverage),
        crash_admitted: objective_admits(
            m.engine.known,
            m.engine.hangs_count_as_crashes,
            o.outcome,
            o.signature,
        ),
    }
}

/// The state after both feedbacks have decided on an observation: the
/// feedback state moves on, and an admitted input stands at the end of the
/// corpus.
pub open spec fn after_observation(m: WorkerModel, o: ObservationModel) -> WorkerModel {
    WorkerModel {
        engine: EngineModel {
            global: global_after(m.engine.global, o.coverage),
            known: known_after(
                m.engine.known,
                m.engine.hangs_count_as_crashes,
                o.outcome,
                o.signature,
            ),
            crash_count: count_after(
                m.engine.crash_count,
                m.engine.hangs_count_as_crashes,
                o.outcome,
            ),
            hangs_count_as_crashes: m.engine.hangs_count_as_crashes,
        },
        cases: if novel(m.engine.global, o.coverage) {
            m.cases.push(admitted_case(m.engine.global, o))
        } else {
            m.cases
        },
        executions: m.executions,
    }
}

/// The state after an execution of the worker's own: as after the
/// observation, with one more execution counted.
pub open spec fn after_execution(m: WorkerModel, o: ObservationModel) -> WorkerModel {
    WorkerModel { executions: capped_sum(m.executions, 1), ..after_observation(m, o) }
}

/// The state after a message from a peer. A new test case is judged like an
/// execution that ended normally with the coverage sent along: it comes into
/// the corpus if it brings something new here. A new crash makes its
/// signature known and is not counted, as it was counted where it happened.
/// Counters of a peer change nothing.
pub open spec fn after_message(m: WorkerModel, message: Message) -> WorkerModel {
    match message {
        Message::NewTestCase { bytes, coverage } => after_observation(
            m,
            peer_observation(bytes@, coverage@),
        ),
        Message::NewCrash { signature, bytes } => WorkerModel {
            engine: EngineModel { known: noted(m.engine.known, signature), ..m.engine },
            ..m
        },
        Message::StatUpdate { .. } => m,
    }
}

/// What a peer's new test case is taken as.
pub open spec fn peer_observation(bytes: Seq<u8>, coverage: Seq<u8>) -> ObservationModel {
    ObservationModel {
        bytes,
        coverage,
        exec_time: 0,
        outcome: Outcome::Normal,
        signature: 0,
        depth: 0,
    }
}

/// What a message from a peer brought: whether its input came into the
/// corpus, and whether its crash was unknown here.
pub open spec fn verdict_on(m: WorkerModel, message: Message) -> Verdict {
    match message {
        Message::NewTestCase { bytes, coverage } => Verdict {
            input_admitted: novel(m.engine.global, coverage@),
            crash_admitted: false,
        },
        Message::NewCrash { signature, bytes } => Verdict {
            input_admitted: false,
            crash_admitted: !m.engine.known.contains(signature),
        },
        Message::StatUpdate { .. } => Verdict { input_admitted: false, crash_admitted: false },
    }
}

/// The corpus with the favored flag of each test case set from `picks`.
pub open spec fn with_flags(cases: Seq<TestCaseModel>, picks: Seq<usize>) -> Seq<TestCaseModel> {
    Seq::new(
        cases.len(),
        |i: int| TestCaseModel { favored: picks.contains(i as usize), ..cases[i] },
    )
}

/// Merging an execution into the global maximum map adds the edges that the
/// execution covered within the map, and nothing else.
pub proof fn lemma_merged_cover(global: Seq<u8>, exec: Seq<u8>)
    ensures
        covered(merged(global, exec)) == covered(global).union(
            covered_below(exec, global.len() as int),
        ),
{
    assert(covered(merged(global, exec)) =~= covered(global).union(
        covered_below(exec, global.len() as int),
    ));
}

/// One more test case adds its edges to what the corpus covers.
pub proof fn lemma_cover_grows(cases: Seq<TestCaseModel>, t: TestCaseModel)
    ensures
        full_cover(cases.push(t)) == full_cover(cases).union(t.edges),
{
    let more = cases.push(t);
    assert forall|e: int| full_cover(more).contains(e) implies full_cover(cases).union(
        t.edges,
    ).contains(e) by {
        let i = choose|i: int| 0 <= i < more.len() && #[trigger] more[i].edges.contains(e);
        if i < cases.len() {
            assert(cases[i].edges.contains(e));
        }
    }
    assert forall|e: int| full_cover(cases).union(t.edges).contains(e) implies full_cover(
        more,
    ).contains(e) by {
        if full_cover(cases).contains(e) {
            let i = choose|i: int| 0 <= i < cases.len() && #[trigger] cases[i].edges.contains(e);
            assert(more[i].edges.contains(e));
        } else {
            assert(more[cases.len() as int].edges.contains(e));
        }
    }
    assert(full_cover(more) =~= full_cover(cases).union(t.edges));
}

/// Two corpora whose test cases cover the same edges, index by index, cover
/// the same edges as a whole.
pub proof fn lemma_cover_by_edges(a: Seq<TestCaseModel>, b: Seq<TestCaseModel>)
    requires
        a.len() == b.len(),
        forall|i: int| 0 <= i < a.len() ==> (#[trigger] a[i]).edges == b[i].edges,
    ensures
        full_cover(a) == full_cover(b),
{
    assert forall|e: int| full_cover(a).contains(e) implies full_cover(b).contains(e) by {
        let i = choose|i: int| 0 <= i < a.len() && #[trigger] a[i].edges.contains(e);
        assert(a[i].edges == b[i].edges);
        assert(b[i].edges.contains(e));
    }
    assert forall|e: int| full_cover(b).contains(e) implies full_cover(a).contains(e) by {
        let i = choose|i: int| 0 <= i < b.len() && #[trigger] b[i].edges.contains(e);
        assert(a[i].edges == b[i].edges);
        assert(a[i].edges.contains(e));
    }
    assert(full_cover(a) =~= full_cover(b));
}

/// What holds of a worker's state at all times: the feedback state is valid,
/// and the global maximum map has seen exactly the edges that the corpus
/// covers.
pub open spec fn consistent(m: WorkerModel) -> bool {
    valid(m.engine) && covered(m.engine.global) == full_cover(m.cases)
}

/// One fuzzing worker's view of the campaign: the feedback state, the corpus
/// that it has built, and the number of executions it has made.
pub struct Worker {
    engine: FeedbackEngine,
    corpus: Corpus,
    executions: u64,
}

impl View for Worker {
    type V = WorkerModel;

    closed spec fn view(&self) -> WorkerModel {
        WorkerModel { engine: self.engine@, cases: self.corpus@, executions: self.executions }
    }
}

impl Worker {
    /// The state is consistent, and the corpus is one for the global map's
    /// number of edges.
    pub closed spec fn wf(&self) -> bool {
        &&& consistent(self@)
        &&& self.corpus.wf()
        &&& self.corpus.edge_limit() == self.engine@.global.len()
    }

    /// The state of a valid worker is consistent.
    pub proof fn lemma_consistent(&self)
        requires
            self.wf(),
        ensures
            consistent(self@),
    {
    }

    /// A worker for a map of `edges` edges, with an empty corpus.
    pub fn new(edges: usize, hangs_count_as_crashes: bool) -> (worker: Worker)
        ensures
            worker.wf(),
            worker@ == (WorkerModel {
                engine: EngineModel {
                    global: Seq::new(edges as nat, |i: int| 0u8),
                    known: Seq::empty(),
                    crash_count: 0,
                    hangs_count_as_crashes,
                },
                cases: Seq::empty(),
                executions: 0,
            }),
    {
        let worker = Worker {
            engine: FeedbackEngine::new(edges, hangs_count_as_crashes),
            corpus: Corpus::new(edges),
            executions: 0,
        };
        assert(covered(worker.engine@.global) =~= full_cover(worker.corpus@));
        worker
    }

    /// The corpus.
    pub fn corpus(&self) -> (corpus: &Corpus)
        ensures
            corpus@ == self@.cases,
            self.wf() ==> corpus.wf(),
    {
        &self.corpus
    }

    /// The feedback state.
    pub fn feedback(&self) -> (engine: &FeedbackEngine)
        ensures
            engine@ == self@.engine,
    {
        &self.engine
    }

    /// The counters of this worker, `uptime` seconds into the session.
    pub fn statistics(&self, uptime: u64) -> (stats: RunStatistics)
        ensures
            stats == (RunStatistics {
                executions: self@.executions,
                corpus_size: self@.cases.len() as u64,
                crashes: self@.engine.crash_count as u64,
                uptime,
            }),
    {
        RunStatistics {
            executions: self.executions,
            corpus_size: self.corpus.count() as u64,
            crashes: self.engine.crash_count(),
            uptime,
        }
    }

    /// Lets both feedbacks decide on an observation, and puts an admitted
    /// input at the end of the corpus.
    fn take_in(&mut self, observed: Observation) -> (verdict: Verdict)
        requires
            old(self).wf(),
        ensures
            final(self).wf(),
            verdict == verdict_for(old(self)@, observed@),
            final(self)@ == after_observation(old(self)@, observed@),
    {
        let fresh: usize = self.engine.global().count_fresh(&observed.coverage);
        let verdict: Verdict = self.engine.evaluate(
            &observed.coverage,
            observed.outcome,
            observed.signature,
        );
        if verdict.input_admitted {
            proof {
                lemma_merged_cover(old(self).engine@.global, observed.coverage@);
                lemma_cover_grows(
                    old(self).corpus@,
                    admitted_case(old(self).engine@.global, observed@),
                );
            }
            let index: usize = self.corpus.add(
                observed.bytes,
                &observed.coverage,
                observed.exec_time,
                observed.depth,
                fresh as u64,
            );
        }
        verdict
    }

    /// Takes in one execution of the worker's own. Both feedbacks decide on
    /// it; an input that the novelty feedback admits goes to the end of the
    /// corpus, with the edges it covered within the map, and a crash that the
    /// objective admits is one for the caller to persist.
    pub fn process(&mut self, observed: Observation) -> (verdict: Verdict)
        requires
            old(self).wf(),
        ensures
            final(self).wf(),
            verdict == verdict_for(old(self)@, observed@),
            final(self)@ == after_execution(old(self)@, observed@),
    {
        let verdict: Verdict = self.take_in(observed);
        if self.executions < u64::MAX {
            self.executions = self.executions + 1;
        }
        verdict
    }

    /// Takes in a message that the broker passed on. A discovery of a peer is
    /// judged by this worker's own feedback state, so one that brings nothing
    /// new here is dropped; a crash of a peer makes its signature known and
    /// is not counted again; counters of a peer are not for workers. A
    /// message that arrives twice leaves the state as the first arrival left
    /// it.
    pub fn receive(&mut self, message: Message) -> (verdict: Verdict)
        requires
            old(self).wf(),
        ensures
            final(self).wf(),
            verdict == verdict_on(old(self)@, message),
            final(self)@ == after_message(old(self)@, message),
    {
        match message {
            Message::NewTestCase { bytes, coverage } => {
                let verdict: Verdict = self.take_in(
                    Observation {
                        bytes,
                        coverage: CoverageMap::from_counters(coverage),
                        exec_time: 0,
                        outcome: Outcome::Normal,
                        signature: 0,
                        depth: 0,
                    },
                );
                Verdict { input_admitted: verdict.input_admitted, crash_admitted: false }
            },
            Message::NewCrash { signature, bytes } => {
                let added: bool = self.engine.note_known(signature);
                proof {
                    lemma_noted_distinct(old(self).engine@.known, signature);
                }
                Verdict { input_admitted: false, crash_admitted: added }
            },
            Message::StatUpdate { .. } => Verdict { input_admitted: false, crash_admitted: false },
        }
    }

    /// The generation depth of an input made from the test case at `parent`:
    /// one more than the parent's, and 0 for an input without a parent in the
    /// corpus.
    pub fn child_depth(&self, parent: Option<usize>) -> (depth: u64)
        ensures
            depth == (match parent {
                Some(p) => if p < self@.cases.len() {
                    capped_sum(self@.cases[p as int].depth, 1)
                } else {
                    0u64
                },
                None => 0u64,
            }),
    {
        match parent {
            Some(p) => match self.corpus.get(p) {
                Some(t) => {
                    let d: u64 = t.depth();
                    if d < u64::MAX {
                        d + 1
                    } else {
                        d
                    }
                },
                None => 0,
            },
            None => 0,
        }
    }

    /// The test case to splice from for a draw: each test case of the corpus
    /// for as many draws as any other; none while the corpus is empty.
    pub fn partner(&self, draw: u64) -> (index: Option<usize>)
        ensures
            index == (if self@.cases.len() == 0 {
                None::<usize>
            } else {
                Some((draw as nat % self@.cases.len()) as usize)
            }),
    {
        let count: usize = self.corpus.count();
        if count == 0 {
            None
        } else {
            Some((draw % (count as u64)) as usize)
        }
    }

    /// Takes in what calibration measured of the test case at `index`: the
    /// measured time is folded into its smoothed execution time. Nothing else
    /// changes, and an index beyond the corpus changes nothing.
    pub fn calibrated(&mut self, index: usize, measured: Measurement)
        requires
            old(self).wf(),
        ensures
            final(self).wf(),
            final(self)@ == (WorkerModel {
                cases: if index < old(self)@.cases.len() {
                    old(self)@.cases.update(
                        index as int,
                        TestCaseModel {
                            exec_time: smoothed_spec(
                                old(self)@.cases[index as int].exec_time,
                                measured.exec_time,
                            ) as u64,
                            ..old(self)@.cases[index as int]
                        },
                    )
                } else {
                    old(self)@.cases
                },
                ..old(self)@
            }),
    {
        let previous: u64 = match self.corpus.get(index) {
            Some(t) => t.exec_time(),
            None => 0,
        };
        let time: u64 = smoothed(previous, measured.exec_time);
        self.corpus.set_exec_time(index, time);
        proof {
            lemma_cover_by_edges(old(self).corpus@, self.corpus@);
        }
    }

    /// Brings scheduling up to date with the corpus: the favored flags follow
    /// the favored subset, and then every test case gets its energy from the
    /// power schedule. Returns the favored subset.
    pub fn reschedule(&mut self) -> (favored: Vec<usize>)
        requires
            old(self).wf(),
        ensures
            final(self).wf(),
            favored@ == favored_of(old(self)@.cases),
            final(self)@ == (WorkerModel {
                cases: with_energy(with_flags(old(self)@.cases, favored@)),
                ..old(self)@
            }),
    {
        let favored: Vec<usize> = favored_subset(&self.corpus);
        self.corpus.set_favored_flags(&favored);
        assert(self.corpus@ =~= with_flags(old(self).corpus@, favored@));
        assign_energy(&mut self.corpus);
        proof {
            lemma_cover_by_edges(old(self).corpus@, self.corpus@);
        }
        favored
    }
}

/// Noting a signature keeps the known signatures distinct, and noting it
/// again changes nothing.
pub proof fn lemma_noted_distinct(known: Seq<u64>, signature: u64)
    requires
        crate::feedback::distinct(known),
    ensures
        crate::feedback::distinct(noted(known, signature)),
        noted(known, signature).contains(signature),
        noted(noted(known, signature), signature) == noted(known, signature),
{
    if !known.contains(signature) {
        assert(known.push(signature)[known.len() as int] == signature);
    }
}

/// Messages may arrive more than once: taking in a message a second time
/// leaves the state as the first time left it, crash count included.
pub proof fn lemma_receive_idempotent(m: WorkerModel, message: Message)
    requires
        consistent(m),
    ensures
        after_message(after_message(m, message), message) == after_message(m, message),
        after_message(m, message).engine.crash_count == m.engine.crash_count,
{
    match message {
        Message::NewTestCase { bytes, coverage } => {
            let o = peer_observation(bytes@, coverage@);
            crate::feedback::lemma_novelty_idempotent(m.engine.global, o.coverage);
        },
        Message::NewCrash { signature, bytes } => {
            lemma_noted_distinct(m.engine.known, signature);
        },
        Message::StatUpdate { .. } => {},
    }
}

/// Taking in the same observation a second time changes nothing: the input
/// is not admitted again, and the global maximum map and the corpus stay as
/// the first time left them. So a discovery that a peer sends twice, or that
/// the worker made itself before, is dropped silently.
pub proof fn lemma_observation_idempotent(m: WorkerModel, o: ObservationModel)
    ensures
        ({
            let once = after_observation(m, o);
            let twice = after_observation(once, o);
            &&& !verdict_for(once, o).input_admitted
            &&& twice.engine.global == once.engine.global
            &&& twice.cases == once.cases
        }),
{
    crate::feedback::lemma_novelty_idempotent(m.engine.global, o.coverage);
}

/// What a worker has taken in stays covered: after an observation the
/// global maximum map holds, at every edge of the map, at least the count that
/// the observation brought, and no later observation lowers a counter. So a
/// worker that has received the discoveries of its peers covers all of them.
pub proof fn lemma_taken_in_stays(m: WorkerModel, o: ObservationModel, later: ObservationModel)
    ensures
        ({
            let once = after_observation(m, o);
            let then = after_observation(once, later);
            &&& once.engine.global.len() == m.engine.global.len()
            &&& then.engine.global.len() == m.engine.global.len()
            &&& forall|i: int|
                0 <= i < m.engine.global.len() && i < o.coverage.len() ==> o.coverage[i]
                    <= #[trigger] once.engine.global[i]
            &&& forall|i: int|
                0 <= i < m.engine.global.len() ==> once.engine.global[i]
                    <= #[trigger] then.engine.global[i]
        }),
{
    crate::feedback::lemma_global_grows(m.engine.global, o.coverage);
    crate::feedback::lemma_global_grows(global_after(m.engine.global, o.coverage), later.coverage);
}

/// Every test case in the corpus was new when it came in: an observation
/// adds a test case if and only if its coverage exceeds the global maximum
/// map of the time at some edge, and a consistent state stays consistent.
pub proof fn lemma_admission_is_novel(m: WorkerModel, o: ObservationModel)
    requires
        consistent(m),
    ensures
        consistent(after_observation(m, o)),
        after_observation(m, o).cases.len() == m.cases.len() + (if novel(m.engine.global, o.coverage) {
            1int
        } else {
            0int
        }),
        forall|i: int| 0 <= i < m.cases.len() ==> after_observation(m, o).cases[i] == m.cases[i],
{
    crate::feedback::lemma_objective_keeps_distinct(
        m.engine.known,
        m.engine.hangs_count_as_crashes,
        o.outcome,
        o.signature,
    );
    if novel(m.engine.global, o.coverage) {
        lemma_merged_cover(m.engine.global, o.coverage);
        lemma_cover_grows(m.cases, admitted_case(m.engine.global, o));
    }
}

} // verus!
