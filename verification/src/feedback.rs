//! The two feedbacks: novelty, which admits inputs to the corpus, and the
//! objective, which admits crashes to the crash store.

use vstd::prelude::*;
use crate::coverage::{covered, merged, novel, CoverageMap};

verus! {

/// How one execution of the target ended.
#[derive(Clone, Copy, Debug, PartialEq, Eq, Structural)]
pub enum Outcome {
    /// The target returned.
    Normal,
    /// The target crashed; the harness caught it.
    Crash,
    /// The deadline passed and the execution was interrupted.
    Hang,
}

/// What the two feedbacks decided about one execution.
#[derive(Clone, Copy, Debug, PartialEq, Eq, Structural)]
pub struct Verdict {
    /// The input goes into the corpus.
    pub input_admitted: bool,
    /// The input goes into the crash store.
    pub crash_admitted: bool,
}

/// The state that the feedbacks keep over a session, as plain values.
pub struct EngineModel {
    pub global: Seq<u8>,
    pub known: Seq<u64>,
    pub crash_count: nat,
    pub hangs_count_as_crashes: bool,
}

/// Whether an outcome is handled as a crash by the objective.
pub open spec fn crash_like(outcome: Outcome, hangs_count_as_crashes: bool) -> bool {
    outcome == Outcome::Crash || (hangs_count_as_crashes && outcome == Outcome::Hang)
}

/// The global maximum map after the novelty feedback has seen `exec`.
pub open spec fn global_after(global: Seq<u8>, exec: Seq<u8>) -> Seq<u8> {
    if novel(global, exec) {
        merged(global, exec)
    } else {
        global
    }
}

/// The global maximum map after a sequence of executions, oldest first.
pub open spec fn global_after_all(global: Seq<u8>, runs: Seq<Seq<u8>>) -> Seq<u8>
    decreases runs.len(),
{
    if runs.len() == 0 {
        global
    } else {
        global_after(global_after_all(global, runs.drop_last()), runs.last())
    }
}

/// Whether the objective admits an execution with this outcome and signature.
pub open spec fn objective_admits(
    known: Seq<u64>,
    hangs_count_as_crashes: bool,
    outcome: Outcome,
    signature: u64,
) -> bool {
    crash_like(outcome, hangs_count_as_crashes) && !known.contains(signature)
}

/// The known signatures after the objective has seen an execution.
pub open spec fn known_after(
    known: Seq<u64>,
    hangs_count_as_crashes: bool,
    outcome: Outcome,
    signature: u64,
) -> Seq<u64> {
    if objective_admits(known, hangs_count_as_crashes, outcome, signature) {
        known.push(signature)
    } else {
        known
    }
}

/// The known signatures once `signature` is known: it is added at the end
/// unless it stands there already.
pub open spec fn noted(known: Seq<u64>, signature: u64) -> Seq<u64> {
    if known.contains(signature) {
        known
    } else {
        known.push(signature)
    }
}

/// The number of crashes counted after the objective has seen an execution.
/// The counter stops at the largest value it can hold.
pub open spec fn count_after(count: nat, hangs_count_as_crashes: bool, outcome: Outcome) -> nat {
    if crash_like(outcome, hangs_count_as_crashes) && count < u64::MAX {
        count + 1
    } else {
        count
    }
}

/// How often `signature` stands among the persisted ones.
pub open spec fn times_persisted(known: Seq<u64>, signature: u64) -> nat
    decreases known.len(),
{
    if known.len() == 0 {
        0
    } else {
        times_persisted(known.drop_last(), signature) + (if known.last() == signature {
            1nat
        } else {
            0nat
        })
    }
}

/// No signature is persisted twice.
pub open spec fn distinct(known: Seq<u64>) -> bool {
    forall|i: int, j: int| 0 <= i < j < known.len() ==> known[i] != known[j]
}

/// What holds of the state at all times: the persisted signatures are
/// pairwise distinct, and the counter fits its machine word.
pub open spec fn valid(model: EngineModel) -> bool {
    &&& distinct(model.known)
    &&& model.crash_count <= u64::MAX
}

/// The novelty feedback and the objective, with the state they keep: the
/// global maximum map, the signatures of the crashes persisted so far, and the
/// number of crashes seen.
pub struct FeedbackEngine {
    global: CoverageMap,
    known: Vec<u64>,
    crash_count: u64,
    hangs_count_as_crashes: bool,
}

impl View for FeedbackEngine {
    type V = EngineModel;

    closed spec fn view(&self) -> EngineModel {
        EngineModel {
            global: self.global@,
            known: self.known@,
            crash_count: self.crash_count as nat,
            hangs_count_as_crashes: self.hangs_count_as_crashes,
        }
    }
}

impl FeedbackEngine {
    /// The engine's state is valid.
    pub open spec fn wf(&self) -> bool {
        valid(self@)
    }

    /// An engine for a map of `edges` edges that has seen no execution yet.
    pub fn new(edges: usize, hangs_count_as_crashes: bool) -> (engine: FeedbackEngine)
        ensures
            engine.wf(),
            engine@.global == Seq::new(edges as nat, |i: int| 0u8),
            engine@.known == Seq::<u64>::empty(),
            engine@.crash_count == 0,
            engine@.hangs_count_as_crashes == hangs_count_as_crashes,
    {
        FeedbackEngine {
            global: CoverageMap::new(edges),
            known: Vec::new(),
            crash_count: 0,
            hangs_count_as_crashes,
        }
    }

    /// The global maximum map.
    pub fn global(&self) -> (map: &CoverageMap)
        ensures
            map@ == self@.global,
    {
        &self.global
    }

    /// The number of crashes seen, duplicates included.
    pub fn crash_count(&self) -> (n: u64)
        ensures
            n == self@.crash_count,
    {
        self.crash_count
    }

    /// The number of distinct crashes persisted.
    pub fn persisted_count(&self) -> (n: usize)
        ensures
            n == self@.known.len(),
    {
        self.known.len()
    }

    /// Whether a crash with this signature was persisted before.
    pub fn is_known(&self, signature: u64) -> (found: bool)
        ensures
            found == self@.known.contains(signature),
    {
        let mut i: usize = 0;
        while i < self.known.len()
            invariant
                i <= self.known@.len(),
                forall|k: int| 0 <= k < i ==> self.known@[k] != signature,
            decreases self.known@.len() - i,
        {
            if self.known[i] == signature {
                return true;
            }
            i = i + 1;
        }
        false
    }

    /// The novelty feedback: admits the input if and only if `exec` exceeds the
    /// global maximum map at some edge, and then merges `exec` into that map.
    /// The crash state is left alone.
    pub fn novelty(&mut self, exec: &CoverageMap) -> (admitted: bool)
        ensures
            admitted == novel(old(self)@.global, exec@),
            final(self)@.global == global_after(old(self)@.global, exec@),
            final(self)@.known == old(self)@.known,
            final(self)@.crash_count == old(self)@.crash_count,
            final(self)@.hangs_count_as_crashes == old(self)@.hangs_count_as_crashes,
    {
        if self.global.is_novel(exec) {
            self.global.merge(exec);
            true
        } else {
            false
        }
    }

    /// The objective: admits the execution if and only if it ended in a crash
    /// whose signature was not persisted before, and then records the
    /// signature. Every crash is counted, admitted or not. The coverage state
    /// is left alone.
    pub fn objective(&mut self, outcome: Outcome, signature: u64) -> (admitted: bool)
        requires
            old(self).wf(),
        ensures
            final(self).wf(),
            admitted == objective_admits(
                old(self)@.known,
                old(self)@.hangs_count_as_crashes,
                outcome,
                signature,
            ),
            final(self)@.known == known_after(
                old(self)@.known,
                old(self)@.hangs_count_as_crashes,
                outcome,
                signature,
            ),
            final(self)@.crash_count == count_after(
                old(self)@.crash_count,
                old(self)@.hangs_count_as_crashes,
                outcome,
            ),
            final(self)@.global == old(self)@.global,
            final(self)@.hangs_count_as_crashes == old(self)@.hangs_count_as_crashes,
    {
        let is_crash: bool = match outcome {
            Outcome::Crash => true,
            Outcome::Hang => self.hangs_count_as_crashes,
            Outcome::Normal => false,
        };
        if !is_crash {
            return false;
        }
        if self.crash_count < u64::MAX {
            self.crash_count = self.crash_count + 1;
        }
        if self.is_known(signature) {
            false
        } else {
            self.known.push(signature);
            true
        }
    }

    /// Takes note of a crash that another worker persisted: its signature
    /// is known from now on, so that a crash of this worker's own at the same
    /// site is not persisted again. Nothing is counted, and noting a
    /// signature twice is the same as noting it once. Returns whether the
    /// signature was new here.
    pub fn note_known(&mut self, signature: u64) -> (added: bool)
        requires
            old(self).wf(),
        ensures
            final(self).wf(),
            added == !old(self)@.known.contains(signature),
            final(self)@ == (EngineModel { known: noted(old(self)@.known, signature), ..old(self)@ }),
    {
        if self.is_known(signature) {
            false
        } else {
            self.known.push(signature);
            true
        }
    }

    /// Runs both feedbacks on one execution.
    pub fn evaluate(&mut self, exec: &CoverageMap, outcome: Outcome, signature: u64) -> (verdict:
        Verdict)
        requires
            old(self).wf(),
        ensures
            final(self).wf(),
            verdict.input_admitted == novel(old(self)@.global, exec@),
            verdict.crash_admitted == objective_admits(
                old(self)@.known,
                old(self)@.hangs_count_as_crashes,
                outcome,
                signature,
            ),
            final(self)@.global == global_after(old(self)@.global, exec@),
            final(self)@.known == known_after(
                old(self)@.known,
                old(self)@.hangs_count_as_crashes,
                outcome,
                signature,
            ),
            final(self)@.crash_count == count_after(
                old(self)@.crash_count,
                old(self)@.hangs_count_as_crashes,
                outcome,
            ),
            final(self)@.hangs_count_as_crashes == old(self)@.hangs_count_as_crashes,
    {
        let input_admitted: bool = self.novelty(exec);
        let crash_admitted: bool = self.objective(outcome, signature);
        Verdict { input_admitted, crash_admitted }
    }
}

/// Replaying an execution changes nothing: once the novelty feedback has seen
/// `exec`, it does not admit the same coverage again, and the global maximum
/// map after the second evaluation equals the map after the first.
pub proof fn lemma_novelty_idempotent(global: Seq<u8>, exec: Seq<u8>)
    ensures
        !novel(global_after(global, exec), exec),
        global_after(global_after(global, exec), exec) == global_after(global, exec),
{
    let once = global_after(global, exec);
    assert(once.len() == global.len());
    assert forall|i: int| 0 <= i < once.len() && i < exec.len() implies exec[i] <= once[i] by {
        if novel(global, exec) {
        } else {
            if exec[i] > global[i] {
                assert(novel(global, exec));
            }
        }
    }
}

/// Counters of the global maximum map never go down over one evaluation, and
/// its length stays.
pub proof fn lemma_global_grows(global: Seq<u8>, exec: Seq<u8>)
    ensures
        global_after(global, exec).len() == global.len(),
        forall|i: int| 0 <= i < global.len() ==> global[i] <= #[trigger] global_after(global, exec)[i],
        covered(global).subset_of(covered(global_after(global, exec))),
        forall|i: int|
            0 <= i < global.len() && i < exec.len() ==> exec[i] <= #[trigger] global_after(
                global,
                exec,
            )[i],
{
    let after = global_after(global, exec);
    assert forall|i: int| 0 <= i < global.len() && i < exec.len() implies exec[i] <= after[i] by {
        if !novel(global, exec) && exec[i] > global[i] {
            assert(novel(global, exec));
        }
    }
}

/// Over any sequence of executions the set of edges that the global maximum
/// map has seen only grows, and no counter goes down.
pub proof fn lemma_coverage_monotone(global: Seq<u8>, runs: Seq<Seq<u8>>)
    ensures
        global_after_all(global, runs).len() == global.len(),
        forall|i: int|
            0 <= i < global.len() ==> global[i] <= #[trigger] global_after_all(global, runs)[i],
        covered(global).subset_of(covered(global_after_all(global, runs))),
    decreases runs.len(),
{
    if runs.len() > 0 {
        lemma_coverage_monotone(global, runs.drop_last());
        lemma_global_grows(global_after_all(global, runs.drop_last()), runs.last());
    }
}

/// Among distinct signatures each one stands once or not at all.
pub proof fn lemma_distinct_persisted_once(known: Seq<u64>, signature: u64)
    requires
        distinct(known),
    ensures
        times_persisted(known, signature) == (if known.contains(signature) {
            1nat
        } else {
            0nat
        }),
    decreases known.len(),
{
    if known.len() > 0 {
        let front = known.drop_last();
        lemma_distinct_persisted_once(front, signature);
        if known.last() == signature {
            if front.contains(signature) {
                let i = choose|i: int| 0 <= i < front.len() && front[i] == signature;
                assert(known[i] == known[known.len() - 1]);
            }
            assert(known[known.len() - 1] == signature);
        } else {
            if known.contains(signature) {
                let i = choose|i: int| 0 <= i < known.len() && known[i] == signature;
                assert(front[i] == signature);
            } else {
                if front.contains(signature) {
                    let i = choose|i: int| 0 <= i < front.len() && front[i] == signature;
                    assert(known[i] == signature);
                }
            }
        }
    }
}

/// The objective keeps the persisted signatures distinct, whatever it sees.
pub proof fn lemma_objective_keeps_distinct(
    known: Seq<u64>,
    hangs_count_as_crashes: bool,
    outcome: Outcome,
    signature: u64,
)
    requires
        distinct(known),
    ensures
        distinct(known_after(known, hangs_count_as_crashes, outcome, signature)),
        forall|s: u64|
            known.contains(s) ==> #[trigger] known_after(
                known,
                hangs_count_as_crashes,
                outcome,
                signature,
            ).contains(s),
{
    let after = known_after(known, hangs_count_as_crashes, outcome, signature);
    assert forall|s: u64| known.contains(s) implies #[trigger] after.contains(s) by {
        let i = choose|i: int| 0 <= i < known.len() && known[i] == s;
        assert(after[i] == s);
    }
}

/// Two executions that crash with the same signature leave that signature
/// persisted exactly once: the second one is not admitted. Both are counted,
/// as long as the counter has room.
pub proof fn lemma_crash_dedup(
    known: Seq<u64>,
    count: nat,
    hangs_count_as_crashes: bool,
    first: Outcome,
    second: Outcome,
    signature: u64,
)
    requires
        distinct(known),
        crash_like(first, hangs_count_as_crashes),
        crash_like(second, hangs_count_as_crashes),
        count + 2 <= u64::MAX,
    ensures
        ({
            let k1 = known_after(known, hangs_count_as_crashes, first, signature);
            let k2 = known_after(k1, hangs_count_as_crashes, second, signature);
            let c1 = count_after(count, hangs_count_as_crashes, first);
            let c2 = count_after(c1, hangs_count_as_crashes, second);
            &&& !objective_admits(k1, hangs_count_as_crashes, second, signature)
            &&& distinct(k2)
            &&& times_persisted(k2, signature) == 1
            &&& c2 == count + 2
            &&& objective_admits(known, hangs_count_as_crashes, first, signature)
                == !known.contains(signature)
        }),
{
    let k1 = known_after(known, hangs_count_as_crashes, first, signature);
    lemma_objective_keeps_distinct(known, hangs_count_as_crashes, first, signature);
    if !known.contains(signature) {
        assert(k1[known.len() as int] == signature);
    }
    assert(k1.contains(signature));
    lemma_distinct_persisted_once(k1, signature);
}

} // verus!
