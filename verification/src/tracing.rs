//! The comparison trace of a tracing run, and the input-to-state stage that
//! uses it.

use vstd::prelude::*;
use crate::operands::{loggable, pair_models, replace_operand, replaced, OperandPair, PairModel};

verus! {

/// The comparisons that one tracing run of an input logged.
pub struct ComparisonTrace {
    pairs: Vec<OperandPair>,
}

impl View for ComparisonTrace {
    type V = Seq<PairModel>;

    closed spec fn view(&self) -> Seq<PairModel> {
        pair_models(self.pairs@)
    }
}

/// `log` with the pair at its end, if the pair can stand in the log.
pub open spec fn logged(log: Seq<PairModel>, pair: PairModel) -> Seq<PairModel> {
    if loggable(pair) {
        log.push(pair)
    } else {
        log
    }
}

/// What input-to-state replacement makes of an input: nothing new where the
/// trace is empty, otherwise what the replacement gives.
pub open spec fn input_to_state_result(input: Seq<u8>, trace: Seq<PairModel>, seed: u64) -> Seq<u8> {
    if trace.len() == 0 {
        input
    } else {
        replaced(input, trace, seed)
    }
}

impl ComparisonTrace {
    /// Every pair of the trace is valid.
    pub closed spec fn wf(&self) -> bool {
        forall|i: int| 0 <= i < self.pairs@.len() ==> (#[trigger] self.pairs@[i]).wf()
    }

    /// Every pair of a valid trace can stand in the comparison log.
    pub proof fn lemma_all_loggable(&self)
        requires
            self.wf(),
        ensures
            forall|i: int| 0 <= i < self@.len() ==> loggable(#[trigger] self@[i]),
    {
        assert forall|i: int| 0 <= i < self@.len() implies loggable(#[trigger] self@[i]) by {
            self.pairs@[i].lemma_wf_loggable();
        }
    }

    /// A trace without comparisons, as before each tracing run.
    pub fn new() -> (trace: ComparisonTrace)
        ensures
            trace.wf(),
            trace@ == Seq::<PairModel>::empty(),
    {
        let trace = ComparisonTrace { pairs: Vec::new() };
        assert(trace@ =~= Seq::<PairModel>::empty());
        trace
    }

    /// The number of comparisons logged.
    pub fn len(&self) -> (n: usize)
        ensures
            n == self@.len(),
    {
        self.pairs.len()
    }

    /// Logs one comparison. A pair whose operands differ in length, are
    /// empty or are longer than 32 bytes is not logged, and the result says
    /// so.
    pub fn record(&mut self, left: Vec<u8>, right: Vec<u8>) -> (taken: bool)
        requires
            old(self).wf(),
        ensures
            final(self).wf(),
            taken == loggable(PairModel { left: left@, right: right@ }),
            final(self)@ == logged(old(self)@, PairModel { left: left@, right: right@ }),
    {
        match OperandPair::new(&left, &right) {
            Some(pair) => {
                let ghost before = self@;
                self.pairs.push(pair);
                assert(self@ =~= before.push(PairModel { left: left@, right: right@ }));
                true
            },
            None => false,
        }
    }

    /// Forgets all comparisons.
    pub fn reset(&mut self)
        ensures
            final(self).wf(),
            final(self)@ == Seq::<PairModel>::empty(),
    {
        self.pairs.clear();
        assert(self@ =~= Seq::<PairModel>::empty());
    }
}

/// The input-to-state stage: overwrites an operand that occurs in the input
/// with the other operand of its comparison. Without a trace the input stays
/// as it is. The length of the input never changes.
pub fn input_to_state(input: Vec<u8>, trace: &ComparisonTrace, seed: u64) -> (result: Vec<u8>)
    requires
        trace.wf(),
    ensures
        result@ == input_to_state_result(input@, trace@, seed),
        result@.len() == input@.len(),
{
    if trace.len() == 0 {
        return input;
    }
    replace_operand(&input, &trace.pairs, seed)
}

} // verus!
