//! Operand pairs of logged comparisons, and the replacement of one operand
//! by the other in an input.

use libafl::corpus::InMemoryCorpus;
use libafl::inputs::BytesInput;
use libafl::mutators::{I2SRandReplace, Mutator};
use libafl::observers::{CmpValues, CmpValuesMetadata, CmplogBytes};
use libafl::state::StdState;
use libafl::HasMetadata;
use libafl_bolts::rands::StdRand;
use vstd::prelude::*;

verus! {

/// The longest operand that the comparison log keeps.
pub const MAX_OPERAND_LEN: usize = 32;

/// The two operands that one comparison of the target was seen to have:
/// byte strings of the same length, each in a buffer of 32 bytes.
#[derive(Clone, Copy, Debug)]
pub struct OperandPair {
    left: [u8; 32],
    right: [u8; 32],
    len: u8,
}

/// The two operands of a comparison, as plain values.
pub struct PairModel {
    pub left: Seq<u8>,
    pub right: Seq<u8>,
}

impl View for OperandPair {
    type V = PairModel;

    closed spec fn view(&self) -> PairModel {
        PairModel {
            left: self.left@.subrange(0, self.len as int),
            right: self.right@.subrange(0, self.len as int),
        }
    }
}

/// Whether a pair can stand in the comparison log: both operands have the
/// same length, between 1 and 32 bytes.
pub open spec fn loggable(pair: PairModel) -> bool {
    1 <= pair.left.len() <= MAX_OPERAND_LEN && pair.right.len() == pair.left.len()
}

/// The pairs of a log, as plain values.
pub open spec fn pair_models(pairs: Seq<OperandPair>) -> Seq<PairModel> {
    Seq::new(pairs.len(), |i: int| pairs[i]@)
}

impl OperandPair {
    /// The length of the operands is between 1 and 32.
    pub closed spec fn wf(&self) -> bool {
        1 <= self.len <= 32
    }

    /// A valid pair can stand in the log.
    pub proof fn lemma_wf_loggable(&self)
        requires
            self.wf(),
        ensures
            loggable(self@),
    {
    }

    /// The pair of the two operands, if they can stand in the log.
    pub fn new(left: &Vec<u8>, right: &Vec<u8>) -> (pair: Option<OperandPair>)
        ensures
            pair.is_some() == loggable(PairModel { left: left@, right: right@ }),
            pair matches Some(p) ==> p.wf() && p@ == (PairModel { left: left@, right: right@ }),
    {
        let n: usize = left.len();
        if n < 1 || n > MAX_OPERAND_LEN || right.len() != n {
            return None;
        }
        let mut l: [u8; 32] = [0u8; 32];
        let mut r: [u8; 32] = [0u8; 32];
        let mut i: usize = 0;
        while i < n
            invariant
                i <= n,
                n <= 32,
                n == left@.len(),
                n == right@.len(),
                forall|k: int| 0 <= k < i ==> l@[k] == left@[k] && r@[k] == right@[k],
            decreases n - i,
        {
            l.set(i, left[i]);
            r.set(i, right[i]);
            i = i + 1;
        }
        let pair = OperandPair { left: l, right: r, len: n as u8 };
        assert(pair@.left =~= left@);
        assert(pair@.right =~= right@);
        Some(pair)
    }
}

/// The bytes that input-to-state replacement makes of `input` with these
/// logged comparisons and this seed: an occurrence of one operand, or of its
/// beginning, is overwritten with the other operand.
pub uninterp spec fn replaced(input: Seq<u8>, pairs: Seq<PairModel>, seed: u64) -> Seq<u8>;

/// `I2SRandReplace::mutate` of libafl, in a fresh state whose random
/// generator starts from `seed` and whose comparison log holds `pairs` as
/// byte strings. The same arguments give the same bytes, and the length of
/// the input is kept. An error from libafl ends the replacement, and the
/// bytes come back as they stand then.
#[verifier::external_body]
pub(crate) fn replace_operand(input: &Vec<u8>, pairs: &Vec<OperandPair>, seed: u64) -> (out: Vec<u8>)
    requires
        forall|i: int| 0 <= i < pairs@.len() ==> (#[trigger] pairs@[i]).wf(),
    ensures
        out@ == replaced(input@, pair_models(pairs@), seed),
        out@.len() == input@.len(),
{
    let mut bytes = BytesInput::new(input.clone());
    let list = pairs.iter().map(|p| {
        let (l, r) = (CmplogBytes::from_buf_and_len(p.left, p.len), CmplogBytes::from_buf_and_len(p.right, p.len));
        CmpValues::Bytes((l, r))
    }).collect();
    let fresh = StdState::new(StdRand::with_seed(seed), InMemoryCorpus::<BytesInput>::new(), InMemoryCorpus::new(), &mut (), &mut ());
    if let Ok(mut state) = fresh {
        state.add_metadata(CmpValuesMetadata { list });
        let _ = I2SRandReplace::new().mutate(&mut state, &mut bytes);
    }
    bytes.into_inner()
}

} // verus!
