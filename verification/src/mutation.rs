//! The havoc stage: stacked edits by libafl's byte-level and token
//! operators.

use libafl::corpus::{Corpus, InMemoryCorpus, Testcase};
use libafl::inputs::BytesInput;
use libafl::mutators::{havoc_mutations, tokens_mutations, MutatorsTuple, Tokens};
use libafl::state::StdState;
use libafl::HasMetadata;
use libafl_bolts::rands::StdRand;
use libafl_bolts::tuples::Merge;
use vstd::prelude::*;
use crate::tokens::{none_empty, token_list, TokenDictionary};

verus! {

/// The number of edit operators: the byte-level ones, the two that splice in
/// another input, and the two that use the dictionary.
pub const OPERATOR_COUNT: usize = 29;

/// The first of the two operators that use the dictionary; they are the last
/// ones.
pub const FIRST_TOKEN_OPERATOR: usize = 27;

/// The first of the three operators that add to a word of two, four or eight
/// bytes.
pub const FIRST_WORD_OPERATOR: usize = 7;

/// The last of the three operators that add to a word.
pub const LAST_WORD_OPERATOR: usize = 9;

/// Whether what the operator makes is the same on every machine. The three
/// operators that add to a word read it in the byte order of the machine.
pub open spec fn byte_order_free(op: usize) -> bool {
    op < FIRST_WORD_OPERATOR || op > LAST_WORD_OPERATOR
}

/// The bytes that the edit operator `op` makes of `input`, with `partner` as
/// the input to splice from, `tokens` as the dictionary and `seed` for its
/// random choices.
pub uninterp spec fn operator_output(
    input: Seq<u8>,
    partner: Seq<u8>,
    tokens: Seq<Seq<u8>>,
    op: usize,
    seed: u64,
) -> Seq<u8>;

/// One edit by libafl: `get_and_mutate` on `havoc_mutations()` merged with
/// `tokens_mutations()`, in a fresh state whose random generator starts from
/// `seed`, whose corpus holds `partner` alone and whose dictionary is
/// `tokens`. The same arguments give the same bytes, but for the three
/// operators that add to a word: they work in the byte order of the machine,
/// and of them only this is claimed, that they keep the length. An error
/// from libafl ends the edit, and the bytes come back as they stand then.
#[verifier::external_body]
fn apply_operator(input: &Vec<u8>, partner: &Vec<u8>, tokens: &Tokens, op: usize, seed: u64) -> (out:
    Vec<u8>)
    requires
        op < OPERATOR_COUNT,
        none_empty(token_list(*tokens)),
    ensures
        byte_order_free(op) ==> out@ == operator_output(
            input@,
            partner@,
            token_list(*tokens),
            op,
            seed,
        ),
        !byte_order_free(op) ==> out@.len() == input@.len(),
{
    let mut corpus = InMemoryCorpus::<BytesInput>::new();
    let _ = corpus.add(Testcase::new(BytesInput::new(partner.clone())));
    let mut bytes = BytesInput::new(input.clone());
    let fresh = StdState::new(StdRand::with_seed(seed), corpus, InMemoryCorpus::new(), &mut (), &mut ());
    if let Ok(mut state) = fresh {
        state.add_metadata(tokens.clone());
        let mut operators = havoc_mutations().merge(tokens_mutations());
        let _ = operators.get_and_mutate(op.into(), &mut state, &mut bytes);
    }
    bytes.into_inner()
}

/// What an edit leaves of `input` when the operator made `output`: the
/// output, unless it is empty; an edit that would leave no byte is skipped.
pub open spec fn kept(input: Seq<u8>, output: Seq<u8>) -> Seq<u8> {
    if output.len() == 0 {
        input
    } else {
        output
    }
}

/// Whether the operator needs a dictionary.
pub open spec fn uses_tokens(op: usize) -> bool {
    FIRST_TOKEN_OPERATOR <= op < OPERATOR_COUNT
}

/// Whether the operator does nothing: it is none of the known ones, or it
/// needs the dictionary and the dictionary is empty.
pub open spec fn idle(tokens: Seq<Seq<u8>>, op: usize) -> bool {
    op >= OPERATOR_COUNT || (uses_tokens(op) && tokens.len() == 0)
}

/// Whether `result` can be what one edit makes of `input`: the input itself
/// where the operator does nothing; otherwise what is kept of the operator's
/// output, and for an operator that adds to a word some bytes of the same
/// length.
pub open spec fn edit_allows(
    input: Seq<u8>,
    partner: Seq<u8>,
    tokens: Seq<Seq<u8>>,
    step: Edit,
    result: Seq<u8>,
) -> bool {
    if idle(tokens, step.op) {
        result == input
    } else if byte_order_free(step.op) {
        result == kept(input, operator_output(input, partner, tokens, step.op, step.seed))
    } else {
        result.len() == input.len()
    }
}

/// One planned edit: which operator to apply, and the seed for its random
/// choices.
#[derive(Clone, Copy, Debug, PartialEq, Eq, Structural)]
pub struct Edit {
    pub op: usize,
    pub seed: u64,
}

/// Decides between an input and what an operator made of it: the output is
/// taken unless it is empty.
pub fn keep_nonempty(input: Vec<u8>, output: Vec<u8>) -> (result: Vec<u8>)
    ensures
        result@ == kept(input@, output@),
{
    if output.len() == 0 {
        input
    } else {
        output
    }
}

/// Applies one edit operator to `input`. An operator that needs the
/// dictionary does nothing while the dictionary is empty, and an edit that
/// would leave no byte is skipped.
pub fn edit(input: Vec<u8>, partner: &Vec<u8>, dictionary: &TokenDictionary, op: usize, seed: u64) -> (result:
    Vec<u8>)
    requires
        dictionary.wf(),
    ensures
        edit_allows(input@, partner@, dictionary@, Edit { op, seed }, result@),
        input@.len() > 0 ==> result@.len() > 0,
{
    if op >= OPERATOR_COUNT {
        return input;
    }
    if op >= FIRST_TOKEN_OPERATOR && dictionary.is_empty() {
        return input;
    }
    let output: Vec<u8> = apply_operator(&input, partner, dictionary.tokens(), op, seed);
    keep_nonempty(input, output)
}

/// Whether `steps` can be what a stack of edits makes of `input`, one after
/// the other: `steps` begins with the input, and each edit of the plan leads
/// from one entry to the next.
pub open spec fn stack_allows(
    input: Seq<u8>,
    partner: Seq<u8>,
    tokens: Seq<Seq<u8>>,
    plan: Seq<Edit>,
    steps: Seq<Seq<u8>>,
) -> bool {
    &&& steps.len() == plan.len() + 1
    &&& steps[0] == input
    &&& forall|k: int|
        0 <= k < plan.len() ==> edit_allows(
            steps[k],
            partner,
            tokens,
            #[trigger] plan[k],
            steps[k + 1],
        )
}

/// What a stack of edits makes of `input` where no operator of the plan
/// adds to a word: each edit works on what the one before it left.
pub open spec fn stacked(
    input: Seq<u8>,
    partner: Seq<u8>,
    tokens: Seq<Seq<u8>>,
    plan: Seq<Edit>,
) -> Seq<u8>
    decreases plan.len(),
{
    if plan.len() == 0 {
        input
    } else {
        let before = stacked(input, partner, tokens, plan.drop_last());
        let step = plan.last();
        if idle(tokens, step.op) {
            before
        } else {
            kept(before, operator_output(before, partner, tokens, step.op, step.seed))
        }
    }
}

/// Where no operator of the plan adds to a word, the plan leaves one result
/// only.
pub proof fn lemma_stack_determined(
    input: Seq<u8>,
    partner: Seq<u8>,
    tokens: Seq<Seq<u8>>,
    plan: Seq<Edit>,
    steps: Seq<Seq<u8>>,
)
    requires
        stack_allows(input, partner, tokens, plan, steps),
        forall|k: int| 0 <= k < plan.len() ==> byte_order_free((#[trigger] plan[k]).op),
    ensures
        steps.last() == stacked(input, partner, tokens, plan),
    decreases plan.len(),
{
    if plan.len() > 0 {
        let front = plan.drop_last();
        let fewer = steps.drop_last();
        assert forall|k: int| 0 <= k < front.len() implies edit_allows(
            fewer[k],
            partner,
            tokens,
            #[trigger] front[k],
            fewer[k + 1],
        ) by {
            assert(front[k] == plan[k]);
        }
        assert forall|k: int| 0 <= k < front.len() implies byte_order_free(
            (#[trigger] front[k]).op,
        ) by {
            assert(front[k] == plan[k]);
        }
        lemma_stack_determined(input, partner, tokens, front, fewer);
        let last = plan.len() - 1;
        assert(plan[last] == plan.last());
        assert(edit_allows(steps[last], partner, tokens, plan[last], steps[last + 1]));
    }
}

/// The havoc stage: applies the planned edits to `input`, one after the
/// other. An input that holds a byte still holds one afterwards.
pub fn havoc(input: Vec<u8>, partner: &Vec<u8>, dictionary: &TokenDictionary, plan: &Vec<Edit>) -> (result:
    Vec<u8>)
    requires
        dictionary.wf(),
    ensures
        exists|steps: Seq<Seq<u8>>|
            stack_allows(input@, partner@, dictionary@, plan@, steps) && result@ == steps.last(),
        input@.len() > 0 ==> result@.len() > 0,
{
    let mut current: Vec<u8> = input;
    let ghost mut steps: Seq<Seq<u8>> = seq![input@];
    let mut i: usize = 0;
    while i < plan.len()
        invariant
            i <= plan@.len(),
            dictionary.wf(),
            stack_allows(input@, partner@, dictionary@, plan@.take(i as int), steps),
            current@ == steps.last(),
            input@.len() > 0 ==> current@.len() > 0,
        decreases plan@.len() - i,
    {
        let step: Edit = plan[i];
        let ghost before = steps;
        current = edit(current, partner, dictionary, step.op, step.seed);
        proof {
            steps = steps.push(current@);
            let shorter = plan@.take(i as int);
            let longer = plan@.take(i + 1);
            assert forall|k: int| 0 <= k < longer.len() implies edit_allows(
                steps[k],
                partner@,
                dictionary@,
                #[trigger] longer[k],
                steps[k + 1],
            ) by {
                if k < i {
                    assert(shorter[k] == longer[k]);
                    assert(edit_allows(before[k], partner@, dictionary@, shorter[k], before[k + 1]));
                } else {
                    assert(longer[k] == step);
                    assert(steps[k] == before.last());
                }
            }
        }
        i = i + 1;
    }
    assert(plan@.take(i as int) =~= plan@);
    current
}

/// Two to the power `e`.
pub open spec fn pow2(e: nat) -> nat
    decreases e,
{
    if e == 0 {
        1
    } else {
        2 * pow2((e - 1) as nat)
    }
}

/// The exponent that `draw` selects below `max_pow`, never above 62.
pub open spec fn stack_exponent(draw: u64, max_pow: u64) -> nat {
    if max_pow == 0 {
        0
    } else if draw % max_pow > 62 {
        62
    } else {
        (draw % max_pow) as nat
    }
}

/// How many edits to stack for a draw: a power of two from 2 up to two to
/// the power `max_pow`.
pub fn stack_size(draw: u64, max_pow: u64) -> (n: u64)
    ensures
        n == pow2(1 + stack_exponent(draw, max_pow)),
        n >= 2,
{
    let mut e: u64 = if max_pow == 0 {
        0
    } else {
        draw % max_pow
    };
    if e > 62 {
        e = 62;
    }
    let mut n: u64 = 2;
    let mut k: u64 = 0;
    proof {
        assert(pow2(1) == 2) by {
            reveal_with_fuel(pow2, 2);
        }
        lemma_pow2_63();
    }
    while k < e
        invariant
            k <= e,
            e <= 62,
            n == pow2(1 + k as nat),
            2 <= n,
            n <= pow2(63),
        decreases e - k,
    {
        proof {
            lemma_pow2_ordered(1 + k as nat + 1, 63);
            lemma_pow2_63();
        }
        n = n * 2;
        k = k + 1;
    }
    n
}

proof fn lemma_pow2_ordered(a: nat, b: nat)
    requires
        a <= b,
    ensures
        pow2(a) <= pow2(b),
        pow2(a) >= 1,
    decreases b,
{
    if a < b {
        lemma_pow2_ordered(a, (b - 1) as nat);
    } else if a > 0 {
        lemma_pow2_ordered((a - 1) as nat, (a - 1) as nat);
    }
}

proof fn lemma_pow2_63()
    ensures
        pow2(63) == 0x8000_0000_0000_0000,
{
    assert(pow2(8) == 256) by {
        reveal_with_fuel(pow2, 9);
    }
    assert(pow2(16) == 65536) by {
        lemma_pow2_sum(8, 8);
    }
    assert(pow2(32) == 0x1_0000_0000) by {
        lemma_pow2_sum(16, 16);
    }
    assert(pow2(48) == 0x1_0000_0000_0000) by {
        lemma_pow2_sum(32, 16);
    }
    assert(pow2(56) == 0x100_0000_0000_0000) by {
        lemma_pow2_sum(48, 8);
    }
    assert(pow2(7) == 128) by {
        reveal_with_fuel(pow2, 8);
    }
    assert(pow2(63) == 0x8000_0000_0000_0000) by {
        lemma_pow2_sum(56, 7);
    }
}

proof fn lemma_pow2_sum(a: nat, b: nat)
    ensures
        pow2(a + b) == pow2(a) * pow2(b),
    decreases b,
{
    if b > 0 {
        lemma_pow2_sum(a, (b - 1) as nat);
        assert(pow2(a + b) == 2 * pow2((a + b - 1) as nat));
        assert(2 * (pow2(a) * pow2((b - 1) as nat)) == pow2(a) * (2 * pow2((b - 1) as nat)))
            by (nonlinear_arith);
    } else {
        assert(pow2(a) * 1 == pow2(a));
    }
}

} // verus!
