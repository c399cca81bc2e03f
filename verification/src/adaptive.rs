//! Which edit operator comes next: use and find counts of the operators,
//! and selection weights that follow them round by round.

use vstd::prelude::*;
use libafl_bolts::rands::RomuDuoJrRand;
use crate::mutation::{pow2, stack_exponent, stack_size, Edit, OPERATOR_COUNT};
use crate::rng::{draw, draws};
use crate::schedule::{selects, total_energy, weighted_pick};

verus! {

/// The selection weight of an operator that was used `uses` times and led to
/// new coverage `finds` times: 1 at least, so that no operator drops out, and
/// up to 100 more in proportion to its share of finds.
pub open spec fn weight_of(uses: u64, finds: u64) -> nat {
    if uses == 0 {
        1
    } else {
        (1 + (100 * finds) / (uses as int)) as nat
    }
}

/// What is kept about the edit operators, as plain values.
pub struct OperatorModel {
    pub uses: Seq<u64>,
    pub finds: Seq<u64>,
    pub weights: Seq<u64>,
    pub since: nat,
    pub period: nat,
}

/// The weights that the counters give.
pub open spec fn fresh_weights(uses: Seq<u64>, finds: Seq<u64>) -> Seq<u64> {
    Seq::new(uses.len(), |i: int| weight_of(uses[i], finds[i]) as u64)
}

/// The counters after one use of `op`: one more use, and one more find if the
/// use led to new coverage. A counter that is full stays as it is.
pub open spec fn counted(m: OperatorModel, op: usize, found: bool) -> OperatorModel {
    if op < m.uses.len() && m.uses[op as int] < u64::MAX {
        OperatorModel {
            uses: m.uses.update(op as int, (m.uses[op as int] + 1) as u64),
            finds: if found {
                m.finds.update(op as int, (m.finds[op as int] + 1) as u64)
            } else {
                m.finds
            },
            ..m
        }
    } else {
        m
    }
}

/// Whether the round ends with the next use.
pub open spec fn round_ends(m: OperatorModel) -> bool {
    m.period > 0 && m.since + 1 >= m.period
}

/// The state after one use of `op`: the counters move, and at the end of a
/// round the weights are set anew from them.
pub open spec fn recorded(m: OperatorModel, op: usize, found: bool) -> OperatorModel {
    let c = counted(m, op, found);
    if round_ends(m) {
        OperatorModel { weights: fresh_weights(c.uses, c.finds), since: 0, ..c }
    } else if m.period > 0 {
        OperatorModel { since: m.since + 1, ..c }
    } else {
        c
    }
}

/// Use counts and find counts of the edit operators, and the weights by
/// which the next operator is chosen. The weights follow the counts once per
/// round.
pub struct OperatorStats {
    uses: Vec<u64>,
    finds: Vec<u64>,
    weights: Vec<u64>,
    since: u64,
    period: u64,
}

impl View for OperatorStats {
    type V = OperatorModel;

    closed spec fn view(&self) -> OperatorModel {
        OperatorModel {
            uses: self.uses@,
            finds: self.finds@,
            weights: self.weights@,
            since: self.since as nat,
            period: self.period as nat,
        }
    }
}

/// There is one counter pair and one weight for each operator, no operator
/// has more finds than uses, and every weight is between 1 and 101.
pub open spec fn stats_valid(m: OperatorModel) -> bool {
    &&& m.uses.len() == OPERATOR_COUNT
    &&& m.finds.len() == OPERATOR_COUNT
    &&& m.weights.len() == OPERATOR_COUNT
    &&& m.since <= m.period
    &&& m.period <= u64::MAX
    &&& forall|i: int| 0 <= i < OPERATOR_COUNT ==> #[trigger] m.finds[i] <= m.uses[i]
    &&& forall|i: int| 0 <= i < OPERATOR_COUNT ==> 1 <= #[trigger] m.weights[i] <= 101
}

/// A weight lies between 1 and 101 where finds do not exceed uses, and more
/// finds at the same number of uses give no smaller weight.
pub proof fn lemma_weight_bounds(uses: u64, finds: u64, more: u64)
    requires
        finds <= more <= uses,
    ensures
        1 <= weight_of(uses, finds) <= weight_of(uses, more) <= 101,
{
    if uses > 0 {
        let u = uses as int;
        vstd::arithmetic::div_mod::lemma_div_is_ordered(100 * finds, 100 * more, u);
        vstd::arithmetic::div_mod::lemma_div_is_ordered(100 * more, 100 * u, u);
        vstd::arithmetic::div_mod::lemma_div_multiples_vanish(100, u);
        assert(100 * u == u * 100) by (nonlinear_arith);
        vstd::arithmetic::div_mod::lemma_div_pos_is_pos(100 * finds, u);
    }
}

impl OperatorStats {
    /// The state is valid.
    pub open spec fn wf(&self) -> bool {
        stats_valid(self@)
    }

    /// Statistics with all counters at 0 and all weights at 1, for rounds of
    /// `period` uses. With a period of 0 the weights never change.
    pub fn new(period: u64) -> (stats: OperatorStats)
        ensures
            stats.wf(),
            stats@.uses == Seq::new(OPERATOR_COUNT as nat, |i: int| 0u64),
            stats@.finds == Seq::new(OPERATOR_COUNT as nat, |i: int| 0u64),
            stats@.weights == Seq::new(OPERATOR_COUNT as nat, |i: int| 1u64),
            stats@.since == 0,
            stats@.period == period,
    {
        let mut uses: Vec<u64> = Vec::new();
        let mut finds: Vec<u64> = Vec::new();
        let mut weights: Vec<u64> = Vec::new();
        let mut i: usize = 0;
        while i < OPERATOR_COUNT
            invariant
                i <= OPERATOR_COUNT,
                uses@ =~= Seq::new(i as nat, |k: int| 0u64),
                finds@ =~= Seq::new(i as nat, |k: int| 0u64),
                weights@ =~= Seq::new(i as nat, |k: int| 1u64),
            decreases OPERATOR_COUNT - i,
        {
            uses.push(0);
            finds.push(0);
            weights.push(1);
            i = i + 1;
        }
        OperatorStats { uses, finds, weights, since: 0, period }
    }

    /// The weight of the operator `op`, or 0 if there is no such operator.
    pub fn weight(&self, op: usize) -> (w: u64)
        ensures
            w == (if op < self@.weights.len() {
                self@.weights[op as int]
            } else {
                0
            }),
    {
        if op < self.weights.len() {
            self.weights[op]
        } else {
            0
        }
    }

    /// How often the operator `op` was used and how often that led to new
    /// coverage; both 0 if there is no such operator.
    pub fn counts(&self, op: usize) -> (c: (u64, u64))
        ensures
            c == (if op < self@.uses.len() && op < self@.finds.len() {
                (self@.uses[op as int], self@.finds[op as int])
            } else {
                (0u64, 0u64)
            }),
    {
        if op < self.uses.len() && op < self.finds.len() {
            (self.uses[op], self.finds[op])
        } else {
            (0, 0)
        }
    }

    /// Chooses the operator for the next edit: the draw, reduced below the
    /// sum of the weights, falls to the operator that owns it. Every
    /// operator owns at least one draw.
    pub fn pick(&self, draw: u64) -> (op: usize)
        requires
            self.wf(),
        ensures
            op < OPERATOR_COUNT,
            selects(self@.weights, (draw as nat) % total_energy(self@.weights), op as int),
    {
        proof {
            lemma_weights_total(self@.weights);
        }
        match weighted_pick(&self.weights, draw as u128) {
            Some(op) => op,
            None => 0,
        }
    }

    /// Notes one use of the operator `op`, and whether it led to new
    /// coverage. At the end of a round the weights are set anew from the
    /// counters; the result says whether that happened.
    pub fn record(&mut self, op: usize, found: bool) -> (renewed: bool)
        requires
            old(self).wf(),
        ensures
            final(self).wf(),
            final(self)@ == recorded(old(self)@, op, found),
            renewed == round_ends(old(self)@),
    {
        if op < OPERATOR_COUNT && self.uses[op] < u64::MAX {
            let u: u64 = self.uses[op];
            self.uses.set(op, u + 1);
            if found {
                let f: u64 = self.finds[op];
                self.finds.set(op, f + 1);
            }
        }
        assert(self.uses@ =~= counted(old(self)@, op, found).uses);
        assert(self.finds@ =~= counted(old(self)@, op, found).finds);
        assert forall|i: int| 0 <= i < OPERATOR_COUNT implies #[trigger] self.finds@[i]
            <= self.uses@[i] by {
            assert(old(self)@.finds[i] <= old(self)@.uses[i]);
        }
        assert(self.weights@ == old(self)@.weights);
        if self.period > 0 && self.since >= self.period - 1 {
            self.renew();
            let ghost renewed_weights = self@.weights;
            self.since = 0;
            assert forall|i: int| 0 <= i < OPERATOR_COUNT implies 1 <= #[trigger] self@.weights[i]
                <= 101 by {
                assert(1 <= renewed_weights[i] <= 101);
            }
            true
        } else {
            if self.period > 0 {
                self.since = self.since + 1;
            }
            assert forall|i: int| 0 <= i < OPERATOR_COUNT implies 1 <= #[trigger] self@.weights[i]
                <= 101 by {
                assert(1 <= old(self)@.weights[i] <= 101);
            }
            false
        }
    }

    /// Sets every weight to what the counters give.
    fn renew(&mut self)
        requires
            old(self)@.uses.len() == OPERATOR_COUNT,
            old(self)@.finds.len() == OPERATOR_COUNT,
            old(self)@.weights.len() == OPERATOR_COUNT,
            forall|i: int| 0 <= i < OPERATOR_COUNT ==> #[trigger] old(self)@.finds[i] <= old(self)@.uses[i],
        ensures
            final(self)@ == (OperatorModel {
                weights: fresh_weights(old(self)@.uses, old(self)@.finds),
                ..old(self)@
            }),
            forall|i: int| 0 <= i < OPERATOR_COUNT ==> 1 <= #[trigger] final(self)@.weights[i] <= 101,
    {
        let mut i: usize = 0;
        while i < OPERATOR_COUNT
            invariant
                i <= OPERATOR_COUNT,
                self.uses@ == old(self).uses@,
                self.finds@ == old(self).finds@,
                self.since == old(self).since,
                self.period == old(self).period,
                self.uses@.len() == OPERATOR_COUNT,
                self.finds@.len() == OPERATOR_COUNT,
                self.weights@.len() == OPERATOR_COUNT,
                forall|k: int| 0 <= k < OPERATOR_COUNT ==> #[trigger] self.finds@[k] <= self.uses@[k],
                forall|k: int|
                    0 <= k < i ==> #[trigger] self.weights@[k] == weight_of(
                        self.uses@[k],
                        self.finds@[k],
                    ) && 1 <= self.weights@[k] <= 101,
            decreases OPERATOR_COUNT - i,
        {
            let u: u64 = self.uses[i];
            let f: u64 = self.finds[i];
            proof {
                assert(self.finds@[i as int] <= self.uses@[i as int]);
                lemma_weight_bounds(u, f, f);
            }
            let w: u64 = if u == 0 {
                1
            } else {
                (1 + (100 * (f as u128)) / (u as u128)) as u64
            };
            self.weights.set(i, w);
            i = i + 1;
        }
        assert(self.weights@ =~= fresh_weights(old(self)@.uses, old(self)@.finds));
    }
}

/// Weights of at least 1 each sum to more than 0.
proof fn lemma_weights_total(weights: Seq<u64>)
    requires
        weights.len() > 0,
        forall|i: int| 0 <= i < weights.len() ==> 1 <= #[trigger] weights[i],
    ensures
        total_energy(weights) > 0,
{
    assert(weights.last() >= 1);
}

/// Whether `plan` is the plan that `draws` give under `weights`: the draws
/// are taken in pairs, the first of a pair selects the operator by weight and
/// the second is the seed of the edit.
pub open spec fn plan_follows(weights: Seq<u64>, draws: Seq<u64>, plan: Seq<Edit>) -> bool {
    &&& plan.len() == draws.len() / 2
    &&& forall|k: int|
        0 <= k < plan.len() ==> {
            &&& selects(
                weights,
                (draws[2 * k] as nat) % total_energy(weights),
                (#[trigger] plan[k]).op as int,
            )
            &&& plan[k].seed == draws[2 * k + 1]
        }
}

/// Plans a stack of edits from draws: one edit for each pair of draws, its
/// operator picked by weight from the first and its seed the second. A last
/// draw without a partner is not used.
pub fn plan_from(stats: &OperatorStats, draws: &Vec<u64>) -> (plan: Vec<Edit>)
    requires
        stats.wf(),
    ensures
        plan_follows(stats@.weights, draws@, plan@),
        forall|k: int| 0 <= k < plan@.len() ==> (#[trigger] plan@[k]).op < OPERATOR_COUNT,
{
    let len: usize = draws.len();
    let n: usize = len / 2;
    let mut plan: Vec<Edit> = Vec::new();
    let mut k: usize = 0;
    while k < n
        invariant
            k <= n,
            len == draws@.len(),
            n == len / 2,
            stats.wf(),
            plan@.len() == k,
            forall|j: int|
                0 <= j < k ==> {
                    &&& selects(
                        stats@.weights,
                        (draws@[2 * j] as nat) % total_energy(stats@.weights),
                        (#[trigger] plan@[j]).op as int,
                    )
                    &&& plan@[j].seed == draws@[2 * j + 1]
                    &&& plan@[j].op < OPERATOR_COUNT
                },
        decreases n - k,
    {
        assert(2 * k + 1 < len);
        let op: usize = stats.pick(draws[2 * k]);
        let seed: u64 = draws[2 * k + 1];
        plan.push(Edit { op, seed });
        k = k + 1;
    }
    plan
}

/// Plans the edits of one havoc round at random: the first draw sets how
/// many edits are stacked, a power of two from 2 up to two to the power
/// `max_pow` and never more than 256; then each edit takes two draws.
pub fn plan_edits(stats: &OperatorStats, rng: &mut RomuDuoJrRand, max_pow: u64) -> (plan: Vec<Edit>)
    requires
        stats.wf(),
    ensures
        2 <= plan@.len() <= 256,
        forall|k: int| 0 <= k < plan@.len() ==> (#[trigger] plan@[k]).op < OPERATOR_COUNT,
        exists|first: u64, pairs: Seq<u64>|
            plan_follows(stats@.weights, pairs, plan@) && plan@.len() == edits_for(first, max_pow),
{
    let first: u64 = draw(rng);
    let count: usize = edit_count(first, max_pow);
    let pairs: Vec<u64> = draws(rng, 2 * count);
    let plan: Vec<Edit> = plan_from(stats, &pairs);
    assert(plan_follows(stats@.weights, pairs@, plan@) && plan@.len() == edits_for(first, max_pow));
    plan
}

/// The number of edits that a first draw asks for: the stack size, but 256
/// at most.
pub open spec fn edits_for(first: u64, max_pow: u64) -> nat {
    if pow2(1 + stack_exponent(first, max_pow)) > 256 {
        256
    } else {
        pow2(1 + stack_exponent(first, max_pow))
    }
}

/// The number of edits to stack for a first draw.
pub fn edit_count(first: u64, max_pow: u64) -> (n: usize)
    ensures
        n == edits_for(first, max_pow),
        2 <= n <= 256,
{
    let size: u64 = stack_size(first, max_pow);
    if size > 256 {
        256
    } else {
        size as usize
    }
}

} // verus!
