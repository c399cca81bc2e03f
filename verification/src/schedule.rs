//! Scheduling: weighted picks by energy, and the scheduler that walks the
//! favored subset first.

use libafl_bolts::rands::RomuDuoJrRand;
use vstd::prelude::*;
use crate::rng::draw;

verus! {

/// The sum of the energies.
pub open spec fn total_energy(energies: Seq<u64>) -> nat
    decreases energies.len(),
{
    if energies.len() == 0 {
        0
    } else {
        total_energy(energies.drop_last()) + energies.last() as nat
    }
}

/// The sum of the energies before index `i`.
pub open spec fn energy_before(energies: Seq<u64>, i: int) -> nat {
    total_energy(energies.take(i))
}

/// Whether the draw falls to the test case at `i`: each test case owns as
/// many consecutive draws as it has energy, in index order.
pub open spec fn selects(energies: Seq<u64>, draw: nat, i: int) -> bool {
    &&& 0 <= i < energies.len()
    &&& energy_before(energies, i) <= draw < energy_before(energies, i) + energies[i]
}

/// The draws that fall to the test case at `i`.
pub open spec fn draws_for(energies: Seq<u64>, i: int) -> Set<int> {
    Set::new(|r: int| r >= 0 && selects(energies, r as nat, i))
}

/// The sum up to `i + 1` is the sum up to `i` plus the energy at `i`.
pub proof fn lemma_energy_before_step(energies: Seq<u64>, i: int)
    requires
        0 <= i < energies.len(),
    ensures
        energy_before(energies, i + 1) == energy_before(energies, i) + energies[i],
{
    assert(energies.take(i + 1).drop_last() =~= energies.take(i));
}

/// Sums of longer prefixes are no smaller, and a sum of `n` energies is at
/// most `n` times the largest value an energy can have.
pub proof fn lemma_energy_before_ordered(energies: Seq<u64>, i: int, j: int)
    requires
        0 <= i <= j <= energies.len(),
    ensures
        energy_before(energies, i) <= energy_before(energies, j),
        energy_before(energies, j) <= j * u64::MAX,
        energy_before(energies, energies.len() as int) == total_energy(energies),
    decreases j,
{
    assert(energies.take(energies.len() as int) =~= energies);
    if j > 0 {
        lemma_energy_before_step(energies, j - 1);
        if i < j {
            lemma_energy_before_ordered(energies, i, j - 1);
        } else {
            lemma_energy_before_ordered(energies, j - 1, j - 1);
        }
        assert((j - 1) * u64::MAX + u64::MAX == j * u64::MAX) by (nonlinear_arith);
    } else {
        assert(energies.take(0) =~= Seq::<u64>::empty());
    }
}

/// A draw falls to one test case at most.
pub proof fn lemma_selects_unique(energies: Seq<u64>, draw: nat, i: int, j: int)
    requires
        selects(energies, draw, i),
        selects(energies, draw, j),
    ensures
        i == j,
{
    if i < j {
        lemma_energy_before_step(energies, i);
        lemma_energy_before_ordered(energies, i + 1, j);
    } else if j < i {
        lemma_energy_before_step(energies, j);
        lemma_energy_before_ordered(energies, j + 1, i);
    }
}

/// Every draw below the total falls to some test case.
pub proof fn lemma_selects_exists(energies: Seq<u64>, draw: nat)
    requires
        draw < total_energy(energies),
    ensures
        exists|i: int| selects(energies, draw, i),
    decreases energies.len(),
{
    let n = energies.len() as int;
    lemma_energy_before_ordered(energies, 0, n);
    assert(n > 0);
    lemma_energy_before_step(energies, n - 1);
    if draw >= energy_before(energies, n - 1) {
        assert(selects(energies, draw, n - 1));
    } else {
        let front = energies.drop_last();
        assert(energies.take(n - 1) =~= front);
        lemma_selects_exists(front, draw);
        let i = choose|i: int| selects(front, draw, i);
        assert(front.take(i) =~= energies.take(i));
        assert(selects(energies, draw, i));
    }
}

/// Fair shares: of the draws `0 .. total`, exactly as many fall to a test
/// case as it has energy, so it is selected in proportion to its energy; and
/// a test case with positive energy owns a draw below the total, so it is not
/// starved.
pub proof fn lemma_fair_share(energies: Seq<u64>, i: int)
    requires
        0 <= i < energies.len(),
    ensures
        draws_for(energies, i).finite(),
        draws_for(energies, i).len() == energies[i],
        forall|r: int| draws_for(energies, i).contains(r) ==> 0 <= r < total_energy(energies),
        energies[i] > 0 ==> selects(energies, energy_before(energies, i), i),
{
    let lo = energy_before(energies, i) as int;
    let hi = lo + energies[i];
    lemma_energy_before_step(energies, i);
    lemma_energy_before_ordered(energies, i + 1, energies.len() as int);
    assert(draws_for(energies, i) =~= vstd::set_lib::set_int_range(lo, hi));
    vstd::set_lib::lemma_int_range(lo, hi);
}

/// The total of the energies, as a machine number.
pub fn sum_energy(energies: &Vec<u64>) -> (total: u128)
    ensures
        total == total_energy(energies@),
{
    let mut total: u128 = 0;
    let mut i: usize = 0;
    while i < energies.len()
        invariant
            i <= energies@.len(),
            total == energy_before(energies@, i as int),
            total <= i * u64::MAX,
        decreases energies@.len() - i,
    {
        proof {
            lemma_energy_before_step(energies@, i as int);
            assert(i * u64::MAX + u64::MAX <= usize::MAX * u64::MAX + u64::MAX) by (nonlinear_arith)
                requires
                    i <= usize::MAX,
            ;
            assert((i + 1) * u64::MAX == i * u64::MAX + u64::MAX) by (nonlinear_arith);
        }
        total = total + energies[i] as u128;
        i = i + 1;
    }
    proof {
        lemma_energy_before_ordered(energies@, 0, energies@.len() as int);
    }
    total
}

/// A draw of 128 bits made of two draws of 64 bits.
pub open spec fn wide(high: u64, low: u64) -> u128 {
    (high as u128 * 0x1_0000_0000_0000_0000 + low as u128) as u128
}

/// Puts two draws of 64 bits together to one of 128 bits, wide enough for
/// every total of energies.
pub fn wide_draw(high: u64, low: u64) -> (draw: u128)
    ensures
        draw == wide(high, low),
{
    assert(high as u128 * 0x1_0000_0000_0000_0000 + low as u128 <= u128::MAX) by (nonlinear_arith)
        requires
            high as u128 <= 0xffff_ffff_ffff_ffff,
            low as u128 <= 0xffff_ffff_ffff_ffff,
    ;
    (high as u128) * 0x1_0000_0000_0000_0000 + (low as u128)
}

/// Every test case with energy can be picked: the total of the energies fits
/// in 128 bits, so the first of the draws that the test case owns is a draw
/// that can come, and it falls to that test case.
pub proof fn lemma_share_reachable(energies: Seq<u64>, i: int)
    requires
        0 <= i < energies.len(),
        energies[i] > 0,
        energies.len() <= usize::MAX,
    ensures
        total_energy(energies) <= u128::MAX,
        energy_before(energies, i) < total_energy(energies),
        selects(
            energies,
            ((energy_before(energies, i) as u128) as nat) % total_energy(energies),
            i,
        ),
{
    let n = energies.len() as int;
    lemma_energy_before_ordered(energies, 0, n);
    lemma_energy_before_step(energies, i);
    lemma_energy_before_ordered(energies, i + 1, n);
    assert(n * u64::MAX <= usize::MAX * u64::MAX) by (nonlinear_arith)
        requires
            0 <= n <= usize::MAX,
    ;
    let first = energy_before(energies, i);
    let total = total_energy(energies);
    assert(first < total);
    vstd::arithmetic::div_mod::lemma_small_mod(first, total);
}

/// Picks a test case by weight: the draw, reduced below the total energy,
/// falls to the test case that owns it. There is a pick unless the total
/// energy is 0; a test case with energy 0 is never picked.
pub fn weighted_pick(energies: &Vec<u64>, draw: u128) -> (pick: Option<usize>)
    ensures
        pick.is_some() == (total_energy(energies@) > 0),
        pick matches Some(i) ==> selects(
            energies@,
            (draw as nat) % total_energy(energies@),
            i as int,
        ) && energies@[i as int] > 0,
{
    let total: u128 = sum_energy(energies);
    if total == 0 {
        return None;
    }
    let r: u128 = draw % total;
    assert(r as nat == (draw as nat) % total_energy(energies@));
    let mut before: u128 = 0;
    let mut i: usize = 0;
    while i < energies.len()
        invariant
            i <= energies@.len(),
            total == total_energy(energies@),
            r < total,
            r as nat == (draw as nat) % total_energy(energies@),
            before == energy_before(energies@, i as int),
            before <= r,
        decreases energies@.len() - i,
    {
        proof {
            lemma_energy_before_step(energies@, i as int);
            lemma_energy_before_ordered(energies@, i as int + 1, energies@.len() as int);
        }
        let e: u128 = energies[i] as u128;
        if r < before + e {
            assert(selects(energies@, r as nat, i as int));
            return Some(i);
        }
        before = before + e;
        i = i + 1;
    }
    proof {
        lemma_energy_before_ordered(energies@, 0, energies@.len() as int);
    }
    None
}

/// The energies with those of the test cases that are not at hand set to 0,
/// so that none of them is picked. A test case without an entry in `present`
/// counts as not at hand.
pub open spec fn masked_spec(energies: Seq<u64>, present: Seq<bool>) -> Seq<u64> {
    Seq::new(
        energies.len(),
        |i: int|
            if i < present.len() && present[i] {
                energies[i]
            } else {
                0u64
            },
    )
}

/// Takes the energy from every test case that is not at hand.
pub fn masked(energies: &Vec<u64>, present: &Vec<bool>) -> (out: Vec<u64>)
    ensures
        out@ == masked_spec(energies@, present@),
{
    let mut out: Vec<u64> = Vec::new();
    let mut i: usize = 0;
    while i < energies.len()
        invariant
            i <= energies@.len(),
            out@.len() == i,
            forall|k: int| 0 <= k < i ==> out@[k] == masked_spec(energies@, present@)[k],
        decreases energies@.len() - i,
    {
        let e: u64 = if i < present.len() && present[i] {
            energies[i]
        } else {
            0
        };
        out.push(e);
        i = i + 1;
    }
    assert(out@ =~= masked_spec(energies@, present@));
    out
}

/// Whether the favored entry at position `k` can be scheduled: it names a
/// test case, and that test case has energy.
pub open spec fn eligible(favored: Seq<usize>, energies: Seq<u64>, k: int) -> bool {
    0 <= k < favored.len() && favored[k] < energies.len() && energies[favored[k] as int] > 0
}

/// The first position from `cursor` on whose favored entry can be scheduled,
/// or the length of `favored` if there is none.
pub open spec fn next_eligible(favored: Seq<usize>, energies: Seq<u64>, cursor: int) -> int
    decreases favored.len() - cursor,
{
    if cursor < 0 || cursor >= favored.len() {
        favored.len() as int
    } else if eligible(favored, energies, cursor) {
        cursor
    } else {
        next_eligible(favored, energies, cursor + 1)
    }
}

/// Whether a scheduler whose cursor stood at `cursor` picks `pick` for
/// `draw` and leaves its cursor at `after`: the next favored entry that can be
/// scheduled, if the cursor has one ahead, and else the weighted pick.
pub open spec fn schedules(
    favored: Seq<usize>,
    energies: Seq<u64>,
    cursor: nat,
    draw: u128,
    pick: Option<usize>,
    after: nat,
) -> bool {
    let p = next_eligible(favored, energies, cursor as int);
    if p < favored.len() {
        pick == Some(favored[p]) && after == p + 1
    } else {
        &&& after == favored.len()
        &&& pick.is_some() == (total_energy(energies) > 0)
        &&& pick matches Some(i) ==> selects(
            energies,
            (draw as nat) % total_energy(energies),
            i as int,
        )
    }
}

/// Chooses the next test case to mutate. A cursor walks the favored subset
/// once, in order; when it has passed the end, picks fall back to the whole
/// corpus, weighted by energy.
pub struct Scheduler {
    cursor: usize,
}

impl View for Scheduler {
    type V = nat;

    closed spec fn view(&self) -> nat {
        self.cursor as nat
    }
}

impl Scheduler {
    /// A scheduler whose cursor stands at the start of the favored subset.
    pub fn new() -> (s: Scheduler)
        ensures
            s@ == 0,
    {
        Scheduler { cursor: 0 }
    }

    /// Puts the cursor back to the start, for a new round over the favored
    /// subset.
    pub fn restart(&mut self)
        ensures
            final(self)@ == 0,
    {
        self.cursor = 0;
    }

    /// The position of the cursor in the favored subset.
    pub fn cursor(&self) -> (c: usize)
        ensures
            c == self@,
    {
        self.cursor
    }

    /// The next test case. While the cursor has a favored entry ahead that
    /// can be scheduled, that entry is the pick and the cursor moves behind
    /// it. Otherwise the cursor moves to the end and the pick is the weighted
    /// one for `draw`. A test case without energy is never picked.
    pub fn next(&mut self, favored: &Vec<usize>, energies: &Vec<u64>, draw: u128) -> (pick: Option<
        usize,
    >)
        ensures
            schedules(favored@, energies@, old(self)@, draw, pick, final(self)@),
            pick matches Some(i) ==> i < energies@.len() && energies@[i as int] > 0,
    {
        while self.cursor < favored.len()
            invariant
                next_eligible(favored@, energies@, self@ as int) == next_eligible(
                    favored@,
                    energies@,
                    old(self)@ as int,
                ),
            decreases favored@.len() - self.cursor,
        {
            let idx: usize = favored[self.cursor];
            if idx < energies.len() && energies[idx] > 0 {
                self.cursor = self.cursor + 1;
                return Some(idx);
            }
            self.cursor = self.cursor + 1;
        }
        self.cursor = favored.len();
        weighted_pick(energies, draw)
    }

    /// The next test case, with the draw put together from two draws of a
    /// random generator: the pick is the one that `next` makes for some draw.
    pub fn next_random(&mut self, favored: &Vec<usize>, energies: &Vec<u64>, rng: &mut RomuDuoJrRand) -> (pick:
        Option<usize>)
        ensures
            exists|d: u128| schedules(favored@, energies@, old(self)@, d, pick, final(self)@),
            pick matches Some(i) ==> i < energies@.len() && energies@[i as int] > 0,
    {
        let high: u64 = draw(rng);
        let low: u64 = draw(rng);
        let d: u128 = wide_draw(high, low);
        let pick = self.next(favored, energies, d);
        assert(schedules(favored@, energies@, old(self)@, d, pick, self@));
        pick
    }
}

/// A favored entry that can be scheduled and lies at or ahead of the cursor
/// is reached whatever the draws are: the next pick is a favored entry at or
/// before it, and each pick moves the cursor on by one at least, so it is
/// picked after no more decisions than there are entries up to it.
pub proof fn lemma_favored_is_reached(favored: Seq<usize>, energies: Seq<u64>, cursor: int, k: int)
    requires
        0 <= cursor <= k,
        eligible(favored, energies, k),
    ensures
        cursor <= next_eligible(favored, energies, cursor) <= k,
        eligible(favored, energies, next_eligible(favored, energies, cursor)),
    decreases k - cursor,
{
    if !eligible(favored, energies, cursor) {
        lemma_favored_is_reached(favored, energies, cursor + 1, k);
    }
}

/// Once the cursor has no favored entry ahead that can be scheduled, every
/// test case with energy can be the next pick: there is a draw for which the
/// scheduler picks it.
pub proof fn lemma_pick_possible(favored: Seq<usize>, energies: Seq<u64>, cursor: nat, i: int)
    requires
        next_eligible(favored, energies, cursor as int) >= favored.len(),
        0 <= i < energies.len(),
        energies[i] > 0,
        energies.len() <= usize::MAX,
    ensures
        exists|d: u128| #[trigger]
            schedules(favored, energies, cursor, d, Some(i as usize), favored.len()),
{
    lemma_share_reachable(energies, i);
    let d = energy_before(energies, i) as u128;
    assert(schedules(favored, energies, cursor, d, Some(i as usize), favored.len()));
}

} // verus!
