//! Calibration: how stable and how fast a new test case is.

use vstd::prelude::*;
use crate::coverage::CoverageMap;

verus! {

/// How often a new test case is run to calibrate it.
pub const CALIBRATION_RUNS: usize = 4;

/// What calibration found out about a test case.
#[derive(Clone, Copy, Debug, PartialEq, Eq, Structural)]
pub struct Measurement {
    /// The average execution time over the runs.
    pub exec_time: u64,
    /// Whether two runs gave different coverage.
    pub unstable: bool,
}

/// The sum of the times.
pub open spec fn sum_of(times: Seq<u64>) -> nat
    decreases times.len(),
{
    if times.len() == 0 {
        0
    } else {
        sum_of(times.drop_last()) + times.last() as nat
    }
}

/// The average of the times, rounded down; 0 where there is none.
pub open spec fn average_of(times: Seq<u64>) -> nat {
    if times.len() == 0 {
        0
    } else {
        sum_of(times) / times.len()
    }
}

/// The coverage of each run, as plain values.
pub open spec fn views(maps: Seq<CoverageMap>) -> Seq<Seq<u8>> {
    Seq::new(maps.len(), |i: int| maps[i]@)
}

/// Whether every run gave the coverage of the first one.
pub open spec fn stable(maps: Seq<Seq<u8>>) -> bool {
    forall|i: int| 0 <= i < maps.len() ==> #[trigger] maps[i] == maps[0]
}

/// The exponentially smoothed time: three parts of the previous value and one
/// part of the new sample.
pub open spec fn smoothed_spec(previous: u64, sample: u64) -> nat {
    ((3 * previous + sample) / 4) as nat
}

/// Whether two maps hold the same counters.
pub fn same_map(a: &CoverageMap, b: &CoverageMap) -> (same: bool)
    ensures
        same == (a@ == b@),
{
    if a.len() != b.len() {
        return false;
    }
    let mut i: usize = 0;
    while i < a.len()
        invariant
            i <= a@.len(),
            a@.len() == b@.len(),
            forall|k: int| 0 <= k < i ==> a@[k] == b@[k],
        decreases a@.len() - i,
    {
        if a.get(i) != b.get(i) {
            return false;
        }
        i = i + 1;
    }
    assert(a@ =~= b@);
    true
}

/// A sum of `n` times is at most `n` times the largest time.
proof fn lemma_sum_bound(times: Seq<u64>)
    ensures
        sum_of(times) <= times.len() * u64::MAX,
    decreases times.len(),
{
    if times.len() > 0 {
        lemma_sum_bound(times.drop_last());
        assert((times.len() - 1) * u64::MAX + u64::MAX == times.len() * u64::MAX)
            by (nonlinear_arith);
    }
}

/// The average of the times, rounded down; 0 where there is none.
pub fn average_time(times: &Vec<u64>) -> (avg: u64)
    ensures
        avg == average_of(times@),
{
    let n: usize = times.len();
    if n == 0 {
        return 0;
    }
    let mut total: u128 = 0;
    let mut i: usize = 0;
    while i < n
        invariant
            i <= n,
            n == times@.len(),
            total == sum_of(times@.take(i as int)),
            total <= i * u64::MAX,
        decreases n - i,
    {
        proof {
            assert(times@.take(i + 1).drop_last() =~= times@.take(i as int));
            assert(i * u64::MAX + u64::MAX <= usize::MAX * u64::MAX + u64::MAX) by (nonlinear_arith)
                requires
                    i <= usize::MAX,
            ;
            assert((i + 1) * u64::MAX == i * u64::MAX + u64::MAX) by (nonlinear_arith);
        }
        total = total + times[i] as u128;
        i = i + 1;
    }
    proof {
        assert(times@.take(n as int) =~= times@);
        lemma_sum_bound(times@);
        vstd::arithmetic::div_mod::lemma_div_is_ordered(
            sum_of(times@) as int,
            (n * u64::MAX) as int,
            n as int,
        );
        vstd::arithmetic::div_mod::lemma_div_multiples_vanish(u64::MAX as int, n as int);
        assert(n * u64::MAX == n as int * u64::MAX as int);
    }
    (total / (n as u128)) as u64
}

/// Calibrates a test case from the coverage and the time of each of its
/// runs: its execution time is the average, and it is unstable if some run
/// gave other coverage than the first.
pub fn calibrate(maps: &Vec<CoverageMap>, times: &Vec<u64>) -> (m: Measurement)
    ensures
        m.exec_time == average_of(times@),
        m.unstable == !stable(views(maps@)),
{
    let exec_time: u64 = average_time(times);
    let mut unstable: bool = false;
    let mut i: usize = 1;
    while i < maps.len() && !unstable
        invariant
            1 <= i,
            i <= maps@.len() || maps@.len() == 0,
            !unstable ==> forall|k: int|
                0 <= k < i && k < maps@.len() ==> (#[trigger] maps@[k])@ == maps@[0]@,
            unstable ==> exists|k: int| 0 <= k < maps@.len() && (#[trigger] maps@[k])@ != maps@[0]@,
        decreases maps@.len() - i + (if unstable { 0int } else { 1int }),
    {
        if !same_map(&maps[i], &maps[0]) {
            unstable = true;
        } else {
            i = i + 1;
        }
    }
    proof {
        let v = views(maps@);
        if unstable {
            let k = choose|k: int| 0 <= k < maps@.len() && (#[trigger] maps@[k])@ != maps@[0]@;
            assert(v[k] != v[0]);
        } else {
            assert forall|k: int| 0 <= k < v.len() implies #[trigger] v[k] == v[0] by {
                assert(maps@[k]@ == maps@[0]@);
            }
        }
    }
    Measurement { exec_time, unstable }
}

/// Folds a new time sample into the smoothed execution time of a test case.
pub fn smoothed(previous: u64, sample: u64) -> (time: u64)
    ensures
        time == smoothed_spec(previous, sample),
{
    ((3 * (previous as u128) + (sample as u128)) / 4) as u64
}

} // verus!
