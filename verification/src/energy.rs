//! The power schedule: how many trials a test case is worth.

use vstd::prelude::*;

verus! {

/// What the power schedule reads of a test case and of the corpus around it.
#[derive(Clone, Copy, Debug, PartialEq, Eq, Structural)]
pub struct Calibration {
    /// Measured execution time of the test case.
    pub exec_time: u64,
    /// Average execution time over the corpus.
    pub avg_exec_time: u64,
    /// Edges that the test case was first to cover.
    pub new_edges: u64,
    /// Average of that number over the corpus.
    pub avg_new_edges: u64,
    /// Generation depth of the test case.
    pub depth: u64,
    /// The deepest generation in the corpus.
    pub max_depth: u64,
}

/// Percent of the base energy by speed: faster than average earns more
/// trials, slower earns fewer.
pub open spec fn time_factor(exec_time: nat, avg: nat) -> nat {
    if exec_time > 10 * avg {
        10
    } else if exec_time > 4 * avg {
        25
    } else if exec_time > 2 * avg {
        50
    } else if 3 * exec_time > 4 * avg {
        75
    } else if 4 * exec_time < avg {
        300
    } else if 3 * exec_time < avg {
        200
    } else if 2 * exec_time < avg {
        150
    } else {
        100
    }
}

/// Percent of the base energy by the edges contributed, against the corpus
/// average: a bonus only, in steps.
pub open spec fn edge_factor(new_edges: nat, avg: nat) -> nat {
    if new_edges >= 3 * avg && new_edges > 0 {
        300
    } else if new_edges >= 2 * avg && new_edges > 0 {
        200
    } else if 2 * new_edges >= 3 * avg && new_edges > 0 {
        150
    } else {
        100
    }
}

/// Percent of the base energy by age: a test case found generations before
/// the frontier is handicapped, the more the further back.
pub open spec fn depth_factor(depth: nat, max_depth: nat) -> nat {
    if depth >= max_depth {
        100
    } else if max_depth - depth <= 3 {
        75
    } else if max_depth - depth <= 7 {
        50
    } else {
        25
    }
}

/// The energy of a test case: the three factors multiplied and scaled down,
/// so that an average test case on the frontier gets 100.
pub open spec fn energy_of(c: Calibration) -> nat {
    time_factor(c.exec_time as nat, c.avg_exec_time as nat) * edge_factor(
        c.new_edges as nat,
        c.avg_new_edges as nat,
    ) * depth_factor(c.depth as nat, c.max_depth as nat) / 10000
}

fn time_percent(exec_time: u64, avg: u64) -> (f: u64)
    ensures
        f == time_factor(exec_time as nat, avg as nat),
        10 <= f <= 300,
{
    let t: u128 = exec_time as u128;
    let a: u128 = avg as u128;
    if t > 10 * a {
        10
    } else if t > 4 * a {
        25
    } else if t > 2 * a {
        50
    } else if 3 * t > 4 * a {
        75
    } else if 4 * t < a {
        300
    } else if 3 * t < a {
        200
    } else if 2 * t < a {
        150
    } else {
        100
    }
}

fn edge_percent(new_edges: u64, avg: u64) -> (f: u64)
    ensures
        f == edge_factor(new_edges as nat, avg as nat),
        100 <= f <= 300,
{
    let n: u128 = new_edges as u128;
    let a: u128 = avg as u128;
    if n >= 3 * a && n > 0 {
        300
    } else if n >= 2 * a && n > 0 {
        200
    } else if 2 * n >= 3 * a && n > 0 {
        150
    } else {
        100
    }
}

fn depth_percent(depth: u64, max_depth: u64) -> (f: u64)
    ensures
        f == depth_factor(depth as nat, max_depth as nat),
        25 <= f <= 100,
{
    if depth >= max_depth {
        100
    } else if max_depth - depth <= 3 {
        75
    } else if max_depth - depth <= 7 {
        50
    } else {
        25
    }
}

/// The power schedule: the energy of a test case from its calibration. It is
/// at least 2 and at most 900.
pub fn energy_for(c: Calibration) -> (energy: u64)
    ensures
        energy == energy_of(c),
        2 <= energy <= 900,
{
    let t: u64 = time_percent(c.exec_time, c.avg_exec_time);
    let e: u64 = edge_percent(c.new_edges, c.avg_new_edges);
    let d: u64 = depth_percent(c.depth, c.max_depth);
    assert(25000 <= t * e * d <= 9000000) by (nonlinear_arith)
        requires
            10 <= t <= 300,
            100 <= e <= 300,
            25 <= d <= 100,
    ;
    assert(t * e <= 90000) by (nonlinear_arith)
        requires
            10 <= t <= 300,
            100 <= e <= 300,
    ;
    t * e * d / 10000
}

/// Energy is positive for every calibration.
pub proof fn lemma_energy_positive(c: Calibration)
    ensures
        energy_of(c) >= 2,
{
    let t = time_factor(c.exec_time as nat, c.avg_exec_time as nat);
    let e = edge_factor(c.new_edges as nat, c.avg_new_edges as nat);
    let d = depth_factor(c.depth as nat, c.max_depth as nat);
    assert(t * e * d >= 25000) by (nonlinear_arith)
        requires
            t >= 10,
            e >= 100,
            d >= 25,
    ;
}

/// With everything else equal, a test case that contributed more new edges
/// gets no less energy.
pub proof fn lemma_energy_monotone_in_edges(c: Calibration, more: Calibration)
    requires
        more == (Calibration { new_edges: more.new_edges, ..c }),
        c.new_edges <= more.new_edges,
    ensures
        energy_of(c) <= energy_of(more),
{
    let t = time_factor(c.exec_time as nat, c.avg_exec_time as nat);
    let d = depth_factor(c.depth as nat, c.max_depth as nat);
    let e1 = edge_factor(c.new_edges as nat, c.avg_new_edges as nat);
    let e2 = edge_factor(more.new_edges as nat, c.avg_new_edges as nat);
    assert(e1 <= e2);
    assert(t * e1 * d <= t * e2 * d) by (nonlinear_arith)
        requires
            e1 <= e2,
    ;
    lemma_scaled_ordered(t * e1 * d, t * e2 * d);
}

/// With everything else equal, a test case that takes longer to run gets no
/// more energy.
pub proof fn lemma_energy_antitone_in_time(c: Calibration, slower: Calibration)
    requires
        slower == (Calibration { exec_time: slower.exec_time, ..c }),
        c.exec_time <= slower.exec_time,
    ensures
        energy_of(slower) <= energy_of(c),
{
    let e = edge_factor(c.new_edges as nat, c.avg_new_edges as nat);
    let d = depth_factor(c.depth as nat, c.max_depth as nat);
    let t1 = time_factor(c.exec_time as nat, c.avg_exec_time as nat);
    let t2 = time_factor(slower.exec_time as nat, c.avg_exec_time as nat);
    assert(t2 <= t1);
    assert(t2 * e * d <= t1 * e * d) by (nonlinear_arith)
        requires
            t2 <= t1,
    ;
    lemma_scaled_ordered(t2 * e * d, t1 * e * d);
}

proof fn lemma_scaled_ordered(a: nat, b: nat)
    requires
        a <= b,
    ensures
        a / 10000 <= b / 10000,
{
    vstd::arithmetic::div_mod::lemma_div_is_ordered(a as int, b as int, 10000);
}

} // verus!
