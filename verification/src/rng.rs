//! Random draws from libafl's standard generator.

use libafl_bolts::rands::{Rand, RomuDuoJrRand};
use vstd::prelude::*;

verus! {

/// `RomuDuoJrRand` of libafl, its standard random generator. Nothing of its
/// state is known here.
#[verifier::external_type_specification]
#[verifier::external_body]
pub struct ExRomuDuoJrRand(RomuDuoJrRand);

/// `Rand::next` of libafl, on its standard generator: the next 64 random
/// bits. Nothing is claimed of their value.
#[verifier::external_body]
fn next_draw(rng: &mut RomuDuoJrRand) -> (draw: u64) {
    rng.next()
}

/// Takes `n` draws from the generator, in order.
pub fn draws(rng: &mut RomuDuoJrRand, n: usize) -> (out: Vec<u64>)
    ensures
        out@.len() == n,
{
    let mut out: Vec<u64> = Vec::new();
    let mut i: usize = 0;
    while i < n
        invariant
            i <= n,
            out@.len() == i,
        decreases n - i,
    {
        let d: u64 = next_draw(rng);
        out.push(d);
        i = i + 1;
    }
    out
}

/// Takes one draw from the generator.
pub fn draw(rng: &mut RomuDuoJrRand) -> (d: u64) {
    next_draw(rng)
}

} // verus!
