//! The source of chance: the thread-local generator of the `rand` crate.
//! Nothing in this file is proved; what is said of each call holds of
//! whatever number comes.
//!
//! The generator takes fresh entropy from the system from time to time, and
//! a draw panics where the system refuses it. That depends on the machine
//! and on nothing that is handed to the call, as running out of memory
//! does, so no contract here can leave it out.

use vstd::prelude::*;
use rand::rngs::ThreadRng;
use rand::seq::SliceRandom;
use rand::Rng;

verus! {

/// `rand::rngs::ThreadRng`, a handle to the generator of the running thread.
#[verifier::external_type_specification]
#[verifier::external_body]
pub struct ExThreadRng(ThreadRng);

/// `Rng::gen_range` on the range from zero up to, not including, `bound`:
/// the number drawn lies in that range. Which number it is depends on
/// chance. An empty range makes the call panic and is left out; a failure
/// of the system to reseed the generator makes it panic too and cannot be.
#[verifier::external_body]
pub(crate) fn draw_below(rng: &mut ThreadRng, bound: usize) -> (k: usize)
    requires
        bound > 0,
    ensures
        k < bound,
{
    rng.gen_range(0..bound)
}

/// `SliceRandom::choose` on the cells listed: nothing when the list is
/// empty, else one of its entries. Which entry depends on chance. A failure
/// of the system to reseed the generator makes the call panic.
#[verifier::external_body]
pub(crate) fn pick(cells: &Vec<(usize, usize)>, rng: &mut ThreadRng) -> (choice: Option<
    (usize, usize),
>)
    ensures
        choice is None <==> cells@.len() == 0,
        choice matches Some(p) ==> cells@.contains(p),
{
    cells.choose(rng).copied()
}

} // verus!
