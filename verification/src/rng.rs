//! Random draws for the mutation engine, through the rand crate.

use vstd::prelude::*;

verus! {

/// The thread-local random number generator of the rand crate; opaque to
/// the verifier, which sees every draw through `rng_between` alone.
#[verifier::external_type_specification]
#[verifier::external_body]
pub struct ExThreadRng(rand::rngs::ThreadRng);

/// Relies on rand::thread_rng: a handle to the thread-local generator.
#[verifier::external_body]
pub(crate) fn fresh_rng() -> rand::rngs::ThreadRng {
    rand::thread_rng()
}

/// Relies on rand's Rng::gen_range over an inclusive range: a draw that is
/// uniform in `[lo, hi]`. The call panics on an empty range, which the
/// precondition rules out; nothing beyond the bounds can be promised of a
/// random result.
#[verifier::external_body]
pub(crate) fn rng_between(rng: &mut rand::rngs::ThreadRng, lo: u64, hi: u64) -> (r: u64)
    requires
        lo <= hi,
    ensures
        lo <= r <= hi,
{
    rand::Rng::gen_range(rng, lo..=hi)
}

} // verus!
