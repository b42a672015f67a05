//! The random source behind `CXNN`: the `rand` crate's thread-local
//! generator. Everything in this file is trusted rather than proved.

use rand::rngs::ThreadRng;
use rand::Rng;
use vstd::prelude::*;

verus! {

/// `rand::rngs::ThreadRng`, a handle to the calling thread's generator.
/// Nothing inside it is visible to the verifier; the machine only carries it
/// from one draw to the next.
#[verifier::external_type_specification]
#[verifier::external_body]
pub struct ExThreadRng(ThreadRng);

/// Calls `rand::thread_rng`, which hands out the calling thread's generator,
/// seeded by the operating system. Nothing is claimed of the handle returned.
///
/// The call takes no argument, so nothing a caller does can make it fail; it
/// panics only if the operating system's entropy source cannot be read when
/// the thread's generator is first set up.
#[verifier::external_body]
pub(crate) fn thread_rng() -> ThreadRng {
    rand::thread_rng()
}

/// Calls `rand::Rng::gen_range` on `rng` with the inclusive range from 0 to
/// 255. Nothing is claimed of the byte returned: it may be any value, and two
/// calls may return different ones.
///
/// `gen_range` panics on an empty range, which this range is not. Beyond
/// that the call panics only if the operating system's entropy source fails
/// when the generator reseeds itself.
#[verifier::external_body]
pub(crate) fn random_byte(rng: &mut ThreadRng) -> u8 {
    rng.gen_range(0..=255)
}

} // verus!
