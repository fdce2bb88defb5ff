//! The pseudo-random source that generation threads through its calls.
//!
//! The generator takes an explicit `rand::rngs::StdRng`, so callers can seed
//! it and reproduce a map. Nothing is assumed of the values drawn beyond the
//! range that `rand` documents.

use vstd::prelude::*;

verus! {

/// `rand`'s standard generator, declared so it can appear in signatures.
/// Values of it are opaque here; they are only handed to [`gen_range_i32`].
#[verifier::external_type_specification]
#[verifier::external_body]
pub struct ExStdRng(rand::rngs::StdRng);

/// Relies on `rand::Rng::gen_range(low..high)`: it returns a value of the
/// half-open range `[low, high)` and panics only when the range is empty,
/// which the precondition rules out.
#[verifier::external_body]
pub(crate) fn gen_range_i32(rng: &mut rand::rngs::StdRng, low: i32, high: i32) -> (r: i32)
    requires
        low < high,
    ensures
        low <= r < high,
{
    rand::Rng::gen_range(rng, low..high)
}

} // verus!
