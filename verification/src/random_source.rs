use vstd::prelude::*;

verus! {

/// The concrete random generator the library draws filler bytes from.
/// `rand::rngs::StdRng` is opaque here: nothing is assumed about the
/// values it produces.
#[verifier::external_type_specification]
#[verifier::external_body]
pub struct ExStdRng(rand::rngs::StdRng);

/// Relies on rand's `RngCore::fill_bytes` for `StdRng`: it overwrites the
/// slice in place with generator output. A slice cannot change length, so
/// the buffer's length is unchanged; nothing is promised of its contents.
#[verifier::external_body]
pub(crate) fn fill_random(rng: &mut rand::rngs::StdRng, buf: &mut Vec<u8>)
    ensures
        final(buf)@.len() == old(buf)@.len(),
{
    rand::RngCore::fill_bytes(rng, buf.as_mut_slice())
}

} // verus!
