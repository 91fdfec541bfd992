//! Random bytes from the system, for session tokens.
use vstd::prelude::*;

verus! {

/// The error `getrandom` reports when the system gives no randomness.
#[verifier::external_type_specification]
#[verifier::external_body]
pub struct ExRandomError(getrandom::Error);

/// `getrandom::fill`: fills the buffer with random bytes from the system's
/// source, or reports that it could not.  Only the buffer's length is
/// stated: its contents are chance.
#[verifier::external_body]
pub(crate) fn fill_random(buf: &mut Vec<u8>) -> (r: Result<(), getrandom::Error>)
    ensures
        final(buf)@.len() == old(buf)@.len(),
{
    getrandom::fill(buf.as_mut_slice())
}

} // verus!
