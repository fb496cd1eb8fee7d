//! The platform's secure random source, reached through `getrandom`.
use vstd::prelude::*;

use getrandom::Error as OsError;

verus! {

#[verifier::external_type_specification]
#[verifier::external_body]
pub struct ExOsError(OsError);

/// Fills `buf` from the operating system's random number generator through
/// `getrandom::getrandom`. Nothing is claimed of the bytes, on success or on
/// failure, nor of which of the two comes back: that is up to the machine.
#[verifier::external_body]
pub(crate) fn os_fill(buf: &mut [u8; 2]) -> (r: Result<(), OsError>) {
    getrandom::getrandom(buf)
}

} // verus!
