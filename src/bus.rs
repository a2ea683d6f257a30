//! The serial line that a device owns.
use vstd::prelude::*;

use nb::Error as NbError;

verus! {

/// The error type of `nb`: `WouldBlock` when nothing is ready yet, or
/// `Other` with the device's own error. Only carried through, never read.
#[verifier::external_type_specification]
#[verifier::external_body]
#[verifier::reject_recursive_types(E)]
pub struct ExNbError<E>(NbError<E>);

/// The serial line, as the stack needs it: a burst of words out, one word in.
pub trait Bus {
    type Error;

    /// Transmits the words in order.
    fn send(&mut self, data: &[u16]);

    /// The next received word, or `WouldBlock` when none is waiting.
    fn read(&mut self) -> nb::Result<u16, Self::Error>;
}

} // verus!
