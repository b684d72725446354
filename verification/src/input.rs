//! The keyboard collaborator: a sixteen-key pad polled by the processor.

use vstd::prelude::*;

verus! {

/// The host input backend. The processor polls it; it never blocks. Nothing is
/// promised about its answers — every contract of the processor holds whatever
/// the backend reports.
pub trait InputReciever {
    /// Whether key `key` (`0x0..=0xF`) is currently held down.
    fn check_key(&mut self, key: u8) -> bool;

    /// Some currently held key, or `None` when none is down.
    fn check_any_key(&mut self) -> Option<u8>;

    /// Whether the host asks the emulation session to end.
    fn check_should_die(&mut self) -> bool;
}

} // verus!
