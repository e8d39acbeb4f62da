//! The rolling condition that an appender consults before every write.

use vstd::prelude::*;
use crate::frequency::LocalDateTime;

verus! {

/// Determines when a file should be "rolled over".
pub trait RollingCondition: Sized {
    /// Whether a write at `now`, with the current file holding
    /// `current_filesize` bytes, must go to a fresh file.
    spec fn rolls(&self, now: LocalDateTime, current_filesize: u64) -> bool;

    /// The condition after it has been asked about a write at `now`.
    spec fn after_write(&self, now: LocalDateTime) -> Self;

    /// Determine and return whether or not the file should be rolled over.
    fn should_rollover(&mut self, now: &LocalDateTime, current_filesize: u64) -> (rollover: bool)
        ensures
            rollover == old(self).rolls(*now, current_filesize),
            *final(self) == old(self).after_write(*now),
    ;
}

} // verus!
