//! The library's error type.

use vstd::prelude::*;

verus! {

/// What can go wrong in one action.
#[derive(Debug)]
pub enum CoreError {
    /// The text of an outside tool was not in the expected form.
    Parse,
    /// An outside command ran and reported failure, with its diagnostic text.
    ExternalCommand(String),
    /// Fewer than two output devices exist, so there is nothing to cycle to.
    InsufficientDevices,
    /// The cue-playing process could not be started.
    Spawn(String),
}

} // verus!
