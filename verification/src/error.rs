//! Why a synchronisation stops.

use vstd::prelude::*;

verus! {

/// The ways in which the server gives up on a synchronisation.
#[derive(Debug, Clone, Copy, PartialEq, Eq, Structural)]
pub enum SyncError {
    /// A message of the client's stream carried no known payload.
    UnexpectedMessage,
    /// The client's stream ended before its `Done` message.
    Dropped,
    /// A file arrived without the chunk size bounds it was split with.
    MissingParams,
    /// The server could not tell whether it holds a file.
    Unreadable,
    /// The chunker would not run to its end with these chunk size bounds:
    /// one lies outside its floor and ceiling, or the average exceeds the
    /// maximum on data longer than the maximum.
    ParamsOutOfRange,
}

} // verus!
