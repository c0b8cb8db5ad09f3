//! Why the synchronisation of a thread fails.

use vstd::prelude::*;

verus! {

/// The failures that end the synchronisation of one thread. An attachment
/// that cannot be fetched is none of them: the post is archived without it.
#[derive(Clone, Copy, Debug, PartialEq, Eq, Structural)]
pub enum SyncError {
    /// The remote service did not hand out the thread.
    FetchError,
    /// The local store could not be written.
    StoreWriteError,
    /// The remote service sent a post whose opening mark is neither 0 nor 1.
    ProtocolInvariantViolation,
}

} // verus!
