//! What can stop a run.
use vstd::prelude::*;

verus! {

/// Every failure is fatal; each names the identifier or the line at fault.
#[derive(Debug)]
pub enum Error {
    /// A lookup of history, message, diff or current revision failed.
    ProviderUnavailable(String),
    /// A marker names a commit that the history does not hold.
    UnresolvedReference(String),
    /// A line starts like a marker but is not one.
    MalformedMarker(String),
}

} // verus!
