//! Error taxonomy of the document core.

use vstd::prelude::*;

verus! {

/// Error returned by the document core's operations.
#[derive(Clone, Copy, Debug, PartialEq, Eq, Structural)]
pub enum AppError {
    /// The backing store rejected or failed a query.
    Storage,
    /// The referenced ref (or its head snapshot) does not resolve.
    NotFound,
    /// The collaboration-service round trip failed or returned an error.
    HandleService,
}

} // verus!
