//! Error taxonomy shared by the fetch path and the response parser.

use vstd::prelude::*;

verus! {

/// Failure categories surfaced to the caller of the fetch and parse paths.
///
/// `Network` covers resolution, connection, I/O and encoding failures while
/// fetching; `UnexpectedResponse` a malformed HTTP status line;
/// `InvalidUI` a user-interface fault; `Other` everything else.
#[derive(Debug, Clone, PartialEq, Eq)]
pub enum Error {
    Network(String),
    UnexpectedResponse(String),
    InvalidUI(String),
    Other(String),
}

} // verus!
