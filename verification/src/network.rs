//! The error the local front-door server reports when a connection's
//! handler cannot produce the value it was serving for. The server itself
//! is transport plumbing and lives outside the library.

use vstd::prelude::*;

verus! {

/// A served connection ended without yielding the expected value.
#[derive(Debug)]
pub struct ExpectError;

} // verus!
