//! The error taxonomy of the driver operations.

use vstd::prelude::*;

use crate::protocol::Response;

verus! {

/// Errors surfaced by the driver operations.
#[derive(Debug, PartialEq, Eq)]
pub enum DriverError {
    /// A transport write failed.
    WriteError,
    /// A transport read failed, the parse buffer overflowed, or the
    /// response queue was full.
    ReadError,
    /// The post-reset announcement never arrived or was malformed.
    NotInitialized,
    /// The blocking receive exhausted its termination budget: the
    /// transport yielded neither bytes nor a decodable reply for close to
    /// 2^64 consecutive wait cycles. The budget exists only so that the
    /// wait loop has a termination measure; no feasible execution reaches
    /// it.
    OtherError,
    /// The module replied, but not with the shape the in-flight operation
    /// required; carries the received reply for diagnostics.
    UnexpectedResponse(Response),
}

} // verus!
