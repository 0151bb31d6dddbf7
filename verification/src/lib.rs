//! A rollback-safe chain-indexing core for a UTXO ledger.
//!
//! The library follows a node's chain as an ordered stream of roll-forward
//! and roll-back events, keeps an index of unspent outputs together with the
//! undo data needed to invert any single block, and drives a set of pure
//! block-to-command projections ("reducers") whose output is destined for a
//! key-value sink.

use vstd::prelude::*;

pub mod address;
pub mod buffer;
pub mod codec;
pub mod crosscut;
pub mod digest;
pub mod enrich;
pub mod model;
pub mod reducers;
pub mod source;
pub mod store;
pub mod text;

verus! {

/// How a decode failure is handled at the point of decode.
#[derive(Clone, Copy, PartialEq, Eq, Structural, Debug)]
pub enum ErrorAction {
    /// Abort the pipeline.
    Fail,
    /// Drop the offending block and continue.
    Skip,
    /// Log and proceed best-effort.
    Warn,
}

/// Runtime policy governing recoverable failures.
#[derive(Clone, Copy, PartialEq, Eq, Structural, Debug)]
pub struct RuntimePolicy {
    pub decode_action: ErrorAction,
}

impl RuntimePolicy {
    pub fn new(decode_action: ErrorAction) -> (r: RuntimePolicy)
        ensures
            r.decode_action == decode_action,
    {
        RuntimePolicy { decode_action }
    }
}

/// What a stage does with a block whose decode failed, under a policy:
/// abort, or drop the block and carry on.
#[derive(Clone, Copy, PartialEq, Eq, Structural, Debug)]
pub enum DecodeOutcome {
    Abort,
    DropBlock,
}

/// Gate a failed decode through the runtime policy: `Fail` aborts, `Skip`
/// and `Warn` drop the block and proceed.
pub fn apply_decode_policy(policy: &RuntimePolicy) -> (r: DecodeOutcome)
    ensures
        policy.decode_action == ErrorAction::Fail <==> r == DecodeOutcome::Abort,
{
    match policy.decode_action {
        ErrorAction::Fail => DecodeOutcome::Abort,
        ErrorAction::Skip => DecodeOutcome::DropBlock,
        ErrorAction::Warn => DecodeOutcome::DropBlock,
    }
}

/// The error kinds the pipeline distinguishes.
pub enum Error {
    /// A block, header or output could not be decoded.
    Decode(String),
    /// The backing store failed; retried with backoff, fatal past the
    /// budget.
    Storage(String),
    /// The chain client lost its connection or broke the protocol.
    ChainClient(String),
    /// The node could not find a common point at bootstrap.
    IntersectNotFound,
    /// A rollback reached below the buffer's oldest retained slot.
    IntersectLost,
    /// Clean shutdown.
    Cancelled,
}

impl Error {
    /// A short name for the error's kind.
    pub fn kind_name(&self) -> (r: &'static str)
        ensures
            self is Decode ==> r@ == "decode"@,
            self is Storage ==> r@ == "storage"@,
            self is ChainClient ==> r@ == "chain client"@,
            self is IntersectNotFound ==> r@ == "intersect not found"@,
            self is IntersectLost ==> r@ == "intersect lost"@,
            self is Cancelled ==> r@ == "cancelled"@,
    {
        match self {
            Error::Decode(_) => "decode",
            Error::Storage(_) => "storage",
            Error::ChainClient(_) => "chain client",
            Error::IntersectNotFound => "intersect not found",
            Error::IntersectLost => "intersect lost",
            Error::Cancelled => "cancelled",
        }
    }
}

} // verus!
