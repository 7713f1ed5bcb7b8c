//! Replies of a remote runtime.

use vstd::prelude::*;

verus! {

/// Responses from a remote runtime.
#[derive(Clone, Copy, Debug, PartialEq, Eq, Structural)]
pub enum Resp {
    /// No return value.
    Empty,
    /// A u64 return value.
    U64(u64),
    /// Batch operation completed with count.
    NoneBatch(u32),
}

/// The kinds of operation a client queues for a remote runtime.
#[derive(Clone, Copy, Debug, PartialEq, Eq, Structural)]
pub enum OpKind {
    /// A mutation with no result.
    Apply,
    /// A call that returns a `u64`.
    MapU64,
    /// A mutation repeated a number of times.
    ApplyBatch,
    /// The request to stop the worker.
    Terminate,
}

/// How the worker answers an operation once it has run: a mutation with
/// `Empty`, a call with the `value` it returned, a batch with its `repeats`
/// count; a termination gets no answer, the worker stops instead.
pub fn reply_for(kind: OpKind, value: u64, repeats: u32) -> (r: Option<Resp>)
    ensures
        r == (match kind {
            OpKind::Apply => Some(Resp::Empty),
            OpKind::MapU64 => Some(Resp::U64(value)),
            OpKind::ApplyBatch => Some(Resp::NoneBatch(repeats)),
            OpKind::Terminate => None::<Resp>,
        }),
{
    match kind {
        OpKind::Apply => Some(Resp::Empty),
        OpKind::MapU64 => Some(Resp::U64(value)),
        OpKind::ApplyBatch => Some(Resp::NoneBatch(repeats)),
        OpKind::Terminate => None,
    }
}

} // verus!
