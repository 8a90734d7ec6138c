use vstd::prelude::*;

verus! {

/// Failure kinds of store operations.
///
/// `NotFound` is returned when a referenced entity is absent,
/// `AlreadyExists` on a duplicate membership or unique-constraint hit,
/// `Forbidden` when the caller is not allowed to perform the operation
/// (for example a non-participant sending into a chat, or a backward
/// receipt-status transition), and `DatabaseError` for underlying store
/// failures, which cover constraint violations and injected faults.
#[derive(Debug, Clone, Copy, PartialEq, Eq, Structural)]
pub enum StoreError {
    NotFound,
    AlreadyExists,
    Forbidden,
    DatabaseError,
}

} // verus!
