//! Pushed-down relational query executor: a chain of streaming operators
//! (scan, selection, aggregation, top-N, limit) that decodes raw row
//! encodings into typed values and re-encodes results for a coordinator.

use vstd::prelude::*;

pub mod aggregation;
pub mod codec;
pub mod executor;
pub mod expr;
pub mod limit;
pub mod row;
pub mod scan;
pub mod schema;
pub mod selection;
pub mod topn;

verus! {

/// Errors that halt a query chain.
///
/// `OffsetOutOfRange` and `UnsupportedExpr` are malformed-plan errors;
/// `MissingColumn` reports a NOT-NULL column absent with no default,
/// carrying the column id and row handle for diagnosis; `Corrupted`
/// covers decode failures on stored bytes; `TakeOriginOnAgg` rejects
/// feeding aggregation output where raw column data is required;
/// `Overflow` reports an aggregate accumulator exceeding its range.
#[derive(Clone, Copy, Debug, PartialEq, Eq, Structural)]
pub enum ExecError {
    OffsetOutOfRange { offset: u64, cols_len: usize },
    MissingColumn { column_id: i64, handle: i64 },
    Corrupted,
    TakeOriginOnAgg,
    UnsupportedExpr,
    Overflow,
}

} // verus!
