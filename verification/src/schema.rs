//! Declared-column descriptions and the evaluation context.

use std::sync::Arc;
use vstd::prelude::*;

verus! {

/// Relies on `std::sync::Arc::clone`: the clone shares the same
/// underlying column list, so both handles view the same columns.
/// This is how every row of one scan shares a single schema instance.
#[verifier::external_body]
pub fn clone_col_schema(cols: &Arc<Vec<ColumnInfo>>) -> (r: Arc<Vec<ColumnInfo>>)
    ensures
        r@ == cols@,
{
    Arc::clone(cols)
}

/// Description of one declared column of a scanned table.
///
/// `column_id` keys the stored (sparse) row data; `pk_handle` marks the
/// synthetic primary-key column whose value is the row handle;
/// `not_null` and `default_val` drive the missing-column policy:
/// an absent column falls back to its default, and an absent NOT-NULL
/// column with no default is an error. A default value is stored as one
/// encoded datum.
#[derive(Clone, Debug)]
pub struct ColumnInfo {
    pub column_id: i64,
    pub pk_handle: bool,
    pub not_null: bool,
    pub default_val: Option<Vec<u8>>,
}

/// Non-fatal warnings accumulated while evaluating expressions; drained
/// by `take_eval_warnings`, never aborting a query.
#[derive(Clone, Copy, Debug, PartialEq, Eq, Structural)]
pub struct EvalWarnings {
    pub warning_cnt: usize,
}

impl EvalWarnings {
    pub fn new() -> (r: EvalWarnings)
        ensures
            r.warning_cnt == 0,
    {
        EvalWarnings { warning_cnt: 0 }
    }
}

/// Evaluation context threaded through typed decoding and expression
/// evaluation (locale- and mode-sensitive behaviour would live here).
#[derive(Clone, Copy, Debug)]
pub struct EvalContext {
    pub warnings: EvalWarnings,
}

impl EvalContext {
    pub fn new() -> (r: EvalContext)
        ensures
            r.warnings.warning_cnt == 0,
    {
        EvalContext { warnings: EvalWarnings::new() }
    }
}

} // verus!
