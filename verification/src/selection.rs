//! The selection operator: evaluates filter expressions against each
//! inflated upstream row and forwards only rows on which every filter
//! is truthy; NULL or non-integer filter results drop the row.

use vstd::prelude::*;

verus! {

use crate::ExecError;
use crate::codec::{DatumVal, datum_truthy, datums_view};
use crate::executor::{ExecuteStats, Executor, IntervalRange};
use crate::expr::{Expr, ExprColumnRefVisitor, eval_expr, exprs_first_err, spec_eval};
use crate::row::{OriginCols, Row, spec_resolve_datum};
use crate::schema::{EvalContext, EvalWarnings};
use crate::topn::check_offsets;

/// The datum an `Ok` resolution carries; NULL under `Err`.
pub open spec fn ok_datum(r: Result<DatumVal, ExecError>) -> DatumVal {
    match r {
        Ok(d) => d,
        Err(_) => DatumVal::Null,
    }
}

/// The dense typed row that inflation by `offsets` produces from a
/// scanned row: requested offsets resolved, all others NULL.
pub open spec fn inflated_vals(o: OriginCols, offsets: Seq<usize>) -> Seq<DatumVal> {
    Seq::new(
        o.col_seq().len(),
        |j: int|
            if offsets.contains(j as usize) {
                ok_datum(spec_resolve_datum(o.col_seq()[j], o.handle, o.data@))
            } else {
                DatumVal::Null
            },
    )
}

/// Whether every filter evaluates to a truthy value on the row.
pub open spec fn row_passes(o: OriginCols, conditions: Seq<Expr>, offsets: Seq<usize>) -> bool {
    forall|k: int|
        0 <= k < conditions.len() ==> (#[trigger] spec_eval(
            conditions[k],
            inflated_vals(o, offsets),
        ) matches Ok(d) && datum_truthy(d))
}

/// Filters upstream rows by the conjunction of `conditions`.
pub struct SelectionExecutor<Src> {
    pub conditions: Vec<Expr>,
    pub related_cols_offset: Vec<usize>,
    pub eval_ctx: EvalContext,
    pub source: Src,
}

impl<Src: Executor> SelectionExecutor<Src> {
    /// Builds the operator, extracting the column offsets the filter
    /// expressions read; fails on a malformed expression tree.
    pub fn new(conditions: Vec<Expr>, cols_len: usize, source: Src) -> (r: Result<
        SelectionExecutor<Src>,
        ExecError,
    >)
        requires
            source.inv(),
        ensures
            match r {
                Ok(s) => {
                    &&& s.source.inv()
                    &&& s.source == source
                    &&& s.conditions@ == conditions@
                    &&& exprs_first_err(conditions@, cols_len) is None
                },
                Err(e) => exprs_first_err(conditions@, cols_len) == Some(e),
            },
    {
        let mut visitor = ExprColumnRefVisitor::new(cols_len);
        match visitor.batch_visit(conditions.as_slice()) {
            Ok(()) => Ok(
                SelectionExecutor {
                    conditions,
                    related_cols_offset: visitor.column_offsets(),
                    eval_ctx: EvalContext::new(),
                    source,
                },
            ),
            Err(e) => Err(e),
        }
    }

    /// Pulls upstream rows until one passes every filter and forwards
    /// it unchanged; reports end-of-stream when upstream is exhausted.
    pub fn next_row(&mut self) -> (r: Result<Option<Row>, ExecError>)
        requires
            old(self).source.inv(),
        ensures
            final(self).source.inv(),
            final(self).conditions@ == old(self).conditions@,
            final(self).related_cols_offset@ == old(self).related_cols_offset@,
            final(self).source.remaining() <= old(self).source.remaining(),
            r matches Ok(Some(rw)) ==> final(self).source.remaining() < old(
                self,
            ).source.remaining() && (rw matches Row::Origin(o) && row_passes(
                o,
                old(self).conditions@,
                old(self).related_cols_offset@,
            )),
    {
        loop
            invariant
                self.source.inv(),
                self.conditions@ == old(self).conditions@,
                self.related_cols_offset@ == old(self).related_cols_offset@,
                self.eval_ctx == old(self).eval_ctx,
                self.source.remaining() <= old(self).source.remaining(),
            decreases self.source.remaining(),
        {
            let ghost rem_before = self.source.remaining();
            match self.source.next() {
                Ok(Some(row)) => {
                    let cols = match row.take_origin() {
                        Ok(c) => c,
                        Err(e) => {
                            return Err(e);
                        },
                    };
                    if let Err(e) = check_offsets(&self.related_cols_offset, cols.cols_len()) {
                        return Err(e);
                    }
                    let datums = match cols.inflate_cols_with_offsets(
                        &self.eval_ctx,
                        self.related_cols_offset.as_slice(),
                    ) {
                        Ok(d) => d,
                        Err(e) => {
                            return Err(e);
                        },
                    };
                    proof {
                        assert(datums_view(datums@).len() == datums@.len());
                        lemma_inflated_matches(
                            cols,
                            self.related_cols_offset@,
                            datums_view(datums@),
                        );
                    }
                    let n = self.conditions.len();
                    let mut k: usize = 0;
                    let mut pass = true;
                    while k < n && pass
                        invariant
                            k <= n,
                            n == self.conditions@.len(),
                            self.source.inv(),
                            self.source.remaining() <= old(self).source.remaining(),
                            self.conditions@ == old(self).conditions@,
                            datums_view(datums@) == inflated_vals(
                                cols,
                                self.related_cols_offset@,
                            ),
                            self.related_cols_offset@ == old(self).related_cols_offset@,
                            pass ==> forall|j: int|
                                0 <= j < k ==> (#[trigger] spec_eval(
                                    self.conditions@[j],
                                    inflated_vals(cols, self.related_cols_offset@),
                                ) matches Ok(d) && datum_truthy(d)),
                        decreases n - k,
                    {
                        match eval_expr(&self.conditions[k], &datums) {
                            Ok(d) => {
                                if !crate::codec::truthy(&d) {
                                    pass = false;
                                }
                            },
                            Err(e) => {
                                return Err(e);
                            },
                        }
                        k = k + 1;
                    }
                    if pass {
                        return Ok(Some(Row::Origin(cols)));
                    }
                },
                Ok(None) => {
                    return Ok(None);
                },
                Err(e) => {
                    return Err(e);
                },
            }
        }
    }
}

/// The inflation a scanned row's offsets produce, stated pointwise,
/// equals the dense `inflated_vals` sequence.
proof fn lemma_inflated_matches(o: OriginCols, offsets: Seq<usize>, v: Seq<DatumVal>)
    requires
        v.len() <= usize::MAX,
        v.len() == o.col_seq().len(),
        forall|j: int| 0 <= j < v.len() && !offsets.contains(j as usize) ==> v[j] == DatumVal::Null,
        forall|k: int|
            0 <= k < offsets.len() ==> #[trigger] spec_resolve_datum(
                o.col_seq()[offsets[k] as int],
                o.handle,
                o.data@,
            ) == Ok::<DatumVal, ExecError>(v[offsets[k] as int]),
    ensures
        v == inflated_vals(o, offsets),
{
    assert forall|j: int| 0 <= j < v.len() implies v[j] == inflated_vals(o, offsets)[j] by {
        if offsets.contains(j as usize) {
            let k = choose|k: int| 0 <= k < offsets.len() && offsets[k] == j as usize;
            assert(spec_resolve_datum(o.col_seq()[offsets[k] as int], o.handle, o.data@)
                == Ok::<DatumVal, ExecError>(v[offsets[k] as int]));
        }
    }
    assert(v =~= inflated_vals(o, offsets));
}

impl<Src: Executor> Executor for SelectionExecutor<Src> {
    type Storage = Src::Storage;

    open spec fn inv(&self) -> bool {
        self.source.inv()
    }

    open spec fn remaining(&self) -> nat {
        self.source.remaining()
    }

    open spec fn len_of_columns(&self) -> usize {
        self.source.len_of_columns()
    }

    open spec fn pending_warnings(&self) -> Option<EvalWarnings> {
        self.source.pending_warnings()
    }

    fn next(&mut self) -> (r: Result<Option<Row>, ExecError>) {
        self.next_row()
    }

    fn collect_exec_stats(&mut self, dest: &mut ExecuteStats) {
        self.source.collect_exec_stats(dest);
    }

    fn collect_storage_stats(&mut self, dest: &mut Src::Storage) {
        self.source.collect_storage_stats(dest);
    }

    fn get_len_of_columns(&self) -> usize {
        self.source.get_len_of_columns()
    }

    fn take_eval_warnings(&mut self) -> Option<EvalWarnings> {
        self.source.take_eval_warnings()
    }

    fn take_scanned_range(&mut self) -> IntervalRange {
        self.source.take_scanned_range()
    }
}

} // verus!
