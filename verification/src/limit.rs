//! The limit operator: passes through up to a fixed number of rows,
//! then reports end-of-stream without ever pulling upstream again.

use vstd::prelude::*;

verus! {

use crate::ExecError;
use crate::executor::{ExecuteStats, Executor, IntervalRange};
use crate::row::Row;
use crate::schema::EvalWarnings;

/// Caps the number of rows emitted at `limit`; `cursor` counts the
/// rows already passed through.
#[derive(Clone, Debug)]
pub struct LimitExecutor<Src> {
    pub limit: u64,
    pub cursor: u64,
    pub source: Src,
}

impl<Src: Executor> LimitExecutor<Src> {
    pub fn new(limit: u64, source: Src) -> (r: LimitExecutor<Src>)
        ensures
            r.limit == limit,
            r.cursor == 0,
            r.source == source,
    {
        LimitExecutor { limit, cursor: 0, source }
    }

    /// Emits the upstream row while under the cap, counting it. Once
    /// the cap is reached it reports end-of-stream and leaves the whole
    /// operator — upstream included — untouched: no overscanning.
    pub fn next_row(&mut self) -> (r: Result<Option<Row>, ExecError>)
        requires
            old(self).source.inv(),
        ensures
            final(self).source.inv(),
            final(self).limit == old(self).limit,
            final(self).source.remaining() <= old(self).source.remaining(),
            old(self).cursor >= old(self).limit ==> r == Ok::<Option<Row>, ExecError>(None)
                && *final(self) == *old(self),
            old(self).cursor < old(self).limit ==> match r {
                Ok(Some(_)) => final(self).cursor == old(self).cursor + 1
                    && final(self).source.remaining() < old(self).source.remaining(),
                Ok(None) => final(self).cursor == old(self).cursor,
                Err(_) => final(self).cursor == old(self).cursor,
            },
    {
        if self.cursor >= self.limit {
            return Ok(None);
        }
        match self.source.next() {
            Ok(Some(row)) => {
                self.cursor = self.cursor + 1;
                Ok(Some(row))
            },
            Ok(None) => Ok(None),
            Err(e) => Err(e),
        }
    }
}

impl<Src: Executor> Executor for LimitExecutor<Src> {
    type Storage = Src::Storage;

    open spec fn inv(&self) -> bool {
        self.source.inv()
    }

    open spec fn remaining(&self) -> nat {
        if self.cursor >= self.limit {
            0
        } else {
            (self.limit - self.cursor) as nat
        }
    }

    open spec fn len_of_columns(&self) -> usize {
        self.source.len_of_columns()
    }

    open spec fn pending_warnings(&self) -> Option<EvalWarnings> {
        self.source.pending_warnings()
    }

    fn next(&mut self) -> (r: Result<Option<Row>, ExecError>) {
        self.next_row()
    }

    fn collect_exec_stats(&mut self, dest: &mut ExecuteStats) {
        self.source.collect_exec_stats(dest);
    }

    fn collect_storage_stats(&mut self, dest: &mut Src::Storage) {
        self.source.collect_storage_stats(dest);
    }

    fn get_len_of_columns(&self) -> usize {
        self.source.get_len_of_columns()
    }

    fn take_eval_warnings(&mut self) -> Option<EvalWarnings> {
        self.source.take_eval_warnings()
    }

    fn take_scanned_range(&mut self) -> IntervalRange {
        self.source.take_scanned_range()
    }
}

} // verus!
