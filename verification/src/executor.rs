//! The pull-based operator contract every executor implements, the
//! statistics containers it fills, and the summary decorator that
//! counts an operator's iterations and produced rows without altering
//! its output.

use vstd::prelude::*;

verus! {

use crate::ExecError;
use crate::row::Row;
use crate::schema::EvalWarnings;

/// Per-operator execution summary: completed `next` calls and rows
/// produced by them.
#[derive(Clone, Copy, Debug, PartialEq, Eq, Structural)]
pub struct ExecSummary {
    pub num_iterations: u64,
    pub num_produced_rows: u64,
}

/// Chain-wide execution statistics, accumulated by one recursive
/// `collect_exec_stats` call on the topmost operator.
#[derive(Clone, Debug)]
pub struct ExecuteStats {
    pub summary_per_executor: Vec<ExecSummary>,
    pub scanned_rows_per_range: Vec<u64>,
}

impl ExecuteStats {
    pub fn new() -> (r: ExecuteStats)
        ensures
            r.summary_per_executor@.len() == 0,
            r.scanned_rows_per_range@.len() == 0,
    {
        ExecuteStats { summary_per_executor: Vec::new(), scanned_rows_per_range: Vec::new() }
    }
}

/// Storage-level read statistics of the scan leaves.
#[derive(Clone, Copy, Debug, PartialEq, Eq, Structural)]
pub struct StorageStats {
    pub scanned_keys: u64,
}

impl StorageStats {
    pub fn new() -> (r: StorageStats)
        ensures
            r.scanned_keys == 0,
    {
        StorageStats { scanned_keys: 0 }
    }
}

/// The key range a scan has consumed so far, for resumable scans.
#[derive(Clone, Debug)]
pub struct IntervalRange {
    pub lower_inclusive: Vec<u8>,
    pub upper_exclusive: Vec<u8>,
}

impl IntervalRange {
    pub fn new() -> (r: IntervalRange)
        ensures
            r.lower_inclusive@.len() == 0,
            r.upper_exclusive@.len() == 0,
    {
        IntervalRange { lower_inclusive: Vec::new(), upper_exclusive: Vec::new() }
    }
}

/// `a + b`, capped at the largest counter value.
pub open spec fn sat_add(a: u64, b: u64) -> u64 {
    if a + b > u64::MAX {
        u64::MAX
    } else {
        (a + b) as u64
    }
}

/// Capability that records one operator's per-iteration summary.
/// A counting collector observes completed `next` calls and their
/// produced-row count; a disabled collector observes nothing.
pub trait ExecSummaryCollector {
    /// Whether this collector records anything.
    spec fn counting() -> bool;

    /// Completed iterations observed so far.
    spec fn iterations(&self) -> u64;

    /// Rows observed so far.
    spec fn produced(&self) -> u64;

    /// Records one completed upstream `next` call that yielded `rows`
    /// rows (one, or zero at end-of-stream).
    fn on_finish_iterate(&mut self, rows: u64)
        ensures
            Self::counting() ==> final(self).iterations() == sat_add(old(self).iterations(), 1)
                && final(self).produced() == sat_add(old(self).produced(), rows),
            !Self::counting() ==> final(self).iterations() == old(self).iterations()
                && final(self).produced() == old(self).produced(),
    ;

    /// Flushes the accumulated summary into the per-executor list.
    fn collect(&self, dest: &mut Vec<ExecSummary>)
        ensures
            Self::counting() ==> final(dest)@ == old(dest)@.push(
                ExecSummary {
                    num_iterations: self.iterations(),
                    num_produced_rows: self.produced(),
                },
            ),
            !Self::counting() ==> final(dest)@ == old(dest)@,
    ;
}

/// A collector that counts iterations and produced rows.
#[derive(Clone, Copy, Debug, PartialEq, Eq, Structural)]
pub struct ExecSummaryCollectorEnabled {
    pub summary: ExecSummary,
}

impl ExecSummaryCollectorEnabled {
    pub fn new() -> (r: ExecSummaryCollectorEnabled)
        ensures
            r.iterations() == 0,
            r.produced() == 0,
    {
        ExecSummaryCollectorEnabled {
            summary: ExecSummary { num_iterations: 0, num_produced_rows: 0 },
        }
    }
}

impl ExecSummaryCollector for ExecSummaryCollectorEnabled {
    open spec fn counting() -> bool {
        true
    }

    open spec fn iterations(&self) -> u64 {
        self.summary.num_iterations
    }

    open spec fn produced(&self) -> u64 {
        self.summary.num_produced_rows
    }

    fn on_finish_iterate(&mut self, rows: u64) {
        if self.summary.num_iterations < u64::MAX {
            self.summary.num_iterations = self.summary.num_iterations + 1;
        }
        if self.summary.num_produced_rows <= u64::MAX - rows {
            self.summary.num_produced_rows = self.summary.num_produced_rows + rows;
        } else {
            self.summary.num_produced_rows = u64::MAX;
        }
    }

    fn collect(&self, dest: &mut Vec<ExecSummary>) {
        dest.push(self.summary);
    }
}

/// A collector that records nothing, for operators left unobserved.
#[derive(Clone, Copy, Debug, PartialEq, Eq, Structural)]
pub struct ExecSummaryCollectorDisabled;

impl ExecSummaryCollector for ExecSummaryCollectorDisabled {
    open spec fn counting() -> bool {
        false
    }

    open spec fn iterations(&self) -> u64 {
        0
    }

    open spec fn produced(&self) -> u64 {
        0
    }

    fn on_finish_iterate(&mut self, rows: u64) {
    }

    fn collect(&self, dest: &mut Vec<ExecSummary>) {
    }
}

/// The iteration contract every operator in a chain implements.
///
/// `next` pulls one output row or signals end-of-stream with `None`;
/// the collect methods recurse into the upstream operator so one call
/// on the topmost operator gathers the whole chain; the take methods
/// drain accumulated warnings and the consumed key range.
pub trait Executor {
    type Storage;

    /// The operator's internal well-formedness, maintained across the
    /// contract's methods; constructors establish it.
    spec fn inv(&self) -> bool;

    /// An upper bound on the rows this operator can still produce;
    /// every produced row strictly lowers it, which makes draining a
    /// chain provably terminating.
    spec fn remaining(&self) -> nat;

    /// The column count of this operator's output rows, forwarded
    /// from the declared schema; what `get_len_of_columns` returns.
    spec fn len_of_columns(&self) -> usize;

    /// The non-fatal warnings accumulated and not yet drained; what
    /// `take_eval_warnings` returns and clears.
    spec fn pending_warnings(&self) -> Option<EvalWarnings>;

    fn next(&mut self) -> (r: Result<Option<Row>, ExecError>)
        requires
            old(self).inv(),
        ensures
            final(self).inv(),
            final(self).remaining() <= old(self).remaining(),
            r matches Ok(Some(_)) ==> final(self).remaining() < old(self).remaining(),
    ;

    fn collect_exec_stats(&mut self, dest: &mut ExecuteStats)
        requires
            old(self).inv(),
        ensures
            final(self).inv(),
            old(dest).summary_per_executor@.is_prefix_of(final(dest).summary_per_executor@),
            old(dest).scanned_rows_per_range@.is_prefix_of(final(dest).scanned_rows_per_range@),
    ;

    fn collect_storage_stats(&mut self, dest: &mut Self::Storage)
        requires
            old(self).inv(),
        ensures
            final(self).inv(),
    ;

    fn get_len_of_columns(&self) -> (r: usize)
        ensures
            r == self.len_of_columns(),
    ;

    fn take_eval_warnings(&mut self) -> (r: Option<EvalWarnings>)
        requires
            old(self).inv(),
        ensures
            final(self).inv(),
            r == old(self).pending_warnings(),
            final(self).pending_warnings() is None,
    ;

    fn take_scanned_range(&mut self) -> (r: IntervalRange)
        requires
            old(self).inv(),
        ensures
            final(self).inv(),
    ;

    /// Wraps this operator with a summary collector; the decorated
    /// operator produces the same rows and adds only counting.
    fn with_summary_collector<C: ExecSummaryCollector>(self, summary_collector: C) -> (r:
        WithSummaryCollector<C, Self>) where Self: Sized
        ensures
            r.summary_collector == summary_collector,
            r.inner == self,
    {
        WithSummaryCollector { summary_collector, inner: self }
    }
}

/// Decorates an operator with a summary collector; output is the
/// wrapped operator's, unchanged.
#[derive(Clone, Debug)]
pub struct WithSummaryCollector<C, T> {
    pub summary_collector: C,
    pub inner: T,
}

impl<C: ExecSummaryCollector, T: Executor> WithSummaryCollector<C, T> {
    pub fn new(summary_collector: C, inner: T) -> (r: WithSummaryCollector<C, T>)
        ensures
            r.summary_collector == summary_collector,
            r.inner == inner,
    {
        WithSummaryCollector { summary_collector, inner }
    }

    /// Pulls one row from the wrapped operator and records the
    /// completed call against the collector: one row produced, or zero
    /// at end-of-stream. A failure propagates unrecorded.
    pub fn next_row(&mut self) -> (r: Result<Option<Row>, ExecError>)
        requires
            old(self).inner.inv(),
        ensures
            final(self).inner.inv(),
            final(self).inner.remaining() <= old(self).inner.remaining(),
            r matches Ok(Some(_)) ==> final(self).inner.remaining() < old(self).inner.remaining(),
            C::counting() ==> match r {
                Ok(Some(_)) => final(self).summary_collector.iterations() == sat_add(
                    old(self).summary_collector.iterations(),
                    1,
                ) && final(self).summary_collector.produced() == sat_add(
                    old(self).summary_collector.produced(),
                    1,
                ),
                Ok(None) => final(self).summary_collector.iterations() == sat_add(
                    old(self).summary_collector.iterations(),
                    1,
                ) && final(self).summary_collector.produced() == old(
                    self,
                ).summary_collector.produced(),
                Err(_) => final(self).summary_collector == old(self).summary_collector,
            },
    {
        let ret = self.inner.next();
        match &ret {
            Ok(Some(_)) => self.summary_collector.on_finish_iterate(1),
            Ok(None) => self.summary_collector.on_finish_iterate(0),
            Err(_) => {},
        }
        ret
    }

    /// Flushes this operator's accumulated summary into the
    /// per-executor list, then lets the wrapped operator add the rest
    /// of the chain's contributions after it.
    pub fn collect_stats(&mut self, dest: &mut ExecuteStats)
        requires
            old(self).inner.inv(),
        ensures
            final(self).inner.inv(),
            C::counting() ==> old(dest).summary_per_executor@.push(
                ExecSummary {
                    num_iterations: old(self).summary_collector.iterations(),
                    num_produced_rows: old(self).summary_collector.produced(),
                },
            ).is_prefix_of(final(dest).summary_per_executor@),
            old(dest).summary_per_executor@.is_prefix_of(final(dest).summary_per_executor@),
            old(dest).scanned_rows_per_range@.is_prefix_of(final(dest).scanned_rows_per_range@),
    {
        self.summary_collector.collect(&mut dest.summary_per_executor);
        let ghost mid = dest.summary_per_executor@;
        self.inner.collect_exec_stats(dest);
        proof {
            assert(mid.is_prefix_of(dest.summary_per_executor@));
            assert forall|s: Seq<ExecSummary>| s.is_prefix_of(mid) implies s.is_prefix_of(
                dest.summary_per_executor@,
            ) by {
                assert(s =~= dest.summary_per_executor@.subrange(0, s.len() as int));
            }
            assert(old(dest).summary_per_executor@.is_prefix_of(mid));
            if C::counting() {
                assert(old(dest).summary_per_executor@.push(
                    ExecSummary {
                        num_iterations: old(self).summary_collector.iterations(),
                        num_produced_rows: old(self).summary_collector.produced(),
                    },
                ).is_prefix_of(mid));
            }
        }
    }
}

impl<C: ExecSummaryCollector, T: Executor> Executor for WithSummaryCollector<C, T> {
    type Storage = T::Storage;

    open spec fn inv(&self) -> bool {
        self.inner.inv()
    }

    open spec fn remaining(&self) -> nat {
        self.inner.remaining()
    }

    open spec fn len_of_columns(&self) -> usize {
        self.inner.len_of_columns()
    }

    open spec fn pending_warnings(&self) -> Option<EvalWarnings> {
        self.inner.pending_warnings()
    }

    fn next(&mut self) -> (r: Result<Option<Row>, ExecError>) {
        self.next_row()
    }

    fn collect_exec_stats(&mut self, dest: &mut ExecuteStats) {
        self.collect_stats(dest);
    }

    fn collect_storage_stats(&mut self, dest: &mut T::Storage) {
        self.inner.collect_storage_stats(dest);
    }

    fn get_len_of_columns(&self) -> usize {
        self.inner.get_len_of_columns()
    }

    fn take_eval_warnings(&mut self) -> Option<EvalWarnings> {
        self.inner.take_eval_warnings()
    }

    fn take_scanned_range(&mut self) -> IntervalRange {
        self.inner.take_scanned_range()
    }
}

/// A heap-allocated operator is an operator: every contract method
/// forwards to the boxed one, so chains can be built bottom-up without
/// knowing each operator's concrete size.
impl<T: Executor> Executor for Box<T> {
    type Storage = T::Storage;

    open spec fn inv(&self) -> bool {
        (**self).inv()
    }

    open spec fn remaining(&self) -> nat {
        (**self).remaining()
    }

    open spec fn len_of_columns(&self) -> usize {
        (**self).len_of_columns()
    }

    open spec fn pending_warnings(&self) -> Option<EvalWarnings> {
        (**self).pending_warnings()
    }

    fn next(&mut self) -> (r: Result<Option<Row>, ExecError>) {
        (**self).next()
    }

    fn collect_exec_stats(&mut self, dest: &mut ExecuteStats) {
        (**self).collect_exec_stats(dest);
    }

    fn collect_storage_stats(&mut self, dest: &mut T::Storage) {
        (**self).collect_storage_stats(dest);
    }

    fn get_len_of_columns(&self) -> usize {
        (**self).get_len_of_columns()
    }

    fn take_eval_warnings(&mut self) -> Option<EvalWarnings> {
        (**self).take_eval_warnings()
    }

    fn take_scanned_range(&mut self) -> IntervalRange {
        (**self).take_scanned_range()
    }
}

} // verus!
