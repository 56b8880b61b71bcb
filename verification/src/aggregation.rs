//! The grouping operators. Hash aggregation keeps one accumulator per
//! distinct encoded group key, computes every group before emitting,
//! and emits groups in no particular order. Streaming aggregation
//! relies on the upstream delivering rows pre-sorted by group key and
//! holds one open group at a time.

use vstd::prelude::*;

verus! {

use crate::ExecError;
use crate::codec::{Datum, DatumVal, bytes_eq, datums_view, encode_values};
use crate::executor::{ExecuteStats, Executor, IntervalRange};
use crate::expr::{Expr, ExprColumnRefVisitor, eval_expr, expr_first_err, exprs_first_err};
use crate::row::Row;
use crate::schema::{EvalContext, EvalWarnings};
use crate::topn::check_offsets;

/// The aggregate functions this core computes.
#[derive(Clone, Copy, Debug, PartialEq, Eq, Structural)]
pub enum AggrFunc {
    Count,
    Sum,
}

/// One requested aggregate: a function over one argument expression.
#[derive(Debug)]
pub struct AggrExpr {
    pub func: AggrFunc,
    pub expr: Expr,
}

/// Accumulator state of one aggregate within one group.
#[derive(Clone, Copy, Debug, PartialEq, Eq, Structural)]
pub enum AggrState {
    Count { n: u64 },
    Sum { acc: Option<i64> },
}

/// The fresh accumulator of a function.
pub open spec fn spec_init_state(f: AggrFunc) -> AggrState {
    match f {
        AggrFunc::Count => AggrState::Count { n: 0 },
        AggrFunc::Sum => AggrState::Sum { acc: None },
    }
}

/// Folding one argument value into an accumulator: COUNT counts
/// non-NULL values, SUM adds signed integers and is NULL on no input;
/// overflow and non-integer summands fail.
pub open spec fn spec_update_state(st: AggrState, d: DatumVal) -> Result<AggrState, ExecError> {
    match st {
        AggrState::Count { n } => match d {
            DatumVal::Null => Ok(st),
            _ => if n < u64::MAX {
                Ok(AggrState::Count { n: (n + 1) as u64 })
            } else {
                Err(ExecError::Overflow)
            },
        },
        AggrState::Sum { acc } => match d {
            DatumVal::Null => Ok(st),
            DatumVal::I64(x) => {
                let base = match acc {
                    Some(a) => a as int,
                    None => 0int,
                };
                if base + x <= i64::MAX && base + x >= i64::MIN {
                    Ok(AggrState::Sum { acc: Some((base + x) as i64) })
                } else {
                    Err(ExecError::Overflow)
                }
            },
            _ => Err(ExecError::UnsupportedExpr),
        },
    }
}

/// One aggregate's step on one row: evaluate its argument expression
/// against the inflated row, then fold the value into the accumulator.
pub open spec fn spec_update_one(
    ae: AggrExpr,
    st: AggrState,
    row: Seq<DatumVal>,
) -> Result<AggrState, ExecError> {
    match crate::expr::spec_eval(ae.expr, row) {
        Ok(d) => spec_update_state(st, d),
        Err(e) => Err(e),
    }
}

/// The final output value of an accumulator.
pub open spec fn spec_final_datum(st: AggrState) -> DatumVal {
    match st {
        AggrState::Count { n } => DatumVal::U64(n),
        AggrState::Sum { acc } => match acc {
            Some(x) => DatumVal::I64(x),
            None => DatumVal::Null,
        },
    }
}

/// Builds the fresh accumulator of `f`.
pub fn init_state(f: AggrFunc) -> (r: AggrState)
    ensures
        r == spec_init_state(f),
{
    match f {
        AggrFunc::Count => AggrState::Count { n: 0 },
        AggrFunc::Sum => AggrState::Sum { acc: None },
    }
}

/// Folds one argument value into an accumulator, per
/// `spec_update_state`.
pub fn update_state(st: AggrState, d: &Datum) -> (r: Result<AggrState, ExecError>)
    ensures
        r == spec_update_state(st, d@),
{
    match st {
        AggrState::Count { n } => match d {
            Datum::Null => Ok(st),
            _ => if n < u64::MAX {
                Ok(AggrState::Count { n: n + 1 })
            } else {
                Err(ExecError::Overflow)
            },
        },
        AggrState::Sum { acc } => match d {
            Datum::Null => Ok(st),
            Datum::I64(x) => {
                let base: i64 = match acc {
                    Some(a) => a,
                    None => 0,
                };
                match base.checked_add(*x) {
                    Some(s) => Ok(AggrState::Sum { acc: Some(s) }),
                    None => Err(ExecError::Overflow),
                }
            },
            _ => Err(ExecError::UnsupportedExpr),
        },
    }
}

/// The final output value of an accumulator, per `spec_final_datum`.
pub fn final_datum(st: &AggrState) -> (r: Datum)
    ensures
        r@ == spec_final_datum(*st),
{
    match st {
        AggrState::Count { n } => Datum::U64(*n),
        AggrState::Sum { acc } => match acc {
            Some(x) => Datum::I64(*x),
            None => Datum::Null,
        },
    }
}

/// The final output values of a group's accumulators, in order.
pub open spec fn spec_final_row(states: Seq<AggrState>) -> Seq<DatumVal> {
    states.map_values(|st: AggrState| spec_final_datum(st))
}

/// One group under computation: its encoded key and one accumulator
/// per requested aggregate.
#[derive(Debug)]
pub struct Group {
    pub key_bytes: Vec<u8>,
    pub states: Vec<AggrState>,
}

/// Distinctness of group keys.
pub open spec fn groups_distinct(s: Seq<Group>) -> bool {
    forall|i: int, j: int| 0 <= i < j < s.len() ==> s[i].key_bytes@ != s[j].key_bytes@
}

/// Position of the group holding `key`, if any.
fn find_group(groups: &Vec<Group>, key: &Vec<u8>) -> (r: Option<usize>)
    ensures
        match r {
            Some(i) => i < groups@.len() && groups@[i as int].key_bytes@ == key@,
            None => forall|k: int| 0 <= k < groups@.len() ==> groups@[k].key_bytes@ != key@,
        },
{
    let n = groups.len();
    let mut i: usize = 0;
    while i < n
        invariant
            i <= n,
            n == groups@.len(),
            forall|k: int| 0 <= k < i ==> groups@[k].key_bytes@ != key@,
        decreases n - i,
    {
        if bytes_eq(&groups[i].key_bytes, key) {
            return Some(i);
        }
        i = i + 1;
    }
    None
}

/// The first failure a traversal of the aggregate argument trees
/// meets, in list order.
pub open spec fn aggrs_first_err(s: Seq<AggrExpr>, cols_len: usize) -> Option<ExecError>
    decreases s,
{
    if s.len() == 0 {
        None
    } else {
        match expr_first_err(s[0].expr, cols_len) {
            Some(e) => Some(e),
            None => aggrs_first_err(s.drop_first(), cols_len),
        }
    }
}

/// With an error-free prefix, the first error of the whole list is
/// the first error past the prefix.
pub proof fn lemma_aggrs_first_err_skip(s: Seq<AggrExpr>, i: int, cols_len: usize)
    requires
        0 <= i <= s.len(),
        aggrs_first_err(s.subrange(0, i), cols_len) is None,
    ensures
        aggrs_first_err(s, cols_len) == aggrs_first_err(s.skip(i), cols_len),
    decreases i,
{
    if i == 0 {
        assert(s.skip(0) =~= s);
    } else {
        assert(s.subrange(0, i)[0] == s[0]);
        assert(expr_first_err(s[0].expr, cols_len) is None);
        assert(s.subrange(0, i).drop_first() =~= s.drop_first().subrange(0, i - 1));
        lemma_aggrs_first_err_skip(s.drop_first(), i - 1, cols_len);
        assert(s.drop_first().skip(i - 1) =~= s.skip(i));
    }
}

/// Groups the whole upstream before emitting: one accumulator set per
/// distinct encoded group key, updated per incoming row.
pub struct HashAggExecutor<Src> {
    pub group_by: Vec<Expr>,
    pub aggr_exprs: Vec<AggrExpr>,
    pub related_cols_offset: Vec<usize>,
    pub groups: Vec<Group>,
    pub executed: bool,
    pub eval_ctx: EvalContext,
    pub source: Src,
}

impl<Src: Executor> HashAggExecutor<Src> {
    /// Well-formedness: distinct group keys, one accumulator per
    /// aggregate in every group, nothing grouped before execution.
    pub open spec fn wf(&self) -> bool {
        &&& groups_distinct(self.groups@)
        &&& forall|i: int|
            0 <= i < self.groups@.len() ==> (#[trigger] self.groups@[i]).states@.len()
                == self.aggr_exprs@.len()
        &&& (!self.executed ==> self.groups@.len() == 0)
        &&& self.source.inv()
    }

    /// Builds the operator, extracting the column offsets the group-by
    /// and aggregate expressions read; fails on a malformed tree.
    pub fn new(group_by: Vec<Expr>, aggr_exprs: Vec<AggrExpr>, cols_len: usize, source: Src) -> (r:
        Result<HashAggExecutor<Src>, ExecError>)
        requires
            source.inv(),
        ensures
            match r {
                Ok(h) => {
                    &&& h.wf()
                    &&& !h.executed
                    &&& h.source == source
                    &&& h.group_by@ == group_by@
                    &&& h.aggr_exprs@ == aggr_exprs@
                    &&& exprs_first_err(group_by@, cols_len) is None
                    &&& aggrs_first_err(aggr_exprs@, cols_len) is None
                },
                Err(e) => match exprs_first_err(group_by@, cols_len) {
                    Some(x) => e == x,
                    None => aggrs_first_err(aggr_exprs@, cols_len) == Some(e),
                },
            },
    {
        let mut visitor = ExprColumnRefVisitor::new(cols_len);
        if let Err(e) = visitor.batch_visit(group_by.as_slice()) {
            proof {
                assert(exprs_first_err(group_by@, cols_len) == Some(e));
            }
            return Err(e);
        }
        let n = aggr_exprs.len();
        let mut i: usize = 0;
        while i < n
            invariant
                i <= n,
                n == aggr_exprs@.len(),
                visitor.wf(),
                visitor.cols_len == cols_len,
                exprs_first_err(group_by@, cols_len) is None,
                aggrs_first_err(aggr_exprs@.subrange(0, i as int), cols_len) is None,
            decreases n - i,
        {
            if let Err(e) = visitor.visit(&aggr_exprs[i].expr) {
                proof {
                    lemma_aggrs_first_err_skip(aggr_exprs@, i as int, cols_len);
                    let tail = aggr_exprs@.skip(i as int);
                    assert(tail[0] == aggr_exprs@[i as int]);
                    assert(tail.len() > 0);
                    assert(aggrs_first_err(tail, cols_len) == Some(e));
                }
                return Err(e);
            }
            i = i + 1;
            proof {
                assert(aggr_exprs@.subrange(0, i as int).subrange(0, i as int - 1) =~= aggr_exprs@
                    .subrange(0, i as int - 1));
                lemma_aggrs_first_err_skip(
                    aggr_exprs@.subrange(0, i as int),
                    i as int - 1,
                    cols_len,
                );
                let tail = aggr_exprs@.subrange(0, i as int).skip(i as int - 1);
                assert(tail[0] == aggr_exprs@[i as int - 1]);
                assert(tail.len() == 1);
                assert(tail.drop_first().len() == 0);
                assert(aggrs_first_err(tail.drop_first(), cols_len) is None);
                assert(aggrs_first_err(tail, cols_len) is None);
            }
        }
        proof {
            assert(aggr_exprs@.subrange(0, n as int) =~= aggr_exprs@);
        }
        Ok(
            HashAggExecutor {
                group_by,
                aggr_exprs,
                related_cols_offset: visitor.column_offsets(),
                groups: Vec::new(),
                executed: false,
                eval_ctx: EvalContext::new(),
                source,
            },
        )
    }

    /// Evaluates each expression of `exprs` against one inflated row,
    /// in order, failing with the first expression's error.
    fn eval_all(exprs: &Vec<Expr>, datums: &Vec<Datum>) -> (r: Result<Vec<Datum>, ExecError>)
        ensures
            match r {
                Ok(v) => {
                    &&& v@.len() == exprs@.len()
                    &&& forall|i: int|
                        0 <= i < exprs@.len() ==> #[trigger] crate::expr::spec_eval(
                            exprs@[i],
                            datums_view(datums@),
                        ) == Ok::<DatumVal, ExecError>(v@[i]@)
                },
                Err(e) => exists|i: int|
                    {
                        &&& 0 <= i < exprs@.len()
                        &&& #[trigger] crate::expr::spec_eval(exprs@[i], datums_view(datums@))
                            == Err::<DatumVal, ExecError>(e)
                        &&& forall|j: int|
                            0 <= j < i ==> #[trigger] crate::expr::spec_eval(
                                exprs@[j],
                                datums_view(datums@),
                            ) is Ok
                    },
            },
    {
        let n = exprs.len();
        let mut out: Vec<Datum> = Vec::new();
        let mut i: usize = 0;
        while i < n
            invariant
                i <= n,
                n == exprs@.len(),
                out@.len() == i,
                forall|k: int|
                    0 <= k < i ==> #[trigger] crate::expr::spec_eval(
                        exprs@[k],
                        datums_view(datums@),
                    ) == Ok::<DatumVal, ExecError>(out@[k]@),
            decreases n - i,
        {
            match eval_expr(&exprs[i], datums) {
                Ok(d) => {
                    out.push(d);
                },
                Err(e) => {
                    return Err(e);
                },
            }
            i = i + 1;
        }
        Ok(out)
    }

    /// On the first call, drains the upstream entirely, grouping every
    /// row by its encoded group-by key; afterwards emits one
    /// aggregation row per group, its accumulators finalized and the
    /// encoded key as suffix, then reports end-of-stream.
    pub fn next_row(&mut self) -> (r: Result<Option<Row>, ExecError>)
        requires
            old(self).wf(),
        ensures
            final(self).wf(),
            final(self).source.remaining() + final(self).groups@.len() <= old(
                self,
            ).source.remaining() + old(self).groups@.len(),
            r matches Ok(Some(_)) ==> final(self).executed && final(self).source.remaining()
                + final(self).groups@.len() < old(self).source.remaining() + old(
                self,
            ).groups@.len(),
            old(self).executed ==> match r {
                Ok(Some(rw)) => {
                    &&& old(self).groups@.len() > 0
                    &&& (rw matches Row::Agg(a) && a.suffix_view() == old(
                        self,
                    ).groups@[0].key_bytes@ && a.value_view() == spec_final_row(
                        old(self).groups@[0].states@,
                    ))
                    &&& final(self).groups@ == old(self).groups@.drop_first()
                },
                Ok(None) => old(self).groups@.len() == 0,
                Err(_) => false,
            },
    {
        if !self.executed {
            self.executed = true;
            let ghost r0 = self.source.remaining();
            loop
                invariant
                    self.wf(),
                    self.executed,
                    !old(self).executed,
                    self.group_by@ == old(self).group_by@,
                    self.aggr_exprs@ == old(self).aggr_exprs@,
                    self.source.remaining() + self.groups@.len() <= r0,
                    r0 == old(self).source.remaining(),
                decreases self.source.remaining(),
            {
                match self.source.next() {
                    Ok(Some(row)) => {
                        let cols = match row.take_origin() {
                            Ok(c) => c,
                            Err(e) => {
                                return Err(e);
                            },
                        };
                        if let Err(e) = check_offsets(&self.related_cols_offset, cols.cols_len()) {
                            return Err(e);
                        }
                        let datums = match cols.inflate_cols_with_offsets(
                            &self.eval_ctx,
                            self.related_cols_offset.as_slice(),
                        ) {
                            Ok(d) => d,
                            Err(e) => {
                                return Err(e);
                            },
                        };
                        let key_vals = match Self::eval_all(&self.group_by, &datums) {
                            Ok(v) => v,
                            Err(e) => {
                                return Err(e);
                            },
                        };
                        let key_bytes = encode_values(&key_vals);
                        let ghost pre = self.groups@;
                        let mut g: Group = match find_group(&self.groups, &key_bytes) {
                            Some(idx) => {
                                let g = self.groups.remove(idx);
                                proof {
                                    pre.remove_ensures(idx as int);
                                    lemma_groups_remove(pre, idx as int);
                                }
                                g
                            },
                            None => Group { key_bytes, states: init_states(&self.aggr_exprs) },
                        };
                        if let Err(e) = update_states(&self.aggr_exprs, &mut g.states, &datums) {
                            return Err(e);
                        }
                        let ghost mid = self.groups@;
                        self.groups.push(g);
                        proof {
                            assert(forall|k: int|
                                0 <= k < mid.len() ==> #[trigger] self.groups@[k] == mid[k]);
                        }
                    },
                    Ok(None) => {
                        break;
                    },
                    Err(e) => {
                        return Err(e);
                    },
                }
            }
        }
        if self.groups.len() > 0 {
            let ghost s2 = self.groups@;
            let g = self.groups.remove(0);
            proof {
                s2.remove_ensures(0);
                assert(self.groups@ =~= s2.drop_first());
                assert(forall|i: int|
                    0 <= i < self.groups@.len() ==> #[trigger] self.groups@[i] == s2[i + 1]);
            }
            let values = finalize_states(&g.states);
            Ok(Some(Row::agg(values, g.key_bytes)))
        } else {
            Ok(None)
        }
    }
}

/// Fresh accumulators for every requested aggregate, in order.
fn init_states(aggr_exprs: &Vec<AggrExpr>) -> (r: Vec<AggrState>)
    ensures
        r@.len() == aggr_exprs@.len(),
        forall|i: int|
            0 <= i < r@.len() ==> #[trigger] r@[i] == spec_init_state(aggr_exprs@[i].func),
{
    let n = aggr_exprs.len();
    let mut states: Vec<AggrState> = Vec::new();
    let mut i: usize = 0;
    while i < n
        invariant
            i <= n,
            n == aggr_exprs@.len(),
            states@.len() == i,
            forall|k: int|
                0 <= k < i ==> #[trigger] states@[k] == spec_init_state(aggr_exprs@[k].func),
        decreases n - i,
    {
        states.push(init_state(aggr_exprs[i].func));
        i = i + 1;
    }
    states
}

/// Folds one row's aggregate argument values into the accumulators:
/// each accumulator takes one `spec_update_one` step on the row, and
/// the first failing aggregate's error aborts the fold.
fn update_states(aggr_exprs: &Vec<AggrExpr>, states: &mut Vec<AggrState>, datums: &Vec<Datum>) -> (r:
    Result<(), ExecError>)
    requires
        old(states)@.len() == aggr_exprs@.len(),
    ensures
        final(states)@.len() == old(states)@.len(),
        match r {
            Ok(()) => forall|i: int|
                0 <= i < aggr_exprs@.len() ==> #[trigger] spec_update_one(
                    aggr_exprs@[i],
                    old(states)@[i],
                    datums_view(datums@),
                ) == Ok::<AggrState, ExecError>(final(states)@[i]),
            Err(e) => exists|i: int|
                {
                    &&& 0 <= i < aggr_exprs@.len()
                    &&& #[trigger] spec_update_one(
                        aggr_exprs@[i],
                        old(states)@[i],
                        datums_view(datums@),
                    ) == Err::<AggrState, ExecError>(e)
                    &&& forall|j: int|
                        0 <= j < i ==> #[trigger] spec_update_one(
                            aggr_exprs@[j],
                            old(states)@[j],
                            datums_view(datums@),
                        ) is Ok
                },
        },
{
    let n = aggr_exprs.len();
    let mut i: usize = 0;
    while i < n
        invariant
            i <= n,
            n == aggr_exprs@.len(),
            states@.len() == n,
            states@.len() == old(states)@.len(),
            forall|k: int| i <= k < n ==> #[trigger] states@[k] == old(states)@[k],
            forall|k: int|
                0 <= k < i ==> #[trigger] spec_update_one(
                    aggr_exprs@[k],
                    old(states)@[k],
                    datums_view(datums@),
                ) == Ok::<AggrState, ExecError>(states@[k]),
        decreases n - i,
    {
        let d = match eval_expr(&aggr_exprs[i].expr, datums) {
            Ok(d) => d,
            Err(e) => {
                proof {
                    assert(spec_update_one(
                        aggr_exprs@[i as int],
                        old(states)@[i as int],
                        datums_view(datums@),
                    ) == Err::<AggrState, ExecError>(e));
                }
                return Err(e);
            },
        };
        let st = match update_state(states[i], &d) {
            Ok(st) => st,
            Err(e) => {
                proof {
                    assert(spec_update_one(
                        aggr_exprs@[i as int],
                        old(states)@[i as int],
                        datums_view(datums@),
                    ) == Err::<AggrState, ExecError>(e));
                }
                return Err(e);
            },
        };
        states[i] = st;
        i = i + 1;
        proof {
            assert(spec_update_one(
                aggr_exprs@[i - 1],
                old(states)@[i - 1],
                datums_view(datums@),
            ) == Ok::<AggrState, ExecError>(states@[i - 1]));
        }
    }
    Ok(())
}

/// Finalizes every accumulator into its output value.
fn finalize_states(states: &Vec<AggrState>) -> (r: Vec<Datum>)
    ensures
        datums_view(r@) == spec_final_row(states@),
{
    let n = states.len();
    let mut values: Vec<Datum> = Vec::new();
    let mut i: usize = 0;
    while i < n
        invariant
            i <= n,
            n == states@.len(),
            values@.len() == i,
            forall|k: int| 0 <= k < i ==> (#[trigger] values@[k])@ == spec_final_datum(states@[k]),
        decreases n - i,
    {
        values.push(final_datum(&states[i]));
        i = i + 1;
    }
    proof {
        assert(datums_view(values@) =~= spec_final_row(states@));
    }
    values
}

/// Removing any group keeps keys distinct and accumulator widths.
proof fn lemma_groups_remove(s: Seq<Group>, i: int)
    requires
        0 <= i < s.len(),
        groups_distinct(s),
    ensures
        groups_distinct(s.remove(i)),
        forall|k: int|
            0 <= k < s.remove(i).len() ==> #[trigger] s.remove(i)[k] == s[k] || s.remove(i)[k]
                == s[k + 1],
        forall|k: int|
            0 <= k < s.remove(i).len() ==> (#[trigger] s.remove(i)[k]).key_bytes@ != s[
            i].key_bytes@,
{
    s.remove_ensures(i);
    assert forall|k: int| 0 <= k < s.remove(i).len() implies #[trigger] s.remove(i)[k] == s[k]
        || s.remove(i)[k] == s[k + 1] by {
        if k < i {
            assert(s.remove(i)[k] == s[k]);
        } else {
            assert(s.remove(i)[k] == s[k + 1]);
        }
    }
    assert forall|k: int| 0 <= k < s.remove(i).len() implies (#[trigger] s.remove(
        i,
    )[k]).key_bytes@ != s[i].key_bytes@ by {
        if k < i {
            assert(s.remove(i)[k] == s[k]);
        } else {
            assert(s.remove(i)[k] == s[k + 1]);
        }
    }
    assert forall|a: int, b: int| 0 <= a < b < s.remove(i).len() implies s.remove(
        i,
    )[a].key_bytes@ != s.remove(i)[b].key_bytes@ by {
        if a < i {
            assert(s.remove(i)[a] == s[a]);
        } else {
            assert(s.remove(i)[a] == s[a + 1]);
        }
        if b < i {
            assert(s.remove(i)[b] == s[b]);
        } else {
            assert(s.remove(i)[b] == s[b + 1]);
        }
    }
}

/// Aggregates an upstream already sorted by group key, holding one
/// open group at a time and emitting it as soon as the key changes.
pub struct StreamAggExecutor<Src> {
    pub group_by: Vec<Expr>,
    pub aggr_exprs: Vec<AggrExpr>,
    pub related_cols_offset: Vec<usize>,
    pub cur_key: Option<Vec<u8>>,
    pub states: Vec<AggrState>,
    pub done: bool,
    pub eval_ctx: EvalContext,
    pub source: Src,
}

impl<Src: Executor> StreamAggExecutor<Src> {
    /// Well-formedness: an open group carries one accumulator per
    /// aggregate, and the upstream is well formed.
    pub open spec fn wf(&self) -> bool {
        &&& (self.cur_key is Some ==> self.states@.len() == self.aggr_exprs@.len())
        &&& self.source.inv()
    }

    /// Builds the operator, extracting the column offsets the group-by
    /// and aggregate expressions read; fails on a malformed tree.
    pub fn new(group_by: Vec<Expr>, aggr_exprs: Vec<AggrExpr>, cols_len: usize, source: Src) -> (r:
        Result<StreamAggExecutor<Src>, ExecError>)
        requires
            source.inv(),
        ensures
            match r {
                Ok(s) => {
                    &&& s.wf()
                    &&& s.cur_key is None
                    &&& !s.done
                    &&& s.source == source
                    &&& s.group_by@ == group_by@
                    &&& s.aggr_exprs@ == aggr_exprs@
                    &&& exprs_first_err(group_by@, cols_len) is None
                    &&& aggrs_first_err(aggr_exprs@, cols_len) is None
                },
                Err(e) => match exprs_first_err(group_by@, cols_len) {
                    Some(x) => e == x,
                    None => aggrs_first_err(aggr_exprs@, cols_len) == Some(e),
                },
            },
    {
        let mut visitor = ExprColumnRefVisitor::new(cols_len);
        if let Err(e) = visitor.batch_visit(group_by.as_slice()) {
            proof {
                assert(exprs_first_err(group_by@, cols_len) == Some(e));
            }
            return Err(e);
        }
        let n = aggr_exprs.len();
        let mut i: usize = 0;
        while i < n
            invariant
                i <= n,
                n == aggr_exprs@.len(),
                visitor.wf(),
                visitor.cols_len == cols_len,
                exprs_first_err(group_by@, cols_len) is None,
                aggrs_first_err(aggr_exprs@.subrange(0, i as int), cols_len) is None,
            decreases n - i,
        {
            if let Err(e) = visitor.visit(&aggr_exprs[i].expr) {
                proof {
                    lemma_aggrs_first_err_skip(aggr_exprs@, i as int, cols_len);
                    let tail = aggr_exprs@.skip(i as int);
                    assert(tail[0] == aggr_exprs@[i as int]);
                    assert(tail.len() > 0);
                    assert(aggrs_first_err(tail, cols_len) == Some(e));
                }
                return Err(e);
            }
            i = i + 1;
            proof {
                assert(aggr_exprs@.subrange(0, i as int).subrange(0, i as int - 1) =~= aggr_exprs@
                    .subrange(0, i as int - 1));
                lemma_aggrs_first_err_skip(
                    aggr_exprs@.subrange(0, i as int),
                    i as int - 1,
                    cols_len,
                );
                let tail = aggr_exprs@.subrange(0, i as int).skip(i as int - 1);
                assert(tail[0] == aggr_exprs@[i as int - 1]);
                assert(tail.len() == 1);
                assert(tail.drop_first().len() == 0);
                assert(aggrs_first_err(tail.drop_first(), cols_len) is None);
                assert(aggrs_first_err(tail, cols_len) is None);
            }
        }
        proof {
            assert(aggr_exprs@.subrange(0, n as int) =~= aggr_exprs@);
        }
        Ok(
            StreamAggExecutor {
                group_by,
                aggr_exprs,
                related_cols_offset: visitor.column_offsets(),
                cur_key: None,
                states: Vec::new(),
                done: false,
                eval_ctx: EvalContext::new(),
                source,
            },
        )
    }

    /// The open-group contribution to the termination bound.
    pub open spec fn open_groups(&self) -> nat {
        if self.cur_key is Some {
            1nat
        } else {
            0nat
        }
    }

    /// Pulls rows of the open group until its key changes or the
    /// upstream ends, then emits the finished group as an aggregation
    /// row with the encoded key as suffix.
    pub fn next_row(&mut self) -> (r: Result<Option<Row>, ExecError>)
        requires
            old(self).wf(),
        ensures
            final(self).wf(),
            final(self).done || final(self).source.remaining() + final(self).open_groups()
                <= old(self).source.remaining() + old(self).open_groups(),
            r matches Ok(Some(rw)) ==> (rw matches Row::Agg(_)) && (final(self).done || final(self).source.remaining()
                + final(self).open_groups() < old(self).source.remaining() + old(self).open_groups()),
            r matches Ok(Some(_)) ==> old(self).source.remaining() + old(self).open_groups() > 0,
            old(self).done ==> r == Ok::<Option<Row>, ExecError>(None) && *final(self) == *old(self),
            old(self).cur_key matches Some(k) ==> (r matches Ok(Some(rw)) ==> (rw matches Row::Agg(a)
                && a.suffix_view() == k@)),
            !old(self).done && r == Ok::<Option<Row>, ExecError>(None) ==> old(self).cur_key
                is None,
    {
        if self.done {
            return Ok(None);
        }
        let ghost t0 = self.source.remaining() + self.open_groups();
        loop
            invariant
                self.wf(),
                !self.done,
                !old(self).done,
                self.group_by@ == old(self).group_by@,
                self.aggr_exprs@ == old(self).aggr_exprs@,
                old(self).cur_key is Some ==> self.cur_key == old(self).cur_key,
                self.source.remaining() + self.open_groups() <= t0,
                t0 == old(self).source.remaining() + old(self).open_groups(),
            decreases self.source.remaining(),
        {
            match self.source.next() {
                Ok(Some(row)) => {
                    let cols = match row.take_origin() {
                        Ok(c) => c,
                        Err(e) => {
                            return Err(e);
                        },
                    };
                    if let Err(e) = check_offsets(&self.related_cols_offset, cols.cols_len()) {
                        return Err(e);
                    }
                    let datums = match cols.inflate_cols_with_offsets(
                        &self.eval_ctx,
                        self.related_cols_offset.as_slice(),
                    ) {
                        Ok(d) => d,
                        Err(e) => {
                            return Err(e);
                        },
                    };
                    let key_vals = match HashAggExecutor::<Src>::eval_all(
                        &self.group_by,
                        &datums,
                    ) {
                        Ok(v) => v,
                        Err(e) => {
                            return Err(e);
                        },
                    };
                    let key_bytes = encode_values(&key_vals);
                    let same = match &self.cur_key {
                        Some(k) => bytes_eq(k, &key_bytes),
                        None => false,
                    };
                    if same {
                        if let Err(e) = update_states(&self.aggr_exprs, &mut self.states, &datums)
                             {
                            return Err(e);
                        }
                    } else {
                        let prev = self.cur_key.take();
                        self.cur_key = Some(key_bytes);
                        let finished = match prev {
                            Some(k) => Some((finalize_states(&self.states), k)),
                            None => None,
                        };
                        self.states = init_states(&self.aggr_exprs);
                        if let Err(e) = update_states(&self.aggr_exprs, &mut self.states, &datums)
                             {
                            return Err(e);
                        }
                        if let Some((values, suffix)) = finished {
                            return Ok(Some(Row::agg(values, suffix)));
                        }
                    }
                },
                Ok(None) => {
                    self.done = true;
                    match self.cur_key.take() {
                        Some(k) => {
                            let values = finalize_states(&self.states);
                            return Ok(Some(Row::agg(values, k)));
                        },
                        None => {
                            return Ok(None);
                        },
                    }
                },
                Err(e) => {
                    return Err(e);
                },
            }
        }
    }
}

impl<Src: Executor> Executor for StreamAggExecutor<Src> {
    type Storage = Src::Storage;

    open spec fn inv(&self) -> bool {
        self.wf()
    }

    open spec fn remaining(&self) -> nat {
        if self.done {
            0nat
        } else {
            self.source.remaining() + self.open_groups()
        }
    }

    open spec fn len_of_columns(&self) -> usize {
        self.source.len_of_columns()
    }

    open spec fn pending_warnings(&self) -> Option<EvalWarnings> {
        self.source.pending_warnings()
    }

    fn next(&mut self) -> (r: Result<Option<Row>, ExecError>) {
        self.next_row()
    }

    fn collect_exec_stats(&mut self, dest: &mut ExecuteStats) {
        self.source.collect_exec_stats(dest);
    }

    fn collect_storage_stats(&mut self, dest: &mut Src::Storage) {
        self.source.collect_storage_stats(dest);
    }

    fn get_len_of_columns(&self) -> usize {
        self.source.get_len_of_columns()
    }

    fn take_eval_warnings(&mut self) -> Option<EvalWarnings> {
        self.source.take_eval_warnings()
    }

    fn take_scanned_range(&mut self) -> IntervalRange {
        self.source.take_scanned_range()
    }
}

impl<Src: Executor> Executor for HashAggExecutor<Src> {
    type Storage = Src::Storage;

    open spec fn inv(&self) -> bool {
        self.wf()
    }

    open spec fn remaining(&self) -> nat {
        self.source.remaining() + self.groups@.len()
    }

    open spec fn len_of_columns(&self) -> usize {
        self.source.len_of_columns()
    }

    open spec fn pending_warnings(&self) -> Option<EvalWarnings> {
        self.source.pending_warnings()
    }

    fn next(&mut self) -> (r: Result<Option<Row>, ExecError>) {
        self.next_row()
    }

    fn collect_exec_stats(&mut self, dest: &mut ExecuteStats) {
        self.source.collect_exec_stats(dest);
    }

    fn collect_storage_stats(&mut self, dest: &mut Src::Storage) {
        self.source.collect_storage_stats(dest);
    }

    fn get_len_of_columns(&self) -> usize {
        self.source.get_len_of_columns()
    }

    fn take_eval_warnings(&mut self) -> Option<EvalWarnings> {
        self.source.take_eval_warnings()
    }

    fn take_scanned_range(&mut self) -> IntervalRange {
        self.source.take_scanned_range()
    }
}

} // verus!
