//! The top-N operator: a bounded partial sort. Every upstream row is
//! keyed by its ORDER BY values; only the best N rows are kept, and
//! after upstream exhaustion they are emitted in fully sorted order.

use vstd::prelude::*;

verus! {

use crate::ExecError;
use crate::codec::{Datum, DatumVal, datum_le, datums_view, lemma_datum_le_total};
use crate::executor::{ExecuteStats, Executor, IntervalRange};
use crate::expr::{Expr, ExprColumnRefVisitor, eval_expr, exprs_first_err};
use crate::row::Row;
use crate::schema::{EvalContext, EvalWarnings};

/// Order on ORDER BY key vectors: position by position, equal datums
/// move to the next position, and the first unequal position decides,
/// reversed where its direction is descending.
pub open spec fn key_le(a: Seq<DatumVal>, b: Seq<DatumVal>, desc: Seq<bool>) -> bool
    decreases a.len(),
{
    if a.len() == 0 || b.len() == 0 || desc.len() == 0 {
        true
    } else if datum_le(a[0], b[0]) && datum_le(b[0], a[0]) {
        key_le(a.drop_first(), b.drop_first(), desc.drop_first())
    } else if desc[0] {
        datum_le(b[0], a[0])
    } else {
        datum_le(a[0], b[0])
    }
}

/// `key_le` is total.
pub proof fn lemma_key_le_total(a: Seq<DatumVal>, b: Seq<DatumVal>, desc: Seq<bool>)
    ensures
        key_le(a, b, desc) || key_le(b, a, desc),
    decreases a.len(),
{
    if a.len() == 0 || b.len() == 0 || desc.len() == 0 {
    } else {
        lemma_datum_le_total(a[0], b[0]);
        if datum_le(a[0], b[0]) && datum_le(b[0], a[0]) {
            lemma_key_le_total(a.drop_first(), b.drop_first(), desc.drop_first());
        }
    }
}

/// Decides `key_le` on concrete key vectors.
pub fn key_le_exec(a: &Vec<Datum>, b: &Vec<Datum>, desc: &Vec<bool>) -> (r: bool)
    ensures
        r == key_le(datums_view(a@), datums_view(b@), desc@),
{
    let ghost ka = datums_view(a@);
    let ghost kb = datums_view(b@);
    let ghost kd = desc@;
    proof {
        assert(ka.skip(0) =~= ka);
        assert(kb.skip(0) =~= kb);
        assert(kd.skip(0) =~= kd);
    }
    let na = a.len();
    let nb = b.len();
    let nd = desc.len();
    let mut i: usize = 0;
    while i < na && i < nb && i < nd
        invariant
            i <= na,
            i <= nb,
            i <= nd,
            na == ka.len(),
            nb == kb.len(),
            nd == kd.len(),
            ka == datums_view(a@),
            kb == datums_view(b@),
            kd == desc@,
            key_le(ka, kb, kd) == key_le(ka.skip(i as int), kb.skip(i as int), kd.skip(i as int)),
        decreases na - i,
    {
        proof {
            assert(ka.skip(i as int)[0] == ka[i as int]);
            assert(kb.skip(i as int)[0] == kb[i as int]);
            assert(kd.skip(i as int)[0] == kd[i as int]);
            assert(ka[i as int] == a@[i as int]@);
            assert(kb[i as int] == b@[i as int]@);
            assert(ka.skip(i as int).drop_first() =~= ka.skip(i as int + 1));
            assert(kb.skip(i as int).drop_first() =~= kb.skip(i as int + 1));
            assert(kd.skip(i as int).drop_first() =~= kd.skip(i as int + 1));
        }
        let le_ab = crate::codec::datum_le_exec(&a[i], &b[i]);
        let le_ba = crate::codec::datum_le_exec(&b[i], &a[i]);
        if le_ab && le_ba {
            i = i + 1;
        } else if desc[i] {
            return le_ba;
        } else {
            return le_ab;
        }
    }
    proof {
        assert(ka.skip(i as int).len() == 0 || kb.skip(i as int).len() == 0 || kd.skip(
            i as int,
        ).len() == 0);
    }
    true
}

/// One buffered row with its evaluated ORDER BY key.
#[derive(Debug)]
pub struct SortRow {
    pub key: Vec<Datum>,
    pub row: Row,
}

/// Adjacent-sortedness of the buffer by `key_le`.
pub open spec fn buf_sorted(s: Seq<SortRow>, desc: Seq<bool>) -> bool {
    forall|i: int|
        0 <= i < s.len() - 1 ==> key_le(
            datums_view(#[trigger] s[i].key@),
            datums_view(s[i + 1].key@),
            desc,
        )
}

/// Every buffered key carries one datum per ORDER BY direction.
pub open spec fn key_lens_ok(s: Seq<SortRow>, desc: Seq<bool>) -> bool {
    forall|i: int| 0 <= i < s.len() ==> (#[trigger] s[i]).key@.len() == desc.len()
}

/// `key_le` is transitive over keys of the directions' length.
pub proof fn lemma_key_le_trans(
    a: Seq<DatumVal>,
    b: Seq<DatumVal>,
    c: Seq<DatumVal>,
    desc: Seq<bool>,
)
    requires
        key_le(a, b, desc),
        key_le(b, c, desc),
        a.len() == desc.len(),
        b.len() == desc.len(),
        c.len() == desc.len(),
    ensures
        key_le(a, c, desc),
    decreases a.len(),
{
    if a.len() > 0 {
        let a0 = a[0];
        let b0 = b[0];
        let c0 = c[0];
        if datum_le(a0, b0) && datum_le(b0, a0) && datum_le(b0, c0) && datum_le(c0, b0) {
            crate::codec::lemma_datum_le_trans(a0, b0, c0);
            crate::codec::lemma_datum_le_trans(c0, b0, a0);
            lemma_key_le_trans(a.drop_first(), b.drop_first(), c.drop_first(), desc.drop_first());
        } else {
            if datum_le(a0, b0) && datum_le(b0, c0) {
                crate::codec::lemma_datum_le_trans(a0, b0, c0);
            }
            if datum_le(c0, a0) && datum_le(a0, b0) {
                crate::codec::lemma_datum_le_trans(c0, a0, b0);
            }
            if datum_le(b0, a0) && datum_le(a0, c0) {
                crate::codec::lemma_datum_le_trans(b0, a0, c0);
            }
            if datum_le(c0, b0) && datum_le(b0, a0) {
                crate::codec::lemma_datum_le_trans(c0, b0, a0);
            }
            if datum_le(b0, c0) && datum_le(c0, a0) {
                crate::codec::lemma_datum_le_trans(b0, c0, a0);
            }
            if datum_le(a0, c0) && datum_le(c0, b0) {
                crate::codec::lemma_datum_le_trans(a0, c0, b0);
            }
        }
    }
}

/// In a sorted buffer every earlier row's key precedes the last one's.
proof fn lemma_sorted_le_last(s: Seq<SortRow>, desc: Seq<bool>)
    requires
        buf_sorted(s, desc),
        key_lens_ok(s, desc),
        s.len() > 0,
    ensures
        forall|i: int|
            0 <= i < s.len() - 1 ==> key_le(
                datums_view(#[trigger] s[i].key@),
                datums_view(s.last().key@),
                desc,
            ),
    decreases s.len(),
{
    if s.len() > 2 {
        let prev = s.drop_last();
        assert(forall|i: int| 0 <= i < prev.len() ==> #[trigger] prev[i] == s[i]);
        lemma_sorted_le_last(prev, desc);
        assert forall|i: int| 0 <= i < s.len() - 1 implies key_le(
            datums_view(#[trigger] s[i].key@),
            datums_view(s.last().key@),
            desc,
        ) by {
            if i < s.len() - 2 {
                assert(key_le(
                    datums_view(prev[i].key@),
                    datums_view(prev.last().key@),
                    desc,
                ));
                assert(prev.last() == s[s.len() - 2]);
                lemma_key_le_trans(
                    datums_view(s[i].key@),
                    datums_view(s[s.len() - 2].key@),
                    datums_view(s.last().key@),
                    desc,
                );
            }
        }
    }
}

/// The first buffer position whose key does not precede `item`'s key:
/// everything before it precedes `item`, and ties keep arrival order.
fn find_insert_pos(buf: &Vec<SortRow>, item: &SortRow, desc: &Vec<bool>) -> (p: usize)
    ensures
        p <= buf@.len(),
        forall|j: int|
            0 <= j < p ==> key_le(datums_view(#[trigger] buf@[j].key@), datums_view(item.key@), desc@),
        p < buf@.len() ==> !key_le(datums_view(buf@[p as int].key@), datums_view(item.key@), desc@),
{
    let n = buf.len();
    let mut i: usize = 0;
    while i < n
        invariant
            i <= n,
            n == buf@.len(),
            forall|j: int|
                0 <= j < i ==> key_le(
                    datums_view(#[trigger] buf@[j].key@),
                    datums_view(item.key@),
                    desc@,
                ),
        decreases n - i,
    {
        if !key_le_exec(&buf[i].key, &item.key, desc) {
            return i;
        }
        i = i + 1;
    }
    n
}

/// Inserts `item` into the sorted buffer, keeping it sorted; when the
/// buffer would exceed `limit`, the worst row of buffer-plus-item is
/// dropped: the contents are exactly the old rows plus the new one,
/// minus one row whose key no kept row exceeds.
fn insert_bounded(buf: &mut Vec<SortRow>, item: SortRow, limit: usize, desc: &Vec<bool>)
    requires
        buf_sorted(old(buf)@, desc@),
        key_lens_ok(old(buf)@, desc@),
        item.key@.len() == desc@.len(),
        old(buf)@.len() <= limit,
        limit >= 1,
    ensures
        buf_sorted(final(buf)@, desc@),
        key_lens_ok(final(buf)@, desc@),
        final(buf)@.len() == if old(buf)@.len() < limit {
            old(buf)@.len() + 1
        } else {
            limit as nat
        },
        old(buf)@.len() < limit ==> final(buf)@.to_multiset() == old(buf)@.to_multiset().insert(
            item,
        ),
        old(buf)@.len() >= limit ==> exists|w: SortRow|
            {
                &&& final(buf)@.to_multiset().insert(w) == old(buf)@.to_multiset().insert(item)
                &&& forall|j: int|
                    0 <= j < final(buf)@.len() ==> key_le(
                        datums_view((#[trigger] final(buf)@[j]).key@),
                        datums_view(w.key@),
                        desc@,
                    )
            },
{
    let p = find_insert_pos(buf, &item, desc);
    let ghost s1 = buf@;
    let ghost pos = p as int;
    buf.insert(p, item);
    proof {
        s1.insert_ensures(pos, item);
        if pos < s1.len() {
            lemma_key_le_total(datums_view(s1[pos].key@), datums_view(item.key@), desc@);
        }
        let s2 = buf@;
        assert forall|i: int| 0 <= i < s2.len() - 1 implies key_le(
            datums_view(#[trigger] s2[i].key@),
            datums_view(s2[i + 1].key@),
            desc@,
        ) by {
            if i < pos - 1 {
                assert(s2[i] == s1[i]);
                assert(s2[i + 1] == s1[i + 1]);
            } else if i == pos - 1 {
                assert(s2[i] == s1[i]);
                assert(s2[i + 1] == item);
            } else if i == pos {
                assert(s2[i] == item);
                assert(s2[i + 1] == s1[i]);
            } else {
                assert(s2[i] == s1[i - 1]);
                assert(s2[i + 1] == s1[i]);
            }
        }
    }
    proof {
        let s2 = buf@;
        assert(forall|i: int| 0 <= i < s2.len() ==> (#[trigger] s2[i]).key@.len() == desc@.len())
            by {
            assert(forall|i: int|
                0 <= i < s2.len() ==> #[trigger] s2[i] == (if i < pos {
                    s1[i]
                } else if i == pos {
                    item
                } else {
                    s1[i - 1]
                }));
        }
        s2.to_multiset_ensures();
        s1.to_multiset_ensures();
        assert(s2.remove(pos) =~= s1) by {
            s2.remove_ensures(pos);
        }
        assert(s2[pos] == item);
        assert(s1.to_multiset() =~= s2.to_multiset().remove(item));
        assert(s2.to_multiset().contains(item));
        assert(s2.to_multiset() =~= s1.to_multiset().insert(item));
    }
    if buf.len() > limit {
        let ghost s2 = buf@;
        buf.pop();
        proof {
            assert(buf@ =~= s2.drop_last());
            assert(forall|i: int| 0 <= i < buf@.len() ==> #[trigger] buf@[i] == s2[i]);
            s2.to_multiset_ensures();
            let w = s2.last();
            assert(buf@ =~= s2.remove(s2.len() - 1)) by {
                s2.remove_ensures(s2.len() - 1);
            }
            assert(buf@.to_multiset() =~= s2.to_multiset().remove(w));
            assert(s2.to_multiset().contains(w));
            assert(buf@.to_multiset().insert(w) =~= s2.to_multiset());
            assert(buf@.to_multiset().insert(w) == s1.to_multiset().insert(item));
            lemma_sorted_le_last(s2, desc@);
            assert(forall|j: int|
                0 <= j < buf@.len() ==> key_le(
                    datums_view((#[trigger] buf@[j]).key@),
                    datums_view(w.key@),
                    desc@,
                ));
        }
    }
}

/// Pulls every upstream row, keeps the best `limit` of them by the
/// ORDER BY key, and emits them in sorted order after exhaustion.
pub struct TopNExecutor<Src> {
    pub order_exprs: Vec<Expr>,
    pub order_desc: Vec<bool>,
    pub limit: usize,
    pub related_cols_offset: Vec<usize>,
    pub buf: Vec<SortRow>,
    pub executed: bool,
    pub eval_ctx: EvalContext,
    pub source: Src,
}

impl<Src: Executor> TopNExecutor<Src> {
    /// Well-formedness: the buffer is sorted and bounded, untouched
    /// before execution, and the upstream is well formed.
    pub open spec fn wf(&self) -> bool {
        &&& buf_sorted(self.buf@, self.order_desc@)
        &&& key_lens_ok(self.buf@, self.order_desc@)
        &&& self.order_exprs@.len() == self.order_desc@.len()
        &&& self.buf@.len() <= self.limit
        &&& (!self.executed ==> self.buf@.len() == 0)
        &&& self.source.inv()
    }

    /// Builds the operator, extracting the column offsets the ORDER BY
    /// expressions read; fails on a malformed expression tree.
    pub fn new(
        limit: usize,
        order_exprs: Vec<Expr>,
        order_desc: Vec<bool>,
        cols_len: usize,
        source: Src,
    ) -> (r: Result<TopNExecutor<Src>, ExecError>)
        requires
            order_desc@.len() == order_exprs@.len(),
            source.inv(),
        ensures
            match r {
                Ok(t) => {
                    &&& t.wf()
                    &&& !t.executed
                    &&& t.limit == limit
                    &&& t.order_desc@ == order_desc@
                    &&& t.source == source
                    &&& exprs_first_err(order_exprs@, cols_len) is None
                },
                Err(e) => exprs_first_err(order_exprs@, cols_len) == Some(e),
            },
    {
        let mut visitor = ExprColumnRefVisitor::new(cols_len);
        match visitor.batch_visit(order_exprs.as_slice()) {
            Ok(()) => Ok(
                TopNExecutor {
                    order_exprs,
                    order_desc,
                    limit,
                    related_cols_offset: visitor.column_offsets(),
                    buf: Vec::new(),
                    executed: false,
                    eval_ctx: EvalContext::new(),
                    source,
                },
            ),
            Err(e) => Err(e),
        }
    }

    /// Evaluates the ORDER BY key of one scanned row.
    fn key_of(&self, datums: &Vec<Datum>) -> (r: Result<Vec<Datum>, ExecError>)
        ensures
            match r {
                Ok(k) => {
                    &&& k@.len() == self.order_exprs@.len()
                    &&& forall|i: int|
                        0 <= i < self.order_exprs@.len() ==> #[trigger] crate::expr::spec_eval(
                            self.order_exprs@[i],
                            datums_view(datums@),
                        ) == Ok::<DatumVal, ExecError>(k@[i]@)
                },
                Err(e) => exists|i: int|
                    {
                        &&& 0 <= i < self.order_exprs@.len()
                        &&& #[trigger] crate::expr::spec_eval(
                            self.order_exprs@[i],
                            datums_view(datums@),
                        ) == Err::<DatumVal, ExecError>(e)
                        &&& forall|j: int|
                            0 <= j < i ==> #[trigger] crate::expr::spec_eval(
                                self.order_exprs@[j],
                                datums_view(datums@),
                            ) is Ok
                    },
            },
    {
        let mut key: Vec<Datum> = Vec::new();
        let n = self.order_exprs.len();
        let mut i: usize = 0;
        while i < n
            invariant
                i <= n,
                n == self.order_exprs@.len(),
                key@.len() == i,
                forall|k2: int|
                    0 <= k2 < i ==> #[trigger] crate::expr::spec_eval(
                        self.order_exprs@[k2],
                        datums_view(datums@),
                    ) == Ok::<DatumVal, ExecError>(key@[k2]@),
            decreases n - i,
        {
            match eval_expr(&self.order_exprs[i], datums) {
                Ok(d) => {
                    key.push(d);
                },
                Err(e) => {
                    return Err(e);
                },
            }
            i = i + 1;
        }
        Ok(key)
    }

    /// On the first call, drains the upstream entirely into the
    /// bounded sorted buffer; afterwards emits the kept rows in sorted
    /// order, best first, then reports end-of-stream.
    pub fn next_row(&mut self) -> (r: Result<Option<Row>, ExecError>)
        requires
            old(self).wf(),
        ensures
            final(self).wf(),
            final(self).order_desc@ == old(self).order_desc@,
            final(self).limit == old(self).limit,
            final(self).source.remaining() + final(self).buf@.len() <= old(
                self,
            ).source.remaining() + old(self).buf@.len(),
            r matches Ok(Some(_)) ==> final(self).executed && final(self).source.remaining()
                + final(self).buf@.len() < old(self).source.remaining() + old(self).buf@.len(),
            old(self).executed ==> match r {
                Ok(Some(rw)) => {
                    &&& old(self).buf@.len() > 0
                    &&& rw == old(self).buf@[0].row
                    &&& final(self).buf@ == old(self).buf@.drop_first()
                },
                Ok(None) => old(self).buf@.len() == 0,
                Err(_) => false,
            },
    {
        if !self.executed {
            self.executed = true;
            let ghost r0 = self.source.remaining();
            loop
                invariant
                    self.wf(),
                    self.executed,
                    !old(self).executed,
                    self.limit == old(self).limit,
                    self.order_desc@ == old(self).order_desc@,
                    self.order_exprs@ == old(self).order_exprs@,
                    self.source.remaining() + self.buf@.len() <= r0,
                    r0 == old(self).source.remaining(),
                decreases self.source.remaining(),
            {
                match self.source.next() {
                    Ok(Some(row)) => {
                        match row.take_origin() {
                            Ok(cols) => {
                                if self.limit == 0 {
                                    continue;
                                }
                                if let Err(e) = check_offsets(
                                    &self.related_cols_offset,
                                    cols.cols_len(),
                                ) {
                                    return Err(e);
                                }
                                let datums = match cols.inflate_cols_with_offsets(
                                    &self.eval_ctx,
                                    self.related_cols_offset.as_slice(),
                                ) {
                                    Ok(d) => d,
                                    Err(e) => {
                                        return Err(e);
                                    },
                                };
                                let key = match self.key_of(&datums) {
                                    Ok(k) => k,
                                    Err(e) => {
                                        return Err(e);
                                    },
                                };
                                insert_bounded(
                                    &mut self.buf,
                                    SortRow { key, row: Row::Origin(cols) },
                                    self.limit,
                                    &self.order_desc,
                                );
                            },
                            Err(e) => {
                                return Err(e);
                            },
                        }
                    },
                    Ok(None) => {
                        break;
                    },
                    Err(e) => {
                        return Err(e);
                    },
                }
            }
            self.executed = true;
        }
        if self.buf.len() > 0 {
            let ghost s2 = self.buf@;
            let sr = self.buf.remove(0);
            proof {
                s2.remove_ensures(0);
                assert(self.buf@ =~= s2.drop_first());
                assert(forall|i: int|
                    0 <= i < self.buf@.len() ==> #[trigger] self.buf@[i] == s2[i + 1]);
            }
            Ok(Some(sr.row))
        } else {
            Ok(None)
        }
    }
}

/// Checks that every collected offset indexes into `cols_len` declared
/// columns, failing with the first offset that does not.
pub fn check_offsets(offsets: &Vec<usize>, cols_len: usize) -> (r: Result<(), ExecError>)
    ensures
        r is Ok <==> (forall|k: int| 0 <= k < offsets@.len() ==> offsets@[k] < cols_len),
        r matches Err(e) ==> e matches ExecError::OffsetOutOfRange { cols_len: c, .. }
            && c == cols_len,
{
    let n = offsets.len();
    let mut i: usize = 0;
    while i < n
        invariant
            i <= n,
            n == offsets@.len(),
            forall|k: int| 0 <= k < i ==> offsets@[k] < cols_len,
        decreases n - i,
    {
        if offsets[i] >= cols_len {
            return Err(ExecError::OffsetOutOfRange { offset: offsets[i] as u64, cols_len });
        }
        i = i + 1;
    }
    Ok(())
}

impl<Src: Executor> Executor for TopNExecutor<Src> {
    type Storage = Src::Storage;

    open spec fn inv(&self) -> bool {
        self.wf()
    }

    open spec fn remaining(&self) -> nat {
        self.source.remaining() + self.buf@.len()
    }

    open spec fn len_of_columns(&self) -> usize {
        self.source.len_of_columns()
    }

    open spec fn pending_warnings(&self) -> Option<EvalWarnings> {
        self.source.pending_warnings()
    }

    fn next(&mut self) -> (r: Result<Option<Row>, ExecError>) {
        self.next_row()
    }

    fn collect_exec_stats(&mut self, dest: &mut ExecuteStats) {
        self.source.collect_exec_stats(dest);
    }

    fn collect_storage_stats(&mut self, dest: &mut Src::Storage) {
        self.source.collect_storage_stats(dest);
    }

    fn get_len_of_columns(&self) -> usize {
        self.source.get_len_of_columns()
    }

    fn take_eval_warnings(&mut self) -> Option<EvalWarnings> {
        self.source.take_eval_warnings()
    }

    fn take_scanned_range(&mut self) -> IntervalRange {
        self.source.take_scanned_range()
    }
}

} // verus!
