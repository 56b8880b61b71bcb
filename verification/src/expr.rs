//! Serialized expression trees: the column-reference extraction pass
//! that decides which columns a query actually reads, and the entry
//! point that evaluates a tree against one inflated row.
//!
//! A column-reference node stores its column offset as a signed 64-bit
//! big-endian integer in its value bytes; an offset at or past the
//! declared column count marks a malformed plan.

use vstd::prelude::*;

verus! {

broadcast use vstd::std_specs::vec::axiom_vec_index_decreases;

use crate::ExecError;
use crate::codec::{Datum, DatumVal, u64_from_be, copy_datum, read_i64};
use crate::row::datum_res_view;

/// The node kinds the executor core distinguishes: a column reference,
/// the literal kinds, and function application.
#[derive(Clone, Copy, Debug, PartialEq, Eq, Structural)]
pub enum ExprType {
    ColumnRef,
    Int64,
    Uint64,
    Bytes,
    Null,
    ScalarFunc,
}

/// One node of a serialized expression tree.
#[derive(Debug)]
pub struct Expr {
    pub tp: ExprType,
    pub val: Vec<u8>,
    pub children: Vec<Expr>,
}

/// The signed value stored in a node's value bytes.
pub open spec fn val_i64(e: Expr) -> i64 {
    u64_from_be(e.val@) as i64
}

/// Every column offset referenced anywhere in the tree.
pub open spec fn expr_offsets(e: Expr) -> Set<int>
    decreases e,
{
    if e.tp == ExprType::ColumnRef {
        if e.val@.len() >= 8 {
            set![val_i64(e) as int]
        } else {
            Set::<int>::empty()
        }
    } else {
        exprs_offsets(e.children@)
    }
}

/// Every column offset referenced in a list of trees.
pub open spec fn exprs_offsets(s: Seq<Expr>) -> Set<int>
    decreases s,
{
    if s.len() == 0 {
        Set::<int>::empty()
    } else {
        expr_offsets(s[0]) + exprs_offsets(s.drop_first())
    }
}

/// The first failure a traversal of the tree meets: value bytes too
/// short for an offset, or an offset out of range for `cols_len`.
pub open spec fn expr_first_err(e: Expr, cols_len: usize) -> Option<ExecError>
    decreases e,
{
    if e.tp == ExprType::ColumnRef {
        if e.val@.len() < 8 {
            Some(ExecError::Corrupted)
        } else if val_i64(e) < 0 || val_i64(e) >= cols_len {
            Some(ExecError::OffsetOutOfRange { offset: val_i64(e) as u64, cols_len })
        } else {
            None
        }
    } else {
        exprs_first_err(e.children@, cols_len)
    }
}

/// The first failure over a list of trees, in list order.
pub open spec fn exprs_first_err(s: Seq<Expr>, cols_len: usize) -> Option<ExecError>
    decreases s,
{
    if s.len() == 0 {
        None
    } else {
        match expr_first_err(s[0], cols_len) {
            Some(e) => Some(e),
            None => exprs_first_err(s.drop_first(), cols_len),
        }
    }
}

/// The offsets a traversal records before it stops: all of a valid
/// column reference's offset, nothing of an invalid one, and for any
/// other node its children's recordings up to the first failure.
pub open spec fn expr_offsets_upto(e: Expr, cols_len: usize) -> Set<int>
    decreases e,
{
    if e.tp == ExprType::ColumnRef {
        if e.val@.len() >= 8 && 0 <= val_i64(e) && val_i64(e) < cols_len {
            set![val_i64(e) as int]
        } else {
            Set::<int>::empty()
        }
    } else {
        exprs_offsets_upto(e.children@, cols_len)
    }
}

/// The offsets recorded over a list of trees up to the first failure.
pub open spec fn exprs_offsets_upto(s: Seq<Expr>, cols_len: usize) -> Set<int>
    decreases s,
{
    if s.len() == 0 {
        Set::<int>::empty()
    } else if expr_first_err(s[0], cols_len) is None {
        expr_offsets_upto(s[0], cols_len) + exprs_offsets_upto(s.drop_first(), cols_len)
    } else {
        expr_offsets_upto(s[0], cols_len)
    }
}

/// With an error-free prefix, the recorded offsets split at the prefix.
pub proof fn lemma_exprs_upto_skip(s: Seq<Expr>, i: int, cols_len: usize)
    requires
        0 <= i <= s.len(),
        exprs_first_err(s.subrange(0, i), cols_len) is None,
    ensures
        exprs_offsets_upto(s, cols_len) == exprs_offsets_upto(s.subrange(0, i), cols_len)
            + exprs_offsets_upto(s.skip(i), cols_len),
    decreases i,
{
    if i == 0 {
        assert(s.skip(0) =~= s);
        assert(s.subrange(0, 0).len() == 0);
        assert(exprs_offsets_upto(s.subrange(0, 0), cols_len) + exprs_offsets_upto(s, cols_len)
            =~= exprs_offsets_upto(s, cols_len));
    } else {
        assert(s.subrange(0, i)[0] == s[0]);
        assert(expr_first_err(s[0], cols_len) is None);
        assert(s.subrange(0, i).drop_first() =~= s.drop_first().subrange(0, i - 1));
        lemma_exprs_upto_skip(s.drop_first(), i - 1, cols_len);
        assert(s.drop_first().skip(i - 1) =~= s.skip(i));
        assert(exprs_offsets_upto(s, cols_len) =~= exprs_offsets_upto(s.subrange(0, i), cols_len)
            + exprs_offsets_upto(s.skip(i), cols_len));
    }
}

/// When a tree has no failure, the recorded offsets are all of them.
pub proof fn lemma_offsets_upto_complete(e: Expr, cols_len: usize)
    requires
        expr_first_err(e, cols_len) is None,
    ensures
        expr_offsets_upto(e, cols_len) == expr_offsets(e),
    decreases e,
{
    if e.tp == ExprType::ColumnRef {
        assert(expr_offsets_upto(e, cols_len) =~= expr_offsets(e));
    } else {
        lemma_exprs_offsets_upto_complete(e.children@, cols_len);
    }
}

/// When a list of trees has no failure, the recordings are complete.
pub proof fn lemma_exprs_offsets_upto_complete(s: Seq<Expr>, cols_len: usize)
    requires
        exprs_first_err(s, cols_len) is None,
    ensures
        exprs_offsets_upto(s, cols_len) == exprs_offsets(s),
    decreases s,
{
    if s.len() == 0 {
        assert(exprs_offsets_upto(s, cols_len) =~= exprs_offsets(s));
    } else {
        lemma_offsets_upto_complete(s[0], cols_len);
        lemma_exprs_offsets_upto_complete(s.drop_first(), cols_len);
        assert(exprs_offsets_upto(s, cols_len) =~= exprs_offsets(s));
    }
}

/// With an error-free prefix, the first error of the whole list is the
/// first error past the prefix.
pub proof fn lemma_exprs_first_err_skip(s: Seq<Expr>, i: int, cols_len: usize)
    requires
        0 <= i <= s.len(),
        exprs_first_err(s.subrange(0, i), cols_len) is None,
    ensures
        exprs_first_err(s, cols_len) == exprs_first_err(s.skip(i), cols_len),
    decreases i,
{
    if i == 0 {
        assert(s.skip(0) =~= s);
    } else {
        assert(s.subrange(0, i)[0] == s[0]);
        assert(expr_first_err(s[0], cols_len) is None);
        assert(s.subrange(0, i).drop_first() =~= s.drop_first().subrange(0, i - 1));
        lemma_exprs_first_err_skip(s.drop_first(), i - 1, cols_len);
        assert(s.drop_first().skip(i - 1) =~= s.skip(i));
    }
}

/// The offsets of a one-longer prefix add the next tree's offsets.
pub proof fn lemma_exprs_offsets_snoc(s: Seq<Expr>)
    requires
        s.len() > 0,
    ensures
        exprs_offsets(s) == exprs_offsets(s.drop_last()) + expr_offsets(s.last()),
    decreases s,
{
    if s.len() == 1 {
        assert(s.drop_last() =~= Seq::<Expr>::empty());
        assert(s.drop_first() =~= Seq::<Expr>::empty());
        assert(exprs_offsets(s) =~= exprs_offsets(s.drop_last()) + expr_offsets(s.last()));
    } else {
        lemma_exprs_offsets_snoc(s.drop_first());
        assert(s.drop_first().drop_last() =~= s.drop_last().drop_first());
        assert(s.drop_first().last() == s.last());
        assert(s.drop_last()[0] == s[0]);
        assert(exprs_offsets(s) =~= exprs_offsets(s.drop_last()) + expr_offsets(s.last()));
    }
}

/// Distinctness of the recorded offsets.
pub open spec fn offsets_distinct(s: Seq<usize>) -> bool {
    forall|i: int, j: int| 0 <= i < j < s.len() ==> s[i] != s[j]
}

/// The recorded offsets, as a set.
pub open spec fn offsets_set(s: Seq<usize>) -> Set<int> {
    Set::new(|x: int| exists|k: int| 0 <= k < s.len() && s[k] as int == x)
}

/// Records `off` once: appends it unless already present.
fn record_offset(v: &mut Vec<usize>, off: usize)
    requires
        offsets_distinct(old(v)@),
    ensures
        offsets_distinct(final(v)@),
        offsets_set(final(v)@) == offsets_set(old(v)@).insert(off as int),
        final(v)@ == old(v)@ || final(v)@ == old(v)@.push(off),
{
    let n = v.len();
    let mut i: usize = 0;
    while i < n
        invariant
            i <= n,
            n == v@.len(),
            v@ == old(v)@,
            offsets_distinct(v@),
            forall|k: int| 0 <= k < i ==> v@[k] != off,
        decreases n - i,
    {
        if v[i] == off {
            proof {
                assert(v@[i as int] as int == off as int);
                assert(offsets_set(v@).contains(off as int));
                assert(offsets_set(v@) =~= offsets_set(v@).insert(off as int));
            }
            return;
        }
        i = i + 1;
    }
    let ghost s1 = v@;
    v.push(off);
    proof {
        let s2 = v@;
        assert forall|x: int| #[trigger] offsets_set(s2).contains(x) implies offsets_set(
            s1,
        ).insert(off as int).contains(x) by {
            let k = choose|k: int| 0 <= k < s2.len() && s2[k] as int == x;
            if k < s1.len() {
                assert(s1[k] as int == x);
            } else {
                assert(x == off as int);
            }
        }
        assert forall|x: int| #[trigger] offsets_set(s1).insert(off as int).contains(x)
            implies offsets_set(s2).contains(x) by {
            if x == off as int {
                assert(s2[s1.len() as int] as int == x);
            } else {
                let k = choose|k: int| 0 <= k < s1.len() && s1[k] as int == x;
                assert(s2[k] as int == x);
            }
        }
        assert(offsets_set(s2) =~= offsets_set(s1).insert(off as int));
    }
}

/// Walks expression trees before execution and collects the distinct
/// column offsets they reference, so that only those columns are
/// inflated.
#[derive(Clone, Debug)]
pub struct ExprColumnRefVisitor {
    pub cols_offset: Vec<usize>,
    pub cols_len: usize,
}

impl ExprColumnRefVisitor {
    pub open spec fn wf(&self) -> bool {
        &&& offsets_distinct(self.cols_offset@)
        &&& forall|k: int|
            0 <= k < self.cols_offset@.len() ==> #[trigger] self.cols_offset@[k] < self.cols_len
    }

    pub open spec fn offsets(&self) -> Set<int> {
        offsets_set(self.cols_offset@)
    }

    pub fn new(cols_len: usize) -> (r: ExprColumnRefVisitor)
        ensures
            r.wf(),
            r.cols_len == cols_len,
            r.offsets() == Set::<int>::empty(),
            r.cols_offset@.len() == 0,
    {
        let r = ExprColumnRefVisitor { cols_offset: Vec::new(), cols_len };
        proof {
            assert(r.offsets() =~= Set::<int>::empty());
        }
        r
    }

    /// Visits one tree: records the offset of every column-reference
    /// node, recursing through other nodes, and fails on the first
    /// malformed or out-of-range reference.
    pub fn visit(&mut self, expr: &Expr) -> (r: Result<(), ExecError>)
        requires
            old(self).wf(),
        ensures
            final(self).wf(),
            final(self).cols_len == old(self).cols_len,
            r == match expr_first_err(*expr, old(self).cols_len) {
                None => Ok::<(), ExecError>(()),
                Some(err) => Err::<(), ExecError>(err),
            },
            final(self).offsets() == old(self).offsets() + expr_offsets_upto(
                *expr,
                old(self).cols_len,
            ),
        decreases *expr,
    {
        if expr.tp == ExprType::ColumnRef {
            match read_i64(&expr.val) {
                Err(e) => {
                    proof {
                        assert(expr_offsets_upto(*expr, old(self).cols_len) =~= Set::<
                            int,
                        >::empty());
                        assert(self.offsets() =~= old(self).offsets() + expr_offsets_upto(
                            *expr,
                            old(self).cols_len,
                        ));
                    }
                    Err(e)
                },
                Ok(x) => {
                    if x < 0 || x as u64 >= self.cols_len as u64 {
                        proof {
                            assert(expr_offsets_upto(*expr, old(self).cols_len) =~= Set::<
                                int,
                            >::empty());
                            assert(self.offsets() =~= old(self).offsets() + expr_offsets_upto(
                                *expr,
                                old(self).cols_len,
                            ));
                        }
                        Err(ExecError::OffsetOutOfRange {
                            offset: x as u64,
                            cols_len: self.cols_len,
                        })
                    } else {
                        record_offset(&mut self.cols_offset, x as usize);
                        proof {
                            assert(expr_offsets_upto(*expr, old(self).cols_len) =~= set![x as int]);
                            assert(self.offsets() =~= old(self).offsets() + expr_offsets_upto(
                                *expr,
                                old(self).cols_len,
                            ));
                        }
                        Ok(())
                    }
                },
            }
        } else {
            let n = expr.children.len();
            let mut i: usize = 0;
            while i < n
                invariant
                    self.wf(),
                    expr.tp != ExprType::ColumnRef,
                    i <= n,
                    n == expr.children@.len(),
                    self.cols_len == old(self).cols_len,
                    exprs_first_err(expr.children@.subrange(0, i as int), old(self).cols_len)
                        is None,
                    self.offsets() == old(self).offsets() + exprs_offsets(
                        expr.children@.subrange(0, i as int),
                    ),
                decreases n - i,
            {
                proof {
                    assert(decreases_to!(*expr => expr.children));
                    assert(decreases_to!(expr.children => expr.children[i as int]));
                }
                let ghost pre = self.offsets();
                match self.visit(&expr.children[i]) {
                    Ok(()) => {},
                    Err(e) => {
                        proof {
                            lemma_exprs_first_err_skip(
                                expr.children@,
                                i as int,
                                old(self).cols_len,
                            );
                            let tail = expr.children@.skip(i as int);
                            assert(tail[0] == expr.children@[i as int]);
                            assert(expr_first_err(tail[0], old(self).cols_len) == Some(e));
                            assert(tail.len() > 0);
                            assert(exprs_first_err(tail, old(self).cols_len) == Some(e));
                            assert(exprs_first_err(expr.children@, old(self).cols_len) == Some(
                                e,
                            ));
                            lemma_exprs_upto_skip(expr.children@, i as int, old(self).cols_len);
                            assert(exprs_offsets_upto(tail, old(self).cols_len)
                                == expr_offsets_upto(tail[0], old(self).cols_len));
                            lemma_exprs_offsets_upto_complete(
                                expr.children@.subrange(0, i as int),
                                old(self).cols_len,
                            );
                            assert(self.offsets() =~= old(self).offsets() + expr_offsets_upto(
                                *expr,
                                old(self).cols_len,
                            ));
                        }
                        return Err(e);
                    },
                }
                i = i + 1;
                proof {
                    lemma_exprs_offsets_snoc(expr.children@.subrange(0, i as int));
                    assert(expr.children@.subrange(0, i as int).drop_last() =~= expr.children@
                        .subrange(0, i as int - 1));
                    assert(expr.children@.subrange(0, i as int).last() == expr.children@[
                    i as int - 1]);
                    lemma_offsets_upto_complete(expr.children@[i as int - 1], old(self).cols_len);
                    assert(self.offsets() =~= old(self).offsets() + exprs_offsets(
                        expr.children@.subrange(0, i as int),
                    ));
                    assert(expr.children@.subrange(0, i as int).subrange(0, i as int - 1)
                        =~= expr.children@.subrange(0, i as int - 1));
                    lemma_exprs_first_err_skip(
                        expr.children@.subrange(0, i as int),
                        i as int - 1,
                        old(self).cols_len,
                    );
                    let tail = expr.children@.subrange(0, i as int).skip(i as int - 1);
                    assert(expr_first_err(expr.children@[i as int - 1], old(self).cols_len)
                        is None);
                    assert(tail.len() == 1);
                    assert(tail[0] == expr.children@[i as int - 1]);
                    assert(tail.drop_first().len() == 0);
                    assert(exprs_first_err(tail.drop_first(), old(self).cols_len) is None);
                    assert(exprs_first_err(tail, old(self).cols_len) is None);
                }
            }
            proof {
                assert(expr.children@.subrange(0, n as int) =~= expr.children@);
                lemma_exprs_offsets_upto_complete(expr.children@, old(self).cols_len);
                assert(self.offsets() =~= old(self).offsets() + expr_offsets_upto(
                    *expr,
                    old(self).cols_len,
                ));
            }
            Ok(())
        }
    }

    /// Visits every tree in the list, merging all discovered offsets.
    pub fn batch_visit(&mut self, exprs: &[Expr]) -> (r: Result<(), ExecError>)
        requires
            old(self).wf(),
        ensures
            final(self).wf(),
            final(self).cols_len == old(self).cols_len,
            r == match exprs_first_err(exprs@, old(self).cols_len) {
                None => Ok::<(), ExecError>(()),
                Some(err) => Err::<(), ExecError>(err),
            },
            final(self).offsets() == old(self).offsets() + exprs_offsets_upto(
                exprs@,
                old(self).cols_len,
            ),
    {
        let n = exprs.len();
        let mut i: usize = 0;
        while i < n
            invariant
                self.wf(),
                i <= n,
                n == exprs@.len(),
                self.cols_len == old(self).cols_len,
                exprs_first_err(exprs@.subrange(0, i as int), old(self).cols_len) is None,
                self.offsets() == old(self).offsets() + exprs_offsets(
                    exprs@.subrange(0, i as int),
                ),
            decreases n - i,
        {
            match self.visit(&exprs[i]) {
                Ok(()) => {},
                Err(e) => {
                    proof {
                        lemma_exprs_first_err_skip(exprs@, i as int, old(self).cols_len);
                        let tail = exprs@.skip(i as int);
                        assert(tail[0] == exprs@[i as int]);
                        assert(expr_first_err(tail[0], old(self).cols_len) == Some(e));
                        assert(tail.len() > 0);
                        assert(exprs_first_err(tail, old(self).cols_len) == Some(e));
                        lemma_exprs_upto_skip(exprs@, i as int, old(self).cols_len);
                        assert(exprs_offsets_upto(tail, old(self).cols_len) == expr_offsets_upto(
                            tail[0],
                            old(self).cols_len,
                        ));
                        lemma_exprs_offsets_upto_complete(
                            exprs@.subrange(0, i as int),
                            old(self).cols_len,
                        );
                        assert(self.offsets() =~= old(self).offsets() + exprs_offsets_upto(
                            exprs@,
                            old(self).cols_len,
                        ));
                    }
                    return Err(e);
                },
            }
            i = i + 1;
            proof {
                lemma_exprs_offsets_snoc(exprs@.subrange(0, i as int));
                assert(exprs@.subrange(0, i as int).drop_last() =~= exprs@.subrange(
                    0,
                    i as int - 1,
                ));
                assert(exprs@.subrange(0, i as int).last() == exprs@[i as int - 1]);
                lemma_offsets_upto_complete(exprs@[i as int - 1], old(self).cols_len);
                assert(self.offsets() =~= old(self).offsets() + exprs_offsets(
                    exprs@.subrange(0, i as int),
                ));
                assert(exprs@.subrange(0, i as int).subrange(0, i as int - 1) =~= exprs@.subrange(
                    0,
                    i as int - 1,
                ));
                lemma_exprs_first_err_skip(
                    exprs@.subrange(0, i as int),
                    i as int - 1,
                    old(self).cols_len,
                );
                let tail = exprs@.subrange(0, i as int).skip(i as int - 1);
                assert(expr_first_err(exprs@[i as int - 1], old(self).cols_len) is None);
                assert(tail.len() == 1);
                assert(tail[0] == exprs@[i as int - 1]);
                assert(tail.drop_first().len() == 0);
                assert(exprs_first_err(tail.drop_first(), old(self).cols_len) is None);
                assert(exprs_first_err(tail, old(self).cols_len) is None);
            }
        }
        proof {
            assert(exprs@.subrange(0, n as int) =~= exprs@);
            lemma_exprs_offsets_upto_complete(exprs@, old(self).cols_len);
            assert(self.offsets() =~= old(self).offsets() + exprs_offsets_upto(
                exprs@,
                old(self).cols_len,
            ));
        }
        Ok(())
    }

    /// Hands the collected offsets out, distinct and unordered.
    pub fn column_offsets(self) -> (r: Vec<usize>)
        ensures
            r@ == self.cols_offset@,
            offsets_set(r@) == self.offsets(),
            self.wf() ==> offsets_distinct(r@) && forall|k: int|
                0 <= k < r@.len() ==> #[trigger] r@[k] < self.cols_len,
    {
        self.cols_offset
    }
}

/// What evaluating a tree against one inflated row yields: a column
/// reference reads its offset, a literal its embedded value, and any
/// other shape is unsupported in this core.
pub open spec fn spec_eval(e: Expr, row: Seq<DatumVal>) -> Result<DatumVal, ExecError> {
    if e.tp == ExprType::ColumnRef {
        if e.val@.len() < 8 {
            Err(ExecError::Corrupted)
        } else if val_i64(e) < 0 || val_i64(e) >= row.len() {
            Err(
                ExecError::OffsetOutOfRange {
                    offset: val_i64(e) as u64,
                    cols_len: row.len() as usize,
                },
            )
        } else {
            Ok(row[val_i64(e) as int])
        }
    } else if e.tp == ExprType::Int64 {
        if e.val@.len() < 8 {
            Err(ExecError::Corrupted)
        } else {
            Ok(DatumVal::I64(val_i64(e)))
        }
    } else if e.tp == ExprType::Uint64 {
        if e.val@.len() < 8 {
            Err(ExecError::Corrupted)
        } else {
            Ok(DatumVal::U64(u64_from_be(e.val@)))
        }
    } else if e.tp == ExprType::Bytes {
        Ok(DatumVal::Bytes(e.val@))
    } else if e.tp == ExprType::Null {
        Ok(DatumVal::Null)
    } else {
        Err(ExecError::UnsupportedExpr)
    }
}

/// Evaluates a tree against one inflated row, per `spec_eval`.
pub fn eval_expr(e: &Expr, row: &Vec<Datum>) -> (r: Result<Datum, ExecError>)
    ensures
        datum_res_view(r) == spec_eval(*e, crate::codec::datums_view(row@)),
{
    let ghost rowv = crate::codec::datums_view(row@);
    if e.tp == ExprType::ColumnRef {
        match read_i64(&e.val) {
            Err(err) => Err(err),
            Ok(x) => {
                if x < 0 || x as u64 >= row.len() as u64 {
                    Err(
                        ExecError::OffsetOutOfRange {
                            offset: #[verifier::truncate] (x as u64),
                            cols_len: row.len(),
                        },
                    )
                } else {
                    let d = copy_datum(&row[x as usize]);
                    proof {
                        assert(rowv[x as int] == row@[x as int]@);
                    }
                    Ok(d)
                }
            },
        }
    } else if e.tp == ExprType::Int64 {
        match read_i64(&e.val) {
            Err(err) => Err(err),
            Ok(x) => Ok(Datum::I64(x)),
        }
    } else if e.tp == ExprType::Uint64 {
        match read_i64(&e.val) {
            Err(err) => Err(err),
            Ok(x) => {
                proof {
                    let v = u64_from_be(e.val@);
                    assert((v as i64) as u64 == v) by (bit_vector);
                }
                Ok(Datum::U64(#[verifier::truncate] (x as u64)))
            },
        }
    } else if e.tp == ExprType::Bytes {
        Ok(Datum::Bytes(crate::codec::copy_bytes(&e.val)))
    } else if e.tp == ExprType::Null {
        Ok(Datum::Null)
    } else {
        Err(ExecError::UnsupportedExpr)
    }
}

} // verus!
