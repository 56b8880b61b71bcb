//! The dual row representation and the column-resolution policy.
//!
//! A scanned row (`OriginCols`) carries a sparse column-id-to-bytes
//! dictionary plus the shared declared-column schema; an aggregation
//! row (`AggCols`) carries computed values and an opaque suffix. Both
//! are unified behind `Row`. Wherever a column value must be produced,
//! one five-step policy applies: handle column, stored value, declared
//! default, NOT-NULL error, NULL.

use vstd::prelude::*;

verus! {

use std::sync::Arc;

use crate::ExecError;
use crate::codec::{Datum, DatumVal, datum_enc, datum_dec_exact, datums_enc, datums_view};
use crate::schema::{ColumnInfo, EvalContext};

/// Sparse mapping from column id to the raw encoded bytes stored for
/// that column. Ids are distinct; lookups are keyed, not positional.
#[derive(Clone, Debug)]
pub struct RowColsDict {
    pairs: Vec<(i64, Vec<u8>)>,
}

impl View for RowColsDict {
    type V = Seq<(i64, Seq<u8>)>;

    closed spec fn view(&self) -> Seq<(i64, Seq<u8>)> {
        self.pairs@.map_values(|p: (i64, Vec<u8>)| (p.0, p.1@))
    }
}

/// First value stored under `id`, searching from the front.
pub open spec fn dict_get(s: Seq<(i64, Seq<u8>)>, id: i64) -> Option<Seq<u8>>
    decreases s.len(),
{
    if s.len() == 0 {
        None
    } else if s[0].0 == id {
        Some(s[0].1)
    } else {
        dict_get(s.drop_first(), id)
    }
}

/// A dictionary is well formed when its column ids are distinct.
pub open spec fn dict_wf(s: Seq<(i64, Seq<u8>)>) -> bool {
    forall|i: int, j: int| 0 <= i < j < s.len() ==> s[i].0 != s[j].0
}

/// `dict_get` misses exactly when no entry carries the id.
pub proof fn lemma_dict_get_none(s: Seq<(i64, Seq<u8>)>, id: i64)
    ensures
        (dict_get(s, id) is None) <==> (forall|k: int| 0 <= k < s.len() ==> s[k].0 != id),
    decreases s.len(),
{
    if s.len() > 0 {
        lemma_dict_get_none(s.drop_first(), id);
        assert(forall|k: int|
            1 <= k < s.len() ==> (#[trigger] s[k]).0 == s.drop_first()[k - 1].0) by {
            assert(forall|k: int|
                1 <= k < s.len() ==> s[k] == #[trigger] s.drop_first()[k - 1]);
        }
        assert(forall|m: int|
            0 <= m < s.drop_first().len() ==> (#[trigger] s.drop_first()[m]).0 == s[m + 1].0);
        if s[0].0 == id {
            assert(!(forall|k: int| 0 <= k < s.len() ==> s[k].0 != id)) by {
                assert(s[0].0 == id);
            }
        } else {
            if dict_get(s.drop_first(), id) is Some {
                assert(exists|k: int|
                    0 <= k < s.drop_first().len() && #[trigger] s.drop_first()[k].0 == id);
                let k0 = choose|k: int|
                    0 <= k < s.drop_first().len() && #[trigger] s.drop_first()[k].0 == id;
                assert(s[k0 + 1].0 == id);
            }
        }
    }
}

impl RowColsDict {
    pub open spec fn wf(&self) -> bool {
        dict_wf(self@)
    }

    pub fn new() -> (r: RowColsDict)
        ensures
            r@ == Seq::<(i64, Seq<u8>)>::empty(),
            r.wf(),
    {
        let r = RowColsDict { pairs: Vec::new() };
        proof {
            assert(r@ =~= Seq::<(i64, Seq<u8>)>::empty());
        }
        r
    }

    /// Adds the stored bytes for a column not yet present.
    pub fn put(&mut self, id: i64, value: Vec<u8>)
        requires
            old(self).wf(),
            dict_get(old(self)@, id) is None,
        ensures
            final(self)@ == old(self)@ + seq![(id, value@)],
            final(self).wf(),
            dict_get(final(self)@, id) == Some(value@),
    {
        proof {
            lemma_dict_get_none(self@, id);
        }
        let ghost prev = self@;
        self.pairs.push((id, value));
        proof {
            assert(self@ =~= prev + seq![(id, value@)]);
            lemma_dict_get_last(self@, id, value@);
        }
    }

    /// Looks the column id up; `None` when the row stores nothing for it.
    pub fn get(&self, id: i64) -> (r: Option<&Vec<u8>>)
        ensures
            match r {
                Some(v) => dict_get(self@, id) == Some(v@),
                None => dict_get(self@, id) is None,
            },
    {
        let n = self.pairs.len();
        proof {
            assert(self@.skip(0) =~= self@);
        }
        let mut i: usize = 0;
        while i < n
            invariant
                i <= n,
                n == self.pairs@.len(),
                dict_get(self@, id) == dict_get(self@.skip(i as int), id),
            decreases n - i,
        {
            if self.pairs[i].0 == id {
                proof {
                    assert(self@.skip(i as int)[0] == self@[i as int]);
                }
                return Some(&self.pairs[i].1);
            }
            proof {
                assert(self@.skip(i as int)[0] == self@[i as int]);
                assert(self@.skip(i as int).drop_first() =~= self@.skip(i as int + 1));
            }
            i = i + 1;
        }
        proof {
            assert(self@.skip(n as int) =~= Seq::<(i64, Seq<u8>)>::empty());
        }
        None
    }

    pub fn len(&self) -> (r: usize)
        ensures
            r == self@.len(),
    {
        self.pairs.len()
    }
}

/// Resolves one column of a scanned row to its encoded byte value:
/// the handle column is synthesized from `handle`; otherwise the stored
/// value, then the declared default, then NULL is used, and a missing
/// NOT-NULL column with no default is an error carrying the column id
/// and the row handle.
pub open spec fn spec_resolve_binary(
    col: ColumnInfo,
    handle: i64,
    data: Seq<(i64, Seq<u8>)>,
) -> Result<Seq<u8>, ExecError> {
    if col.pk_handle {
        Ok(datum_enc(DatumVal::I64(handle)))
    } else {
        match dict_get(data, col.column_id) {
            Some(v) => Ok(v),
            None => match col.default_val {
                Some(d) => Ok(d@),
                None => if col.not_null {
                    Err(ExecError::MissingColumn { column_id: col.column_id, handle })
                } else {
                    Ok(datum_enc(DatumVal::Null))
                },
            },
        }
    }
}

/// The same five-step policy, resolved to a typed value: stored or
/// default bytes are decoded as one datum, and bytes that are no valid
/// encoding are a corruption error.
pub open spec fn spec_resolve_datum(
    col: ColumnInfo,
    handle: i64,
    data: Seq<(i64, Seq<u8>)>,
) -> Result<DatumVal, ExecError> {
    if col.pk_handle {
        Ok(DatumVal::I64(handle))
    } else {
        match dict_get(data, col.column_id) {
            Some(v) => match datum_dec_exact(v) {
                Some(d) => Ok(d),
                None => Err(ExecError::Corrupted),
            },
            None => match col.default_val {
                Some(dv) => match datum_dec_exact(dv@) {
                    Some(d) => Ok(d),
                    None => Err(ExecError::Corrupted),
                },
                None => if col.not_null {
                    Err(ExecError::MissingColumn { column_id: col.column_id, handle })
                } else {
                    Ok(DatumVal::Null)
                },
            },
        }
    }
}

/// The view of a byte-vector result, for stating contracts.
pub open spec fn bytes_res_view(r: Result<Vec<u8>, ExecError>) -> Result<Seq<u8>, ExecError> {
    match r {
        Ok(v) => Ok(v@),
        Err(e) => Err(e),
    }
}

/// The binary and the typed resolution path agree on every column: when
/// the bytes a column resolves to are a valid encoding, the typed path
/// yields exactly their decoding, and both paths fail alike. This holds
/// for every combination of handle column, stored value, declared
/// default, and missing NOT-NULL or nullable column.
pub proof fn lemma_resolution_paths_agree(col: ColumnInfo, handle: i64, data: Seq<(i64, Seq<u8>)>)
    requires
        match dict_get(data, col.column_id) {
            Some(v) => datum_dec_exact(v) is Some,
            None => match col.default_val {
                Some(d) => datum_dec_exact(d@) is Some,
                None => true,
            },
        },
    ensures
        match spec_resolve_binary(col, handle, data) {
            Ok(bs) => spec_resolve_datum(col, handle, data) == match datum_dec_exact(bs) {
                Some(d) => Ok(d),
                None => Err::<DatumVal, ExecError>(ExecError::Corrupted),
            },
            Err(e) => spec_resolve_datum(col, handle, data) == Err::<DatumVal, ExecError>(e),
        },
{
    crate::codec::lemma_datum_roundtrip(DatumVal::I64(handle), Seq::<u8>::empty());
    crate::codec::lemma_datum_roundtrip(DatumVal::Null, Seq::<u8>::empty());
    assert(datum_enc(DatumVal::I64(handle)) + Seq::<u8>::empty() =~= datum_enc(
        DatumVal::I64(handle),
    ));
    assert(datum_enc(DatumVal::Null) + Seq::<u8>::empty() =~= datum_enc(DatumVal::Null));
}

/// Resolves one column of a scanned row to encoded bytes, per the
/// five-step policy stated by `spec_resolve_binary`.
pub fn resolve_col_binary(col: &ColumnInfo, handle: i64, data: &RowColsDict) -> (r: Result<
    Vec<u8>,
    ExecError,
>)
    ensures
        bytes_res_view(r) == spec_resolve_binary(*col, handle, data@),
{
    if col.pk_handle {
        let mut out: Vec<u8> = Vec::new();
        crate::codec::encode_datum(&Datum::I64(handle), &mut out);
        assert(out@ =~= datum_enc(DatumVal::I64(handle)));
        Ok(out)
    } else {
        match data.get(col.column_id) {
            Some(v) => Ok(crate::codec::copy_bytes(v)),
            None => match &col.default_val {
                Some(d) => Ok(crate::codec::copy_bytes(d)),
                None => if col.not_null {
                    Err(ExecError::MissingColumn { column_id: col.column_id, handle })
                } else {
                    let mut out: Vec<u8> = Vec::new();
                    crate::codec::encode_datum(&Datum::Null, &mut out);
                    assert(out@ =~= datum_enc(DatumVal::Null));
                    Ok(out)
                },
            },
        }
    }
}

/// The view of a datum result, for stating contracts.
pub open spec fn datum_res_view(r: Result<Datum, ExecError>) -> Result<DatumVal, ExecError> {
    match r {
        Ok(d) => Ok(d@),
        Err(e) => Err(e),
    }
}

/// Resolves one column to a typed value, per the five-step policy
/// stated by `spec_resolve_datum`.
pub fn resolve_col_datum(col: &ColumnInfo, handle: i64, data: &RowColsDict) -> (r: Result<
    Datum,
    ExecError,
>)
    ensures
        datum_res_view(r) == spec_resolve_datum(*col, handle, data@),
{
    if col.pk_handle {
        Ok(Datum::I64(handle))
    } else {
        match data.get(col.column_id) {
            Some(v) => match crate::codec::decode_datum_exact(v) {
                Ok(d) => Ok(d),
                Err(_) => Err(ExecError::Corrupted),
            },
            None => match &col.default_val {
                Some(d) => match crate::codec::decode_datum_exact(d) {
                    Ok(d) => Ok(d),
                    Err(_) => Err(ExecError::Corrupted),
                },
                None => if col.not_null {
                    Err(ExecError::MissingColumn { column_id: col.column_id, handle })
                } else {
                    Ok(Datum::Null)
                },
            },
        }
    }
}

/// The bytes the `Ok` side of a resolution carries; empty under `Err`.
pub open spec fn ok_bytes(r: Result<Seq<u8>, ExecError>) -> Seq<u8> {
    match r {
        Ok(v) => v,
        Err(_) => Seq::<u8>::empty(),
    }
}

/// Concatenated resolved bytes of the columns at `offsets`, in that
/// order; meaningful when every listed column resolves.
pub open spec fn spec_binary_concat(
    cols: Seq<ColumnInfo>,
    offsets: Seq<u32>,
    handle: i64,
    data: Seq<(i64, Seq<u8>)>,
) -> Seq<u8>
    decreases offsets.len(),
{
    if offsets.len() == 0 {
        Seq::<u8>::empty()
    } else {
        ok_bytes(spec_resolve_binary(cols[offsets[0] as int], handle, data)) + spec_binary_concat(
            cols,
            offsets.drop_first(),
            handle,
            data,
        )
    }
}

/// The concatenation over `offsets` ends with its last column's bytes.
pub proof fn lemma_binary_concat_snoc(
    cols: Seq<ColumnInfo>,
    offsets: Seq<u32>,
    handle: i64,
    data: Seq<(i64, Seq<u8>)>,
)
    requires
        offsets.len() > 0,
    ensures
        spec_binary_concat(cols, offsets, handle, data) == spec_binary_concat(
            cols,
            offsets.drop_last(),
            handle,
            data,
        ) + ok_bytes(spec_resolve_binary(cols[offsets.last() as int], handle, data)),
    decreases offsets.len(),
{
    if offsets.len() == 1 {
        assert(offsets.drop_last() =~= Seq::<u32>::empty());
        assert(offsets.drop_first() =~= Seq::<u32>::empty());
        assert(spec_binary_concat(cols, offsets, handle, data) =~= spec_binary_concat(
            cols,
            offsets.drop_last(),
            handle,
            data,
        ) + ok_bytes(spec_resolve_binary(cols[offsets.last() as int], handle, data)));
    } else {
        lemma_binary_concat_snoc(cols, offsets.drop_first(), handle, data);
        assert(offsets.drop_first().drop_last() =~= offsets.drop_last().drop_first());
        assert(offsets.drop_first().last() == offsets.last());
        assert(offsets.drop_last()[0] == offsets[0]);
        assert(spec_binary_concat(cols, offsets, handle, data) =~= spec_binary_concat(
            cols,
            offsets.drop_last(),
            handle,
            data,
        ) + ok_bytes(spec_resolve_binary(cols[offsets.last() as int], handle, data)));
    }
}

/// A scanned-table row: the synthetic row handle, the sparse stored
/// column data, and the shared declared-column schema. Rows from one
/// scan share a single schema instance; it is never copied per row.
#[derive(Clone, Debug)]
pub struct OriginCols {
    pub handle: i64,
    pub data: RowColsDict,
    pub cols: Arc<Vec<ColumnInfo>>,
}

/// A row produced by an aggregation operator: the computed output
/// values in final column order, and an opaque suffix (typically the
/// encoded group key) appended verbatim on serialization.
#[derive(Clone, Debug)]
pub struct AggCols {
    suffix: Vec<u8>,
    value: Vec<Datum>,
}

impl AggCols {
    /// The views of the computed output values.
    pub closed spec fn value_view(&self) -> Seq<DatumVal> {
        datums_view(self.value@)
    }

    /// The opaque trailing bytes.
    pub closed spec fn suffix_view(&self) -> Seq<u8> {
        self.suffix@
    }

    /// Serializes the computed values in their own order and appends
    /// the suffix; output-offset lists do not apply to aggregation
    /// output, which is already in final column order.
    pub fn get_binary(&self) -> (r: Result<Vec<u8>, ExecError>)
        ensures
            match r {
                Ok(v) => v@ == datums_enc(self.value_view()) + self.suffix_view(),
                Err(_) => false,
            },
    {
        let mut out = crate::codec::encode_values(&self.value);
        let mut tail = crate::codec::copy_bytes(&self.suffix);
        out.append(&mut tail);
        Ok(out)
    }
}

/// One logical result row, whatever operator produced it.
#[derive(Clone, Debug)]
pub enum Row {
    Origin(OriginCols),
    Agg(AggCols),
}

impl OriginCols {
    /// The declared columns, in the order the plan requested.
    pub open spec fn col_seq(&self) -> Seq<ColumnInfo> {
        self.cols@
    }

    pub fn new(handle: i64, data: RowColsDict, cols: Arc<Vec<ColumnInfo>>) -> (r: OriginCols)
        ensures
            r.handle == handle,
            r.data == data,
            r.col_seq() == cols@,
    {
        OriginCols { handle, data, cols }
    }

    /// Number of declared columns.
    pub fn cols_len(&self) -> (r: usize)
        ensures
            r == self.col_seq().len(),
    {
        self.cols.len()
    }

    /// Resolves every declared column, in declared order, to one
    /// encoded byte value each; fails with the first column's error.
    pub fn get_binary_cols(&self) -> (r: Result<Vec<Vec<u8>>, ExecError>)
        ensures
            match r {
                Ok(v) => {
                    &&& v@.len() == self.col_seq().len()
                    &&& forall|k: int|
                        0 <= k < v@.len() ==> #[trigger] spec_resolve_binary(
                            self.col_seq()[k],
                            self.handle,
                            self.data@,
                        ) == Ok::<Seq<u8>, ExecError>(v@[k]@)
                },
                Err(e) => exists|k: int|
                    {
                        &&& 0 <= k < self.col_seq().len()
                        &&& #[trigger] spec_resolve_binary(
                            self.col_seq()[k],
                            self.handle,
                            self.data@,
                        ) == Err::<Seq<u8>, ExecError>(e)
                        &&& forall|j: int|
                            0 <= j < k ==> #[trigger] spec_resolve_binary(
                                self.col_seq()[j],
                                self.handle,
                                self.data@,
                            ) is Ok
                    },
            },
    {
        let n = self.cols.len();
        let mut res: Vec<Vec<u8>> = Vec::new();
        let mut i: usize = 0;
        while i < n
            invariant
                i <= n,
                n == self.col_seq().len(),
                res@.len() == i,
                forall|k: int|
                    0 <= k < i ==> #[trigger] spec_resolve_binary(
                        self.col_seq()[k],
                        self.handle,
                        self.data@,
                    ) == Ok::<Seq<u8>, ExecError>(res@[k]@),
            decreases n - i,
        {
            match resolve_col_binary(&self.cols[i], self.handle, &self.data) {
                Ok(v) => {
                    res.push(v);
                },
                Err(e) => {
                    return Err(e);
                },
            }
            i = i + 1;
        }
        Ok(res)
    }

    /// Resolves the columns at `output_offsets`, in that order, and
    /// concatenates their encoded bytes; fails with the first error.
    pub fn get_binary(&self, output_offsets: &[u32]) -> (r: Result<Vec<u8>, ExecError>)
        requires
            forall|k: int|
                0 <= k < output_offsets@.len() ==> output_offsets@[k] < self.col_seq().len(),
        ensures
            match r {
                Ok(v) => {
                    &&& forall|k: int|
                        0 <= k < output_offsets@.len() ==> #[trigger] spec_resolve_binary(
                            self.col_seq()[output_offsets@[k] as int],
                            self.handle,
                            self.data@,
                        ) is Ok
                    &&& v@ == spec_binary_concat(
                        self.col_seq(),
                        output_offsets@,
                        self.handle,
                        self.data@,
                    )
                },
                Err(e) => exists|k: int|
                    {
                        &&& 0 <= k < output_offsets@.len()
                        &&& #[trigger] spec_resolve_binary(
                            self.col_seq()[output_offsets@[k] as int],
                            self.handle,
                            self.data@,
                        ) == Err::<Seq<u8>, ExecError>(e)
                        &&& forall|j: int|
                            0 <= j < k ==> #[trigger] spec_resolve_binary(
                                self.col_seq()[output_offsets@[j] as int],
                                self.handle,
                                self.data@,
                            ) is Ok
                    },
            },
    {
        let n = output_offsets.len();
        let mut values: Vec<u8> = Vec::new();
        let mut i: usize = 0;
        while i < n
            invariant
                i <= n,
                n == output_offsets@.len(),
                forall|k: int|
                    0 <= k < output_offsets@.len() ==> output_offsets@[k] < self.col_seq().len(),
                forall|k: int|
                    0 <= k < i ==> #[trigger] spec_resolve_binary(
                        self.col_seq()[output_offsets@[k] as int],
                        self.handle,
                        self.data@,
                    ) is Ok,
                values@ == spec_binary_concat(
                    self.col_seq(),
                    output_offsets@.subrange(0, i as int),
                    self.handle,
                    self.data@,
                ),
            decreases n - i,
        {
            let off = output_offsets[i] as usize;
            match resolve_col_binary(&self.cols[off], self.handle, &self.data) {
                Ok(mut v) => {
                    values.append(&mut v);
                },
                Err(e) => {
                    return Err(e);
                },
            }
            i = i + 1;
            proof {
                lemma_binary_concat_snoc(
                    self.col_seq(),
                    output_offsets@.subrange(0, i as int),
                    self.handle,
                    self.data@,
                );
                assert(output_offsets@.subrange(0, i as int).drop_last() =~= output_offsets@
                    .subrange(0, i as int - 1));
                assert(output_offsets@.subrange(0, i as int).last() == output_offsets@[
                    i as int - 1]);
            }
        }
        proof {
            assert(output_offsets@.subrange(0, n as int) =~= output_offsets@);
        }
        Ok(values)
    }

    /// Produces a dense typed-value vector sized to the declared column
    /// count: requested offsets are resolved by the five-step policy
    /// and decoded; every other position is NULL. Fails with the first
    /// requested column's error, in offset-list order.
    pub fn inflate_cols_with_offsets(&self, ctx: &EvalContext, offsets: &[usize]) -> (r: Result<
        Vec<Datum>,
        ExecError,
    >)
        requires
            forall|k: int| 0 <= k < offsets@.len() ==> offsets@[k] < self.col_seq().len(),
        ensures
            match r {
                Ok(v) => {
                    &&& v@.len() == self.col_seq().len()
                    &&& forall|j: int|
                        0 <= j < v@.len() && !offsets@.contains(j as usize) ==> (
                        #[trigger] v@[j])@ == DatumVal::Null
                    &&& forall|k: int|
                        0 <= k < offsets@.len() ==> #[trigger] spec_resolve_datum(
                            self.col_seq()[offsets@[k] as int],
                            self.handle,
                            self.data@,
                        ) == Ok::<DatumVal, ExecError>(v@[offsets@[k] as int]@)
                },
                Err(e) => exists|k: int|
                    {
                        &&& 0 <= k < offsets@.len()
                        &&& #[trigger] spec_resolve_datum(
                            self.col_seq()[offsets@[k] as int],
                            self.handle,
                            self.data@,
                        ) == Err::<DatumVal, ExecError>(e)
                        &&& forall|j: int|
                            0 <= j < k ==> #[trigger] spec_resolve_datum(
                                self.col_seq()[offsets@[j] as int],
                                self.handle,
                                self.data@,
                            ) is Ok
                    },
            },
    {
        let n = self.cols.len();
        let mut res: Vec<Datum> = Vec::new();
        let mut i: usize = 0;
        while i < n
            invariant
                i <= n,
                res@.len() == i,
                forall|j: int| 0 <= j < i ==> (#[trigger] res@[j])@ == DatumVal::Null,
            decreases n - i,
        {
            res.push(Datum::Null);
            i = i + 1;
        }
        let m = offsets.len();
        let mut k: usize = 0;
        while k < m
            invariant
                k <= m,
                m == offsets@.len(),
                n == self.col_seq().len(),
                res@.len() == n,
                forall|k2: int| 0 <= k2 < offsets@.len() ==> offsets@[k2] < self.col_seq().len(),
                forall|j: int|
                    0 <= j < res@.len() && !offsets@.subrange(0, k as int).contains(j as usize)
                        ==> (#[trigger] res@[j])@ == DatumVal::Null,
                forall|k2: int|
                    0 <= k2 < k ==> #[trigger] spec_resolve_datum(
                        self.col_seq()[offsets@[k2] as int],
                        self.handle,
                        self.data@,
                    ) == Ok::<DatumVal, ExecError>(res@[offsets@[k2] as int]@),
            decreases m - k,
        {
            let off = offsets[k];
            match resolve_col_datum(&self.cols[off], self.handle, &self.data) {
                Ok(d) => {
                    res[off] = d;
                },
                Err(e) => {
                    proof {
                        assert(forall|j: int|
                            0 <= j < k ==> offsets@.subrange(0, k as int)[j] == #[trigger] offsets@[
                            j]);
                    }
                    return Err(e);
                },
            }
            k = k + 1;
            proof {
                assert(forall|j: int|
                    0 <= j < k ==> offsets@.subrange(0, k as int)[j] == #[trigger] offsets@[j]);
                assert(forall|j: int|
                    0 <= j < k - 1 ==> offsets@.subrange(0, k as int - 1)[j] == #[trigger] offsets@[
                    j]);
            }
        }
        proof {
            assert(offsets@.subrange(0, m as int) =~= offsets@);
        }
        Ok(res)
    }
}

impl Row {
    pub fn origin(handle: i64, data: RowColsDict, cols: Arc<Vec<ColumnInfo>>) -> (r: Row)
        ensures
            match r {
                Row::Origin(o) => {
                    &&& o.handle == handle
                    &&& o.data == data
                    &&& o.col_seq() == cols@
                },
                Row::Agg(_) => false,
            },
    {
        Row::Origin(OriginCols::new(handle, data, cols))
    }

    pub fn agg(value: Vec<Datum>, suffix: Vec<u8>) -> (r: Row)
        ensures
            match r {
                Row::Agg(a) => {
                    &&& a.value_view() == datums_view(value@)
                    &&& a.suffix_view() == suffix@
                },
                Row::Origin(_) => false,
            },
    {
        Row::Agg(AggCols { suffix, value })
    }

    /// Downcasts to a scanned row; aggregation output carries no raw
    /// column data and is refused.
    pub fn take_origin(self) -> (r: Result<OriginCols, ExecError>)
        ensures
            match self {
                Row::Origin(o) => r == Ok::<OriginCols, ExecError>(o),
                Row::Agg(_) => r == Err::<OriginCols, ExecError>(ExecError::TakeOriginOnAgg),
            },
    {
        match self {
            Row::Origin(row) => Ok(row),
            Row::Agg(_) => Err(ExecError::TakeOriginOnAgg),
        }
    }

    /// Serializes the row for the wire: a scanned row projects the
    /// columns at `output_offsets`; an aggregation row is emitted in
    /// its own order, the offset list ignored.
    pub fn get_binary(&self, output_offsets: &[u32]) -> (r: Result<Vec<u8>, ExecError>)
        requires
            self matches Row::Origin(o) ==> forall|k: int|
                0 <= k < output_offsets@.len() ==> output_offsets@[k] < o.col_seq().len(),
        ensures
            match self {
                Row::Origin(o) => match r {
                    Ok(v) => {
                        &&& forall|k: int|
                            0 <= k < output_offsets@.len() ==> #[trigger] spec_resolve_binary(
                                o.col_seq()[output_offsets@[k] as int],
                                o.handle,
                                o.data@,
                            ) is Ok
                        &&& v@ == spec_binary_concat(
                            o.col_seq(),
                            output_offsets@,
                            o.handle,
                            o.data@,
                        )
                    },
                    Err(e) => exists|k: int|
                        {
                            &&& 0 <= k < output_offsets@.len()
                            &&& #[trigger] spec_resolve_binary(
                                o.col_seq()[output_offsets@[k] as int],
                                o.handle,
                                o.data@,
                            ) == Err::<Seq<u8>, ExecError>(e)
                            &&& forall|j: int|
                                0 <= j < k ==> #[trigger] spec_resolve_binary(
                                    o.col_seq()[output_offsets@[j] as int],
                                    o.handle,
                                    o.data@,
                                ) is Ok
                        },
                },
                Row::Agg(a) => match r {
                    Ok(v) => v@ == datums_enc(a.value_view()) + a.suffix_view(),
                    Err(_) => false,
                },
            },
    {
        match self {
            Row::Origin(row) => row.get_binary(output_offsets),
            Row::Agg(row) => row.get_binary(),
        }
    }
}

/// Appending a fresh id makes it the one `dict_get` finds last.
proof fn lemma_dict_get_last(s: Seq<(i64, Seq<u8>)>, id: i64, v: Seq<u8>)
    requires
        s.len() > 0,
        s.last() == (id, v),
        forall|k: int| 0 <= k < s.len() - 1 ==> s[k].0 != id,
    ensures
        dict_get(s, id) == Some(v),
    decreases s.len(),
{
    if s.len() > 1 {
        assert(s[0].0 != id);
        assert(s.drop_first().last() == s.last());
        assert(forall|k: int|
            0 <= k < s.drop_first().len() - 1 ==> #[trigger] s.drop_first()[k] == s[k + 1]);
        lemma_dict_get_last(s.drop_first(), id, v);
    }
}

} // verus!
