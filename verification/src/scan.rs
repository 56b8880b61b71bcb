//! The table-scan leaf: the only operator that reads records. It walks
//! the requested key ranges in order over a key-sorted record set,
//! decodes each record's sparse column encoding into a scanned row,
//! and keeps per-range row counts and the consumed range for resumable
//! scans.

use std::sync::Arc;
use vstd::prelude::*;

verus! {

use crate::ExecError;
use crate::codec::{
    Datum, DatumVal, datum_dec, datum_enc, lex_le, u64_be, u64_from_be, write_u64_be,
    lemma_u64_be_roundtrip, copy_bytes,
};
use crate::executor::{ExecuteStats, Executor, IntervalRange, StorageStats};
use crate::row::{RowColsDict, Row, dict_get};
use crate::schema::{ColumnInfo, EvalWarnings, clone_col_schema};

/// Flips the sign bit, so that unsigned byte order matches signed
/// handle order.
pub open spec fn flip_sign(x: u64) -> u64 {
    x ^ 0x8000000000000000
}

/// The storage key of the row with this handle: eight big-endian
/// bytes of the sign-flipped handle, ordered as the handles are.
pub open spec fn spec_row_key(handle: i64) -> Seq<u8> {
    u64_be(flip_sign(handle as u64))
}

/// Encodes a row key.
pub fn encode_row_key(handle: i64) -> (r: Vec<u8>)
    ensures
        r@ == spec_row_key(handle),
{
    let mut out: Vec<u8> = Vec::new();
    write_u64_be(&mut out, (handle as u64) ^ 0x8000000000000000u64);
    proof {
        assert(out@ =~= spec_row_key(handle));
    }
    out
}

/// Decodes a row key back to its handle.
pub fn decode_row_key(key: &Vec<u8>) -> (r: Result<i64, ExecError>)
    ensures
        match r {
            Ok(h) => key@.len() == 8 && spec_row_key(h) == key@,
            Err(e) => e == ExecError::Corrupted && key@.len() != 8,
        },
{
    if key.len() != 8 {
        return Err(ExecError::Corrupted);
    }
    proof {
        assert(key@.skip(0) =~= key@);
    }
    let x = crate::codec::read_u64_be(key, 0);
    let h = #[verifier::truncate] ((x ^ 0x8000000000000000u64) as i64);
    proof {
        let v = u64_from_be(key@);
        assert(flip_sign(((v ^ 0x8000000000000000u64) as i64) as u64) == v) by (bit_vector);
        lemma_u64_be_roundtrip(v);
        assert(u64_be(v) =~= key@) by {
            lemma_u64_be_injective_pointwise(key@, v);
        }
        assert(spec_row_key(h) =~= key@);
        assert(key@ =~= spec_row_key(h).subrange(0, 8));
    }
    Ok(h)
}

/// Eight bytes whose `u64_from_be` is `v` are exactly `u64_be(v)`.
proof fn lemma_u64_be_injective_pointwise(s: Seq<u8>, v: u64)
    requires
        s.len() == 8,
        u64_from_be(s) == v,
    ensures
        u64_be(v) =~= s,
{
    let b0 = s[0];
    let b1 = s[1];
    let b2 = s[2];
    let b3 = s[3];
    let b4 = s[4];
    let b5 = s[5];
    let b6 = s[6];
    let b7 = s[7];
    let w = ((b0 as u64) << 56) | ((b1 as u64) << 48) | ((b2 as u64) << 40) | ((b3 as u64) << 32)
        | ((b4 as u64) << 24) | ((b5 as u64) << 16) | ((b6 as u64) << 8) | (b7 as u64);
    assert((w >> 56) as u8 == b0 && (w >> 48) as u8 == b1 && (w >> 40) as u8 == b2 && (w >> 32)
        as u8 == b3 && (w >> 24) as u8 == b4 && (w >> 16) as u8 == b5 && (w >> 8) as u8 == b6 && w
        as u8 == b7) by (bit_vector)
        requires
            w == ((b0 as u64) << 56) | ((b1 as u64) << 48) | ((b2 as u64) << 40) | ((b3 as u64)
                << 32) | ((b4 as u64) << 24) | ((b5 as u64) << 16) | ((b6 as u64) << 8) | (
            b7 as u64),
    ;
}

/// Parses a record value — alternating column-id and value datums —
/// into the sparse dictionary already holding `acc`; a malformed pair
/// or a repeated column id is a corruption.
pub open spec fn spec_decode_row(s: Seq<u8>, acc: Seq<(i64, Seq<u8>)>) -> Option<
    Seq<(i64, Seq<u8>)>,
>
    decreases s.len(),
{
    if s.len() == 0 {
        Some(acc)
    } else {
        match datum_dec(s) {
            Some((idv, u1)) => match idv {
                DatumVal::I64(id) => if dict_get(acc, id) is Some {
                    None
                } else {
                    match datum_dec(s.skip(u1)) {
                        Some((v, u2)) => spec_decode_row(
                            s.skip(u1 + u2),
                            acc + seq![(id, datum_enc(v))],
                        ),
                        None => None,
                    }
                },
                _ => None,
            },
            None => None,
        }
    }
}

/// Decodes one record value into a sparse column dictionary, per
/// `spec_decode_row`; stored bytes are the canonical encoding of each
/// parsed value.
pub fn decode_row_value(value: &Vec<u8>) -> (r: Result<RowColsDict, ExecError>)
    ensures
        match r {
            Ok(d) => {
                &&& d.wf()
                &&& spec_decode_row(value@, Seq::<(i64, Seq<u8>)>::empty()) == Some(d@)
            },
            Err(e) => {
                &&& e == ExecError::Corrupted
                &&& spec_decode_row(value@, Seq::<(i64, Seq<u8>)>::empty()) is None
            },
        },
{
    let mut dict = RowColsDict::new();
    let n = value.len();
    let mut pos: usize = 0;
    proof {
        assert(value@.skip(0) =~= value@);
    }
    while pos < n
        invariant
            pos <= n,
            n == value@.len(),
            dict.wf(),
            spec_decode_row(value@, Seq::<(i64, Seq<u8>)>::empty()) == spec_decode_row(
                value@.skip(pos as int),
                dict@,
            ),
        decreases n - pos,
    {
        let ghost s = value@.skip(pos as int);
        let (id_datum, p2) = match crate::codec::decode_datum_from(value, pos) {
            Ok(p) => p,
            Err(e) => {
                return Err(e);
            },
        };
        let id = match id_datum {
            Datum::I64(id) => id,
            _ => {
                return Err(ExecError::Corrupted);
            },
        };
        if dict.get(id).is_some() {
            return Err(ExecError::Corrupted);
        }
        let (val_datum, p3) = match crate::codec::decode_datum_from(value, p2) {
            Ok(p) => p,
            Err(e) => {
                proof {
                    assert(value@.skip(p2 as int) =~= s.skip(p2 - pos));
                }
                return Err(e);
            },
        };
        proof {
            assert(value@.skip(p2 as int) =~= s.skip(p2 - pos));
        }
        let mut enc: Vec<u8> = Vec::new();
        crate::codec::encode_datum(&val_datum, &mut enc);
        proof {
            assert(enc@ =~= datum_enc(val_datum@));
        }
        let ghost d0 = dict@;
        dict.put(id, enc);
        let ghost pos0 = pos as int;
        pos = p3;
        proof {
            assert(value@.skip(p3 as int) =~= s.skip(p3 - pos0));
            assert(s.skip((p2 - pos0) + (p3 - p2)) =~= s.skip(p3 - pos0));
            assert(dict@ =~= d0 + seq![(id, datum_enc(val_datum@))]);
        }
    }
    proof {
        assert(value@.skip(n as int).len() == 0);
    }
    Ok(dict)
}

/// One requested key range: lower bound inclusive, upper exclusive.
#[derive(Clone, Debug)]
pub struct KeyRange {
    pub start: Vec<u8>,
    pub end: Vec<u8>,
}

/// Whether `a` is strictly before `b` in byte order.
pub open spec fn spec_lex_lt(a: Seq<u8>, b: Seq<u8>) -> bool {
    lex_le(a, b) && a != b
}

/// Whether `key` falls within the range: at or past the inclusive
/// lower bound and strictly before the exclusive upper bound.
pub open spec fn key_in_range(range: KeyRange, key: Seq<u8>) -> bool {
    &&& !spec_lex_lt(key, range.start@)
    &&& spec_lex_lt(key, range.end@)
}

/// Where a scan's walk stands: exhausted, or at the record it emits
/// next within the range it is consuming.
pub enum ScanPos {
    Done,
    At { range_idx: int, rec_idx: int },
}

/// The walk both scan leaves make from cursor `(ri, ci)`: records
/// before the current range's lower bound are skipped, the range is
/// advanced once a record passes its upper bound, and the first record
/// inside the current range is where the scan stops; it is done once
/// the ranges or the records run out.
pub open spec fn spec_scan_find(
    ranges: Seq<KeyRange>,
    records: Seq<(Vec<u8>, Vec<u8>)>,
    ri: int,
    ci: int,
) -> ScanPos
    decreases ranges.len() - ri, records.len() - ci,
{
    if ri < 0 || ci < 0 || ri >= ranges.len() || ci >= records.len() {
        ScanPos::Done
    } else if spec_lex_lt(records[ci].0@, ranges[ri].start@) {
        spec_scan_find(ranges, records, ri, ci + 1)
    } else if !spec_lex_lt(records[ci].0@, ranges[ri].end@) {
        spec_scan_find(ranges, records, ri + 1, ci)
    } else {
        ScanPos::At { range_idx: ri, rec_idx: ci }
    }
}

/// Scans a key-sorted record set over the requested ranges, in range
/// order, decoding one record per `next` call into a scanned row.
pub struct TableScanExecutor {
    pub cols: Arc<Vec<ColumnInfo>>,
    pub records: Vec<(Vec<u8>, Vec<u8>)>,
    pub key_ranges: Vec<KeyRange>,
    pub range_idx: usize,
    pub rec_idx: usize,
    pub counts: Vec<u64>,
    pub last_key: Vec<u8>,
    pub resume_from: Vec<u8>,
    pub dirty: bool,
}

impl TableScanExecutor {
    /// Well-formedness: the cursors are in bounds and one row counter
    /// exists per requested range.
    pub open spec fn wf(&self) -> bool {
        &&& self.range_idx <= self.key_ranges@.len()
        &&& self.rec_idx <= self.records@.len()
        &&& self.counts@.len() == self.key_ranges@.len()
    }

    /// Builds a scan over `records` — sorted by key, as the storage
    /// collaborator hands them out — and the requested `key_ranges`.
    pub fn new(cols: Arc<Vec<ColumnInfo>>, records: Vec<(Vec<u8>, Vec<u8>)>, key_ranges: Vec<
        KeyRange,
    >) -> (r: TableScanExecutor)
        ensures
            r.wf(),
            r.cols@ == cols@,
            r.records@ == records@,
            r.key_ranges@ == key_ranges@,
            r.rec_idx == 0,
            r.range_idx == 0,
            forall|k: int| 0 <= k < r.counts@.len() ==> r.counts@[k] == 0,
            !r.dirty,
            r.resume_from@ == if key_ranges@.len() > 0 {
                key_ranges@[0].start@
            } else {
                Seq::<u8>::empty()
            },
    {
        let n = key_ranges.len();
        let mut counts: Vec<u64> = Vec::new();
        let mut i: usize = 0;
        while i < n
            invariant
                i <= n,
                counts@.len() == i,
                forall|k: int| 0 <= k < i ==> counts@[k] == 0,
            decreases n - i,
        {
            counts.push(0);
            i = i + 1;
        }
        let resume_from = if key_ranges.len() > 0 {
            copy_bytes(&key_ranges[0].start)
        } else {
            Vec::new()
        };
        TableScanExecutor {
            cols,
            records,
            key_ranges,
            range_idx: 0,
            rec_idx: 0,
            counts,
            last_key: Vec::new(),
            resume_from,
            dirty: false,
        }
    }

    /// Emits the record the range walk stops at — the next record
    /// inside the current or a later range, ranges taken in order —
    /// decoded into a scanned row; reports end-of-stream if and only
    /// if the walk finds none, and fails exactly when the found
    /// record's key or value does not decode.
    pub fn next_row(&mut self) -> (r: Result<Option<Row>, ExecError>)
        requires
            old(self).wf(),
        ensures
            final(self).wf(),
            final(self).records@ == old(self).records@,
            final(self).key_ranges@ == old(self).key_ranges@,
            final(self).cols@ == old(self).cols@,
            final(self).rec_idx >= old(self).rec_idx,
            r matches Ok(Some(_)) ==> final(self).rec_idx > old(self).rec_idx,
            match spec_scan_find(
                old(self).key_ranges@,
                old(self).records@,
                old(self).range_idx as int,
                old(self).rec_idx as int,
            ) {
                ScanPos::Done => r == Ok::<Option<Row>, ExecError>(None),
                ScanPos::At { range_idx: ri, rec_idx: ci } => {
                    let key = old(self).records@[ci].0@;
                    let val = old(self).records@[ci].1@;
                    if key.len() == 8 && spec_decode_row(val, Seq::<(i64, Seq<u8>)>::empty())
                        is Some {
                        &&& r matches Ok(Some(rw))
                        &&& final(self).rec_idx == ci + 1
                        &&& final(self).range_idx == ri
                        &&& (rw matches Row::Origin(o) && o.col_seq() == old(self).cols@
                            && spec_decode_row(val, Seq::<(i64, Seq<u8>)>::empty()) == Some(
                            o.data@,
                        ) && spec_row_key(o.handle) == key)
                        &&& key_in_range(old(self).key_ranges@[ri], key)
                    } else {
                        r == Err::<Option<Row>, ExecError>(ExecError::Corrupted)
                    }
                },
            },
    {
        let nrec = self.records.len();
        let nrange = self.key_ranges.len();
        loop
            invariant
                self.wf(),
                nrec == self.records@.len(),
                nrange == self.key_ranges@.len(),
                self.records@ == old(self).records@,
                self.cols@ == old(self).cols@,
                self.key_ranges@ == old(self).key_ranges@,
                self.rec_idx >= old(self).rec_idx,
                spec_scan_find(
                    self.key_ranges@,
                    self.records@,
                    self.range_idx as int,
                    self.rec_idx as int,
                ) == spec_scan_find(
                    old(self).key_ranges@,
                    old(self).records@,
                    old(self).range_idx as int,
                    old(self).rec_idx as int,
                ),
            decreases nrange - self.range_idx, nrec - self.rec_idx,
        {
            if self.range_idx >= nrange || self.rec_idx >= nrec {
                return Ok(None);
            }
            let in_lower = !lex_lt(&self.records[self.rec_idx].0, &self.key_ranges[self.range_idx].start);
            let in_upper = lex_lt(&self.records[self.rec_idx].0, &self.key_ranges[self.range_idx].end);
            if !in_lower {
                self.rec_idx = self.rec_idx + 1;
            } else if !in_upper {
                self.range_idx = self.range_idx + 1;
            } else {
                let idx = self.rec_idx;
                self.rec_idx = idx + 1;
                proof {
                    assert(key_in_range(
                        self.key_ranges@[self.range_idx as int],
                        self.records@[idx as int].0@,
                    ));
                    assert(spec_scan_find(
                        self.key_ranges@,
                        self.records@,
                        self.range_idx as int,
                        idx as int,
                    ) == ScanPos::At { range_idx: self.range_idx as int, rec_idx: idx as int });
                }
                let handle = match decode_row_key(&self.records[idx].0) {
                    Ok(h) => h,
                    Err(e) => {
                        return Err(e);
                    },
                };
                let dict = match decode_row_value(&self.records[idx].1) {
                    Ok(d) => d,
                    Err(e) => {
                        return Err(e);
                    },
                };
                let c = self.counts[self.range_idx];
                if c < u64::MAX {
                    let ridx = self.range_idx;
                    self.counts[ridx] = c + 1;
                }
                self.last_key = copy_bytes(&self.records[idx].0);
                self.dirty = true;
                let schema = clone_col_schema(&self.cols);
                return Ok(Some(Row::origin(handle, dict, schema)));
            }
        }
    }

    /// Drains the key range consumed since the last drain: from where
    /// the previous drain left off up to just past the last emitted
    /// record's key, so a resumed scan skips everything reported. With
    /// nothing consumed since, the range is empty.
    pub fn take_range(&mut self) -> (r: IntervalRange)
        ensures
            r.lower_inclusive@ == old(self).resume_from@,
            old(self).dirty ==> r.upper_exclusive@ == old(self).last_key@ + seq![0u8],
            !old(self).dirty ==> r.upper_exclusive@ == old(self).resume_from@,
            final(self).resume_from@ == r.upper_exclusive@,
            !final(self).dirty,
            final(self).wf() == old(self).wf(),
    {
        let lower = copy_bytes(&self.resume_from);
        let upper = if self.dirty {
            let mut u = copy_bytes(&self.last_key);
            u.push(0u8);
            u
        } else {
            copy_bytes(&self.resume_from)
        };
        self.resume_from = copy_bytes(&upper);
        self.dirty = false;
        IntervalRange { lower_inclusive: lower, upper_exclusive: upper }
    }
}

/// Parses the front of an index key: one datum per non-handle declared
/// column, in declared order, accumulating the sparse dictionary; what
/// follows the parsed datums is returned unconsumed. A malformed datum
/// or a repeated column id is a corruption.
pub open spec fn spec_index_pairs(
    cols: Seq<ColumnInfo>,
    s: Seq<u8>,
    acc: Seq<(i64, Seq<u8>)>,
) -> Option<(Seq<(i64, Seq<u8>)>, Seq<u8>)>
    decreases cols.len(),
{
    if cols.len() == 0 {
        Some((acc, s))
    } else if cols[0].pk_handle {
        spec_index_pairs(cols.drop_first(), s, acc)
    } else {
        match datum_dec(s) {
            Some((v, u)) => if dict_get(acc, cols[0].column_id) is Some {
                None
            } else {
                spec_index_pairs(
                    cols.drop_first(),
                    s.skip(u),
                    acc + seq![(cols[0].column_id, datum_enc(v))],
                )
            },
            None => None,
        }
    }
}

/// Decodes one index entry into the row handle and the indexed-column
/// dictionary: the key carries one datum per indexed column and ends
/// with the eight-byte row key of the handle.
pub fn decode_index_key(cols: &Vec<ColumnInfo>, key: &Vec<u8>) -> (r: Result<
    (i64, RowColsDict),
    ExecError,
>)
    ensures
        match r {
            Ok(p) => {
                &&& p.1.wf()
                &&& match spec_index_pairs(cols@, key@, Seq::<(i64, Seq<u8>)>::empty()) {
                    Some(q) => q.0 == p.1@ && q.1 == spec_row_key(p.0),
                    None => false,
                }
            },
            Err(e) => {
                &&& e == ExecError::Corrupted
                &&& !(spec_index_pairs(cols@, key@, Seq::<(i64, Seq<u8>)>::empty()) matches Some(q)
                    && q.1.len() == 8)
            },
        },
{
    let mut dict = RowColsDict::new();
    let n = cols.len();
    let klen = key.len();
    let mut pos: usize = 0;
    let mut i: usize = 0;
    proof {
        assert(key@.skip(0) =~= key@);
        assert(cols@.skip(0) =~= cols@);
    }
    while i < n
        invariant
            i <= n,
            pos <= klen,
            n == cols@.len(),
            klen == key@.len(),
            dict.wf(),
            spec_index_pairs(cols@, key@, Seq::<(i64, Seq<u8>)>::empty()) == spec_index_pairs(
                cols@.skip(i as int),
                key@.skip(pos as int),
                dict@,
            ),
        decreases n - i,
    {
        let ghost cs = cols@.skip(i as int);
        let ghost s = key@.skip(pos as int);
        proof {
            assert(cs[0] == cols@[i as int]);
            assert(cs.drop_first() =~= cols@.skip(i as int + 1));
        }
        if cols[i].pk_handle {
            i = i + 1;
            continue;
        }
        let (val_datum, p2) = match crate::codec::decode_datum_from(key, pos) {
            Ok(p) => p,
            Err(e) => {
                return Err(e);
            },
        };
        let id = cols[i].column_id;
        if dict.get(id).is_some() {
            return Err(ExecError::Corrupted);
        }
        let mut enc: Vec<u8> = Vec::new();
        crate::codec::encode_datum(&val_datum, &mut enc);
        proof {
            assert(enc@ =~= datum_enc(val_datum@));
        }
        let ghost d0 = dict@;
        dict.put(id, enc);
        let ghost pos0 = pos as int;
        pos = p2;
        i = i + 1;
        proof {
            assert(key@.skip(pos as int) =~= s.skip(p2 - pos0));
            assert(dict@ =~= d0 + seq![(id, datum_enc(val_datum@))]);
        }
    }
    proof {
        assert(cols@.skip(n as int).len() == 0);
    }
    if klen - pos != 8 {
        return Err(ExecError::Corrupted);
    }
    let mut tail: Vec<u8> = Vec::new();
    let mut j: usize = pos;
    while j < klen
        invariant
            pos <= j <= klen,
            klen == key@.len(),
            tail@ == key@.subrange(pos as int, j as int),
        decreases klen - j,
    {
        tail.push(key[j]);
        j = j + 1;
        assert(tail@ =~= key@.subrange(pos as int, j as int));
    }
    let handle = match decode_row_key(&tail) {
        Ok(h) => h,
        Err(e) => {
            return Err(e);
        },
    };
    proof {
        assert(key@.skip(pos as int) =~= tail@);
    }
    Ok((handle, dict))
}

/// Scans index entries over the requested ranges, in range order,
/// decoding each into a scanned row of handle plus indexed columns;
/// unrequested declared columns resolve to default or NULL by the
/// row's own policy.
pub struct IndexScanExecutor {
    pub cols: Arc<Vec<ColumnInfo>>,
    pub records: Vec<(Vec<u8>, Vec<u8>)>,
    pub key_ranges: Vec<KeyRange>,
    pub range_idx: usize,
    pub rec_idx: usize,
    pub counts: Vec<u64>,
    pub last_key: Vec<u8>,
    pub resume_from: Vec<u8>,
    pub dirty: bool,
}

impl IndexScanExecutor {
    pub open spec fn wf(&self) -> bool {
        &&& self.range_idx <= self.key_ranges@.len()
        &&& self.rec_idx <= self.records@.len()
        &&& self.counts@.len() == self.key_ranges@.len()
    }

    /// Builds an index scan over key-sorted index entries.
    pub fn new(cols: Arc<Vec<ColumnInfo>>, records: Vec<(Vec<u8>, Vec<u8>)>, key_ranges: Vec<
        KeyRange,
    >) -> (r: IndexScanExecutor)
        ensures
            r.wf(),
            r.cols@ == cols@,
            r.records@ == records@,
            r.key_ranges@ == key_ranges@,
            r.rec_idx == 0,
            r.range_idx == 0,
            forall|k: int| 0 <= k < r.counts@.len() ==> r.counts@[k] == 0,
            !r.dirty,
            r.resume_from@ == if key_ranges@.len() > 0 {
                key_ranges@[0].start@
            } else {
                Seq::<u8>::empty()
            },
    {
        let n = key_ranges.len();
        let mut counts: Vec<u64> = Vec::new();
        let mut i: usize = 0;
        while i < n
            invariant
                i <= n,
                counts@.len() == i,
                forall|k: int| 0 <= k < i ==> counts@[k] == 0,
            decreases n - i,
        {
            counts.push(0);
            i = i + 1;
        }
        let resume_from = if key_ranges.len() > 0 {
            copy_bytes(&key_ranges[0].start)
        } else {
            Vec::new()
        };
        IndexScanExecutor {
            cols,
            records,
            key_ranges,
            range_idx: 0,
            rec_idx: 0,
            counts,
            last_key: Vec::new(),
            resume_from,
            dirty: false,
        }
    }

    /// Emits the next index entry in the current range as a scanned
    /// row, advancing ranges in order; reports end-of-stream once the
    /// ranges or the entries are exhausted.
    pub fn next_row(&mut self) -> (r: Result<Option<Row>, ExecError>)
        requires
            old(self).wf(),
        ensures
            final(self).wf(),
            final(self).records@ == old(self).records@,
            final(self).key_ranges@ == old(self).key_ranges@,
            final(self).cols@ == old(self).cols@,
            final(self).rec_idx >= old(self).rec_idx,
            r matches Ok(Some(_)) ==> final(self).rec_idx > old(self).rec_idx,
            match spec_scan_find(
                old(self).key_ranges@,
                old(self).records@,
                old(self).range_idx as int,
                old(self).rec_idx as int,
            ) {
                ScanPos::Done => r == Ok::<Option<Row>, ExecError>(None),
                ScanPos::At { range_idx: ri, rec_idx: ci } => {
                    let key = old(self).records@[ci].0@;
                    match spec_index_pairs(old(self).cols@, key, Seq::<(i64, Seq<u8>)>::empty()) {
                        Some(q) => if q.1.len() == 8 {
                            &&& r matches Ok(Some(rw))
                            &&& final(self).rec_idx == ci + 1
                            &&& final(self).range_idx == ri
                            &&& (rw matches Row::Origin(o) && o.col_seq() == old(self).cols@
                                && q.0 == o.data@ && q.1 == spec_row_key(o.handle))
                            &&& key_in_range(old(self).key_ranges@[ri], key)
                        } else {
                            r == Err::<Option<Row>, ExecError>(ExecError::Corrupted)
                        },
                        None => r == Err::<Option<Row>, ExecError>(ExecError::Corrupted),
                    }
                },
            },
    {
        let nrec = self.records.len();
        let nrange = self.key_ranges.len();
        loop
            invariant
                self.wf(),
                nrec == self.records@.len(),
                nrange == self.key_ranges@.len(),
                self.records@ == old(self).records@,
                self.cols@ == old(self).cols@,
                self.key_ranges@ == old(self).key_ranges@,
                self.rec_idx >= old(self).rec_idx,
                spec_scan_find(
                    self.key_ranges@,
                    self.records@,
                    self.range_idx as int,
                    self.rec_idx as int,
                ) == spec_scan_find(
                    old(self).key_ranges@,
                    old(self).records@,
                    old(self).range_idx as int,
                    old(self).rec_idx as int,
                ),
            decreases nrange - self.range_idx, nrec - self.rec_idx,
        {
            if self.range_idx >= nrange || self.rec_idx >= nrec {
                return Ok(None);
            }
            let in_lower = !lex_lt(&self.records[self.rec_idx].0, &self.key_ranges[self.range_idx].start);
            let in_upper = lex_lt(&self.records[self.rec_idx].0, &self.key_ranges[self.range_idx].end);
            if !in_lower {
                self.rec_idx = self.rec_idx + 1;
            } else if !in_upper {
                self.range_idx = self.range_idx + 1;
            } else {
                let idx = self.rec_idx;
                self.rec_idx = idx + 1;
                proof {
                    assert(key_in_range(
                        self.key_ranges@[self.range_idx as int],
                        self.records@[idx as int].0@,
                    ));
                    assert(spec_scan_find(
                        self.key_ranges@,
                        self.records@,
                        self.range_idx as int,
                        idx as int,
                    ) == ScanPos::At { range_idx: self.range_idx as int, rec_idx: idx as int });
                }
                let (handle, dict) = match decode_index_key(&self.cols, &self.records[idx].0) {
                    Ok(p) => p,
                    Err(e) => {
                        return Err(e);
                    },
                };
                let c = self.counts[self.range_idx];
                if c < u64::MAX {
                    let ridx = self.range_idx;
                    self.counts[ridx] = c + 1;
                }
                self.last_key = copy_bytes(&self.records[idx].0);
                self.dirty = true;
                let schema = clone_col_schema(&self.cols);
                return Ok(Some(Row::origin(handle, dict, schema)));
            }
        }
    }

    /// Drains the key range consumed since the last drain: from where
    /// the previous drain left off up to just past the last emitted
    /// record's key, so a resumed scan skips everything reported. With
    /// nothing consumed since, the range is empty.
    pub fn take_range(&mut self) -> (r: IntervalRange)
        ensures
            r.lower_inclusive@ == old(self).resume_from@,
            old(self).dirty ==> r.upper_exclusive@ == old(self).last_key@ + seq![0u8],
            !old(self).dirty ==> r.upper_exclusive@ == old(self).resume_from@,
            final(self).resume_from@ == r.upper_exclusive@,
            !final(self).dirty,
            final(self).wf() == old(self).wf(),
    {
        let lower = copy_bytes(&self.resume_from);
        let upper = if self.dirty {
            let mut u = copy_bytes(&self.last_key);
            u.push(0u8);
            u
        } else {
            copy_bytes(&self.resume_from)
        };
        self.resume_from = copy_bytes(&upper);
        self.dirty = false;
        IntervalRange { lower_inclusive: lower, upper_exclusive: upper }
    }
}

impl Executor for IndexScanExecutor {
    type Storage = StorageStats;

    open spec fn inv(&self) -> bool {
        self.wf()
    }

    open spec fn remaining(&self) -> nat {
        (self.records@.len() - self.rec_idx) as nat
    }

    open spec fn len_of_columns(&self) -> usize {
        self.cols@.len() as usize
    }

    open spec fn pending_warnings(&self) -> Option<EvalWarnings> {
        None
    }

    fn next(&mut self) -> (r: Result<Option<Row>, ExecError>) {
        self.next_row()
    }

    fn collect_exec_stats(&mut self, dest: &mut ExecuteStats) {
        let n = self.counts.len();
        let mut i: usize = 0;
        while i < n
            invariant
                i <= n,
                n == self.counts@.len(),
                self.wf(),
                dest.summary_per_executor@ == old(dest).summary_per_executor@,
                dest.scanned_rows_per_range@ == old(dest).scanned_rows_per_range@
                    + self.counts@.subrange(0, i as int),
            decreases n - i,
        {
            dest.scanned_rows_per_range.push(self.counts[i]);
            i = i + 1;
            proof {
                assert(dest.scanned_rows_per_range@ =~= old(dest).scanned_rows_per_range@
                    + self.counts@.subrange(0, i as int));
            }
        }
        proof {
            assert(old(dest).summary_per_executor@.is_prefix_of(dest.summary_per_executor@)) by {
                assert(old(dest).summary_per_executor@ =~= dest.summary_per_executor@.subrange(
                    0,
                    old(dest).summary_per_executor@.len() as int,
                ));
            }
            assert(old(dest).scanned_rows_per_range@.is_prefix_of(dest.scanned_rows_per_range@))
                by {
                assert(old(dest).scanned_rows_per_range@ =~= dest.scanned_rows_per_range@.subrange(
                    0,
                    old(dest).scanned_rows_per_range@.len() as int,
                ));
            }
        }
    }

    fn collect_storage_stats(&mut self, dest: &mut StorageStats) {
        let scanned = self.rec_idx as u64;
        if dest.scanned_keys <= u64::MAX - scanned {
            dest.scanned_keys = dest.scanned_keys + scanned;
        } else {
            dest.scanned_keys = u64::MAX;
        }
    }

    fn get_len_of_columns(&self) -> usize {
        self.cols.len()
    }

    fn take_eval_warnings(&mut self) -> Option<EvalWarnings> {
        None
    }

    fn take_scanned_range(&mut self) -> IntervalRange {
        self.take_range()
    }
}

/// Whether `a` is strictly before `b` in byte order.
fn lex_lt(a: &Vec<u8>, b: &Vec<u8>) -> (r: bool)
    ensures
        r == (lex_le(a@, b@) && a@ != b@),
{
    if crate::codec::lex_le_exec(a, b) {
        !crate::codec::bytes_eq(a, b)
    } else {
        false
    }
}

impl Executor for TableScanExecutor {
    type Storage = StorageStats;

    open spec fn inv(&self) -> bool {
        self.wf()
    }

    open spec fn remaining(&self) -> nat {
        (self.records@.len() - self.rec_idx) as nat
    }

    open spec fn len_of_columns(&self) -> usize {
        self.cols@.len() as usize
    }

    open spec fn pending_warnings(&self) -> Option<EvalWarnings> {
        None
    }

    fn next(&mut self) -> (r: Result<Option<Row>, ExecError>) {
        self.next_row()
    }

    fn collect_exec_stats(&mut self, dest: &mut ExecuteStats) {
        let n = self.counts.len();
        let mut i: usize = 0;
        while i < n
            invariant
                i <= n,
                n == self.counts@.len(),
                self.wf(),
                dest.summary_per_executor@ == old(dest).summary_per_executor@,
                dest.scanned_rows_per_range@ == old(dest).scanned_rows_per_range@
                    + self.counts@.subrange(0, i as int),
            decreases n - i,
        {
            dest.scanned_rows_per_range.push(self.counts[i]);
            i = i + 1;
            proof {
                assert(dest.scanned_rows_per_range@ =~= old(dest).scanned_rows_per_range@
                    + self.counts@.subrange(0, i as int));
            }
        }
        proof {
            assert(old(dest).summary_per_executor@.is_prefix_of(dest.summary_per_executor@)) by {
                assert(old(dest).summary_per_executor@ =~= dest.summary_per_executor@.subrange(
                    0,
                    old(dest).summary_per_executor@.len() as int,
                ));
            }
            assert(old(dest).scanned_rows_per_range@.is_prefix_of(dest.scanned_rows_per_range@))
                by {
                assert(old(dest).scanned_rows_per_range@ =~= dest.scanned_rows_per_range@.subrange(
                    0,
                    old(dest).scanned_rows_per_range@.len() as int,
                ));
            }
        }
    }

    fn collect_storage_stats(&mut self, dest: &mut StorageStats) {
        let scanned = self.rec_idx as u64;
        if dest.scanned_keys <= u64::MAX - scanned {
            dest.scanned_keys = dest.scanned_keys + scanned;
        } else {
            dest.scanned_keys = u64::MAX;
        }
    }

    fn get_len_of_columns(&self) -> usize {
        self.cols.len()
    }

    fn take_eval_warnings(&mut self) -> Option<EvalWarnings> {
        None
    }

    fn take_scanned_range(&mut self) -> IntervalRange {
        self.take_range()
    }
}

} // verus!
