//! Typed scalar values (datums) and their byte encoding.
//!
//! Every stored column value, every wire-row fragment and every encoded
//! group key in this crate is a sequence of encoded datums. A datum is
//! encoded as a one-byte tag followed by a fixed or length-prefixed
//! payload; integers travel as eight big-endian bytes.

use vstd::prelude::*;

verus! {

use crate::ExecError;

/// A typed scalar value carried by rows and expressions.
#[derive(Clone, Debug)]
pub enum Datum {
    Null,
    I64(i64),
    U64(u64),
    Bytes(Vec<u8>),
}

/// Mathematical model of a `Datum`: byte payloads become sequences.
pub enum DatumVal {
    Null,
    I64(i64),
    U64(u64),
    Bytes(Seq<u8>),
}

impl View for Datum {
    type V = DatumVal;

    open spec fn view(&self) -> DatumVal {
        match self {
            Datum::Null => DatumVal::Null,
            Datum::I64(x) => DatumVal::I64(*x),
            Datum::U64(x) => DatumVal::U64(*x),
            Datum::Bytes(b) => DatumVal::Bytes(b@),
        }
    }
}

pub const TAG_NULL: u8 = 0;
pub const TAG_I64: u8 = 1;
pub const TAG_U64: u8 = 2;
pub const TAG_BYTES: u8 = 3;

/// The eight big-endian bytes of `x`.
pub open spec fn u64_be(x: u64) -> Seq<u8> {
    seq![
        (x >> 56) as u8,
        (x >> 48) as u8,
        (x >> 40) as u8,
        (x >> 32) as u8,
        (x >> 24) as u8,
        (x >> 16) as u8,
        (x >> 8) as u8,
        x as u8,
    ]
}

/// The value whose big-endian bytes are `s` (first eight elements).
pub open spec fn u64_from_be(s: Seq<u8>) -> u64
    recommends
        s.len() >= 8,
{
    (((s[0] as u64) << 56) | ((s[1] as u64) << 48) | ((s[2] as u64) << 40)
        | ((s[3] as u64) << 32) | ((s[4] as u64) << 24) | ((s[5] as u64) << 16)
        | ((s[6] as u64) << 8) | (s[7] as u64))
}

/// Reading back the eight big-endian bytes of `x` restores `x`.
pub proof fn lemma_u64_be_roundtrip(x: u64)
    ensures
        u64_from_be(u64_be(x)) == x,
{
    let b0 = (x >> 56) as u8;
    let b1 = (x >> 48) as u8;
    let b2 = (x >> 40) as u8;
    let b3 = (x >> 32) as u8;
    let b4 = (x >> 24) as u8;
    let b5 = (x >> 16) as u8;
    let b6 = (x >> 8) as u8;
    let b7 = x as u8;
    assert((b0 as u64) << 56 | (b1 as u64) << 48 | (b2 as u64) << 40 | (b3 as u64) << 32
        | (b4 as u64) << 24 | (b5 as u64) << 16 | (b6 as u64) << 8 | (b7 as u64) == x)
        by (bit_vector)
        requires
            b0 == (x >> 56) as u8,
            b1 == (x >> 48) as u8,
            b2 == (x >> 40) as u8,
            b3 == (x >> 32) as u8,
            b4 == (x >> 24) as u8,
            b5 == (x >> 16) as u8,
            b6 == (x >> 8) as u8,
            b7 == x as u8,
    ;
}

/// Appends the eight big-endian bytes of `x` to `out`.
pub fn write_u64_be(out: &mut Vec<u8>, x: u64)
    ensures
        final(out)@ == old(out)@ + u64_be(x),
{
    out.push((x >> 56) as u8);
    out.push((x >> 48) as u8);
    out.push((x >> 40) as u8);
    out.push((x >> 32) as u8);
    out.push((x >> 24) as u8);
    out.push((x >> 16) as u8);
    out.push((x >> 8) as u8);
    out.push(x as u8);
    assert(out@ =~= old(out)@ + u64_be(x));
}

/// Reads the value whose big-endian bytes start at `pos`.
pub fn read_u64_be(bytes: &Vec<u8>, pos: usize) -> (r: u64)
    requires
        pos + 8 <= bytes@.len(),
    ensures
        r == u64_from_be(bytes@.skip(pos as int)),
{
    let n = bytes.len();
    let r: u64 = (((bytes[pos] as u64) << 56) | ((bytes[pos + 1] as u64) << 48)
        | ((bytes[pos + 2] as u64) << 40) | ((bytes[pos + 3] as u64) << 32)
        | ((bytes[pos + 4] as u64) << 24) | ((bytes[pos + 5] as u64) << 16)
        | ((bytes[pos + 6] as u64) << 8) | (bytes[pos + 7] as u64));
    assert(bytes@.skip(pos as int)[0] == bytes@[pos as int]);
    r
}

/// The view of each datum in `s`.
pub open spec fn datums_view(s: Seq<Datum>) -> Seq<DatumVal> {
    s.map_values(|d: Datum| d@)
}

/// A datum whose encoding is well formed: a byte payload fits the
/// eight-byte length prefix.
pub open spec fn datum_wf(d: DatumVal) -> bool {
    match d {
        DatumVal::Bytes(b) => b.len() <= u64::MAX,
        _ => true,
    }
}

/// The byte encoding of one datum: a tag byte, then the payload.
pub open spec fn datum_enc(d: DatumVal) -> Seq<u8> {
    match d {
        DatumVal::Null => seq![TAG_NULL],
        DatumVal::I64(x) => seq![TAG_I64] + u64_be(x as u64),
        DatumVal::U64(x) => seq![TAG_U64] + u64_be(x),
        DatumVal::Bytes(b) => seq![TAG_BYTES] + u64_be(b.len() as u64) + b,
    }
}

/// The concatenated encodings of a sequence of datums.
pub open spec fn datums_enc(s: Seq<DatumVal>) -> Seq<u8>
    decreases s.len(),
{
    if s.len() == 0 {
        Seq::<u8>::empty()
    } else {
        datum_enc(s[0]) + datums_enc(s.drop_first())
    }
}

/// Parses one datum from the front of `s`: the datum and the number of
/// bytes it occupied, or `None` when `s` starts with no valid encoding.
pub open spec fn datum_dec(s: Seq<u8>) -> Option<(DatumVal, int)> {
    if s.len() < 1 {
        None
    } else if s[0] == TAG_NULL {
        Some((DatumVal::Null, 1))
    } else if s[0] == TAG_I64 {
        if s.len() >= 9 {
            Some((DatumVal::I64(u64_from_be(s.subrange(1, 9)) as i64), 9))
        } else {
            None
        }
    } else if s[0] == TAG_U64 {
        if s.len() >= 9 {
            Some((DatumVal::U64(u64_from_be(s.subrange(1, 9))), 9))
        } else {
            None
        }
    } else if s[0] == TAG_BYTES {
        if s.len() >= 9 && s.len() >= 9 + u64_from_be(s.subrange(1, 9)) {
            Some(
                (
                    DatumVal::Bytes(
                        s.subrange(9, 9 + u64_from_be(s.subrange(1, 9)) as int),
                    ),
                    9 + u64_from_be(s.subrange(1, 9)) as int,
                ),
            )
        } else {
            None
        }
    } else {
        None
    }
}

/// Parses `s` as exactly one datum with nothing trailing.
pub open spec fn datum_dec_exact(s: Seq<u8>) -> Option<DatumVal> {
    match datum_dec(s) {
        Some((d, used)) => if used == s.len() {
            Some(d)
        } else {
            None
        },
        None => None,
    }
}

/// Decoding an encoded datum, with anything appended, yields the datum
/// back and consumes exactly its encoding.
pub proof fn lemma_datum_roundtrip(d: DatumVal, rest: Seq<u8>)
    requires
        datum_wf(d),
    ensures
        datum_dec(datum_enc(d) + rest) == Some((d, datum_enc(d).len() as int)),
{
    let s = datum_enc(d) + rest;
    match d {
        DatumVal::Null => {
            assert(s[0] == TAG_NULL);
        },
        DatumVal::I64(x) => {
            assert(s[0] == TAG_I64);
            assert(s.subrange(1, 9) =~= u64_be(x as u64));
            lemma_u64_be_roundtrip(x as u64);
            assert((x as u64) as i64 == x) by (bit_vector);
        },
        DatumVal::U64(x) => {
            assert(s[0] == TAG_U64);
            assert(s.subrange(1, 9) =~= u64_be(x));
            lemma_u64_be_roundtrip(x);
        },
        DatumVal::Bytes(b) => {
            assert(s[0] == TAG_BYTES);
            assert(s.subrange(1, 9) =~= u64_be(b.len() as u64));
            lemma_u64_be_roundtrip(b.len() as u64);
            assert(s.subrange(9, 9 + b.len() as int) =~= b);
        },
    }
}

/// Appends the encoding of `d` to `out`.
pub fn encode_datum(d: &Datum, out: &mut Vec<u8>)
    ensures
        final(out)@ == old(out)@ + datum_enc(d@),
{
    match d {
        Datum::Null => {
            out.push(TAG_NULL);
            assert(out@ =~= old(out)@ + datum_enc(d@));
        },
        Datum::I64(x) => {
            out.push(TAG_I64);
            write_u64_be(out, *x as u64);
            assert(out@ =~= old(out)@ + datum_enc(d@));
        },
        Datum::U64(x) => {
            out.push(TAG_U64);
            write_u64_be(out, *x);
            assert(out@ =~= old(out)@ + datum_enc(d@));
        },
        Datum::Bytes(b) => {
            out.push(TAG_BYTES);
            write_u64_be(out, b.len() as u64);
            let ghost mid = out@;
            let mut i: usize = 0;
            while i < b.len()
                invariant
                    i <= b@.len(),
                    out@ == mid + b@.subrange(0, i as int),
                decreases b@.len() - i,
            {
                out.push(b[i]);
                i = i + 1;
                assert(out@ =~= mid + b@.subrange(0, i as int));
            }
            assert(b@.subrange(0, b@.len() as int) =~= b@);
            assert(out@ =~= old(out)@ + datum_enc(d@));
        },
    }
}

/// Encodes each datum of `values` in order into one byte vector.
pub fn encode_values(values: &Vec<Datum>) -> (r: Vec<u8>)
    ensures
        r@ == datums_enc(datums_view(values@)),
{
    let mut out: Vec<u8> = Vec::new();
    let mut i: usize = 0;
    while i < values.len()
        invariant
            i <= values@.len(),
            out@ == datums_enc(datums_view(values@.subrange(0, i as int))),
        decreases values@.len() - i,
    {
        encode_datum(&values[i], &mut out);
        i = i + 1;
        proof {
            lemma_datums_enc_snoc(datums_view(values@.subrange(0, i as int)));
            assert(datums_view(values@.subrange(0, i as int)).drop_last() =~= datums_view(
                values@.subrange(0, i as int - 1),
            ));
        }
    }
    proof {
        assert(values@.subrange(0, values@.len() as int) =~= values@);
    }
    out
}

/// The encoding of a sequence ends with the encoding of its last datum.
pub proof fn lemma_datums_enc_snoc(s: Seq<DatumVal>)
    requires
        s.len() > 0,
    ensures
        datums_enc(s) == datums_enc(s.drop_last()) + datum_enc(s.last()),
    decreases s.len(),
{
    if s.len() == 1 {
        assert(s.drop_last() =~= Seq::<DatumVal>::empty());
        assert(datums_enc(s.drop_first()) =~= Seq::<u8>::empty());
        assert(datums_enc(s) =~= datums_enc(s.drop_last()) + datum_enc(s.last()));
    } else {
        lemma_datums_enc_snoc(s.drop_first());
        assert(s.drop_first().drop_last() =~= s.drop_last().drop_first());
        assert(s.drop_first().last() == s.last());
        assert(s.drop_last()[0] == s[0]);
        assert(datums_enc(s) =~= datums_enc(s.drop_last()) + datum_enc(s.last()));
    }
}

/// Decodes one datum starting at `pos`; `Ok` carries the datum and the
/// position just past it.
pub fn decode_datum_from(bytes: &Vec<u8>, pos: usize) -> (r: Result<(Datum, usize), ExecError>)
    requires
        pos <= bytes@.len(),
    ensures
        match r {
            Ok(p) => {
                &&& datum_dec(bytes@.skip(pos as int)) == Some((p.0@, p.1 - pos))
                &&& pos < p.1 <= bytes@.len()
            },
            Err(e) => {
                &&& e == ExecError::Corrupted
                &&& datum_dec(bytes@.skip(pos as int)) is None
            },
        },
{
    let n = bytes.len();
    let ghost s = bytes@.skip(pos as int);
    if pos >= n {
        return Err(ExecError::Corrupted);
    }
    let tag = bytes[pos];
    assert(s[0] == tag);
    if tag == TAG_NULL {
        Ok((Datum::Null, pos + 1))
    } else if tag == TAG_I64 {
        if n - pos < 9 {
            return Err(ExecError::Corrupted);
        }
        let x = read_u64_be(bytes, pos + 1);
        proof {
            assert(bytes@.skip(pos as int + 1) =~= s.skip(1));
            assert(s.subrange(1, 9) =~= s.skip(1).subrange(0, 8));
            lemma_u64_from_be_prefix(s.skip(1));
        }
        Ok((Datum::I64(#[verifier::truncate] (x as i64)), pos + 9))
    } else if tag == TAG_U64 {
        if n - pos < 9 {
            return Err(ExecError::Corrupted);
        }
        let x = read_u64_be(bytes, pos + 1);
        proof {
            assert(bytes@.skip(pos as int + 1) =~= s.skip(1));
            assert(s.subrange(1, 9) =~= s.skip(1).subrange(0, 8));
            lemma_u64_from_be_prefix(s.skip(1));
        }
        Ok((Datum::U64(x), pos + 9))
    } else if tag == TAG_BYTES {
        if n - pos < 9 {
            return Err(ExecError::Corrupted);
        }
        let len64 = read_u64_be(bytes, pos + 1);
        proof {
            assert(bytes@.skip(pos as int + 1) =~= s.skip(1));
            assert(s.subrange(1, 9) =~= s.skip(1).subrange(0, 8));
            lemma_u64_from_be_prefix(s.skip(1));
        }
        if len64 > (n - pos - 9) as u64 {
            return Err(ExecError::Corrupted);
        }
        let blen = len64 as usize;
        proof {
            assert(len64 as int <= (n - pos - 9) as int);
            assert(blen as int == len64 as int);
        }
        let mut payload: Vec<u8> = Vec::new();
        let mut i: usize = 0;
        while i < blen
            invariant
                i <= blen,
                n == bytes@.len(),
                pos + 9 + blen <= n,
                payload@ == bytes@.subrange(pos + 9, pos + 9 + i as int),
            decreases blen - i,
        {
            payload.push(bytes[pos + 9 + i]);
            i = i + 1;
            assert(payload@ =~= bytes@.subrange(pos + 9, pos + 9 + i as int));
        }
        proof {
            assert(s.subrange(9, 9 + len64 as int) =~= bytes@.subrange(
                pos + 9,
                pos + 9 + blen as int,
            ));
        }
        Ok((Datum::Bytes(payload), pos + 9 + blen))
    } else {
        Err(ExecError::Corrupted)
    }
}

/// The first eight big-endian bytes decide `u64_from_be`, whatever follows.
pub proof fn lemma_u64_from_be_prefix(s: Seq<u8>)
    requires
        s.len() >= 8,
    ensures
        u64_from_be(s) == u64_from_be(s.subrange(0, 8)),
{
    assert(s.subrange(0, 8)[0] == s[0]);
    assert(s.subrange(0, 8)[1] == s[1]);
    assert(s.subrange(0, 8)[2] == s[2]);
    assert(s.subrange(0, 8)[3] == s[3]);
    assert(s.subrange(0, 8)[4] == s[4]);
    assert(s.subrange(0, 8)[5] == s[5]);
    assert(s.subrange(0, 8)[6] == s[6]);
    assert(s.subrange(0, 8)[7] == s[7]);
}

/// Decodes `bytes` as exactly one datum with nothing trailing.
pub fn decode_datum_exact(bytes: &Vec<u8>) -> (r: Result<Datum, ExecError>)
    ensures
        match r {
            Ok(d) => datum_dec_exact(bytes@) == Some(d@),
            Err(e) => {
                &&& e == ExecError::Corrupted
                &&& datum_dec_exact(bytes@) is None
            },
        },
{
    proof {
        assert(bytes@.skip(0) =~= bytes@);
    }
    match decode_datum_from(bytes, 0) {
        Ok((d, next)) => {
            if next == bytes.len() {
                Ok(d)
            } else {
                Err(ExecError::Corrupted)
            }
        },
        Err(e) => Err(e),
    }
}

/// Reads a signed 64-bit value from the first eight bytes of `bytes`,
/// as a column-reference node stores its offset.
pub fn read_i64(bytes: &Vec<u8>) -> (r: Result<i64, ExecError>)
    ensures
        match r {
            Ok(x) => {
                &&& bytes@.len() >= 8
                &&& x == u64_from_be(bytes@) as i64
            },
            Err(e) => {
                &&& e == ExecError::Corrupted
                &&& bytes@.len() < 8
            },
        },
{
    if bytes.len() < 8 {
        return Err(ExecError::Corrupted);
    }
    proof {
        assert(bytes@.skip(0) =~= bytes@);
    }
    let x = read_u64_be(bytes, 0);
    Ok(x as i64)
}

/// A fresh byte vector with the same contents as `v`.
pub fn copy_bytes(v: &Vec<u8>) -> (r: Vec<u8>)
    ensures
        r@ == v@,
{
    let mut out: Vec<u8> = Vec::new();
    let n = v.len();
    let mut i: usize = 0;
    while i < n
        invariant
            i <= n,
            n == v@.len(),
            out@ == v@.subrange(0, i as int),
        decreases n - i,
    {
        out.push(v[i]);
        i = i + 1;
        assert(out@ =~= v@.subrange(0, i as int));
    }
    proof {
        assert(v@.subrange(0, n as int) =~= v@);
    }
    out
}

/// A fresh datum with the same value as `d`.
pub fn copy_datum(d: &Datum) -> (r: Datum)
    ensures
        r@ == d@,
{
    match d {
        Datum::Null => Datum::Null,
        Datum::I64(x) => Datum::I64(*x),
        Datum::U64(x) => Datum::U64(*x),
        Datum::Bytes(b) => Datum::Bytes(copy_bytes(b)),
    }
}

/// Whether two byte strings hold the same bytes.
pub fn bytes_eq(a: &Vec<u8>, b: &Vec<u8>) -> (r: bool)
    ensures
        r == (a@ == b@),
{
    let na = a.len();
    let nb = b.len();
    if na != nb {
        proof {
            assert(a@.len() != b@.len());
        }
        return false;
    }
    let mut i: usize = 0;
    while i < na
        invariant
            i <= na,
            na == a@.len(),
            na == b@.len(),
            forall|k: int| 0 <= k < i ==> a@[k] == b@[k],
        decreases na - i,
    {
        if a[i] != b[i] {
            return false;
        }
        i = i + 1;
    }
    proof {
        assert(a@ =~= b@);
    }
    true
}

/// Truthiness of a filter result: a nonzero integer is true; NULL,
/// zero and every non-integer value drop the row.
pub open spec fn datum_truthy(d: DatumVal) -> bool {
    match d {
        DatumVal::I64(x) => x != 0,
        DatumVal::U64(x) => x != 0,
        _ => false,
    }
}

/// Decides `datum_truthy` on a concrete datum.
pub fn truthy(d: &Datum) -> (r: bool)
    ensures
        r == datum_truthy(d@),
{
    match d {
        Datum::I64(x) => *x != 0,
        Datum::U64(x) => *x != 0,
        _ => false,
    }
}

/// Lexicographic order on byte strings; a proper prefix comes first.
pub open spec fn lex_le(p: Seq<u8>, q: Seq<u8>) -> bool
    decreases p.len(),
{
    if p.len() == 0 {
        true
    } else if q.len() == 0 {
        false
    } else if p[0] < q[0] {
        true
    } else if p[0] > q[0] {
        false
    } else {
        lex_le(p.drop_first(), q.drop_first())
    }
}

/// `lex_le` is total.
pub proof fn lemma_lex_le_total(p: Seq<u8>, q: Seq<u8>)
    ensures
        lex_le(p, q) || lex_le(q, p),
    decreases p.len(),
{
    if p.len() > 0 && q.len() > 0 && p[0] == q[0] {
        lemma_lex_le_total(p.drop_first(), q.drop_first());
    }
}

/// `lex_le` is transitive.
pub proof fn lemma_lex_le_trans(p: Seq<u8>, q: Seq<u8>, r: Seq<u8>)
    requires
        lex_le(p, q),
        lex_le(q, r),
    ensures
        lex_le(p, r),
    decreases p.len(),
{
    if p.len() > 0 && q.len() > 0 && r.len() > 0 && p[0] == q[0] && q[0] == r[0] {
        lemma_lex_le_trans(p.drop_first(), q.drop_first(), r.drop_first());
    }
}

/// Total order on datums, used by ORDER BY: NULL sorts before every
/// value, integers compare numerically whatever their signedness, and
/// byte strings sort lexicographically after all integers.
pub open spec fn datum_le(a: DatumVal, b: DatumVal) -> bool {
    match (a, b) {
        (DatumVal::Null, _) => true,
        (_, DatumVal::Null) => false,
        (DatumVal::I64(x), DatumVal::I64(y)) => x <= y,
        (DatumVal::I64(x), DatumVal::U64(y)) => x as int <= y as int,
        (DatumVal::U64(x), DatumVal::I64(y)) => x as int <= y as int,
        (DatumVal::U64(x), DatumVal::U64(y)) => x <= y,
        (DatumVal::Bytes(p), DatumVal::Bytes(q)) => lex_le(p, q),
        (DatumVal::Bytes(_), _) => false,
        (_, DatumVal::Bytes(_)) => true,
    }
}

/// `datum_le` is total.
pub proof fn lemma_datum_le_total(a: DatumVal, b: DatumVal)
    ensures
        datum_le(a, b) || datum_le(b, a),
{
    match (a, b) {
        (DatumVal::Bytes(p), DatumVal::Bytes(q)) => {
            lemma_lex_le_total(p, q);
        },
        _ => {},
    }
}

/// `datum_le` is transitive.
pub proof fn lemma_datum_le_trans(a: DatumVal, b: DatumVal, c: DatumVal)
    requires
        datum_le(a, b),
        datum_le(b, c),
    ensures
        datum_le(a, c),
{
    match (a, b, c) {
        (DatumVal::Bytes(p), DatumVal::Bytes(q), DatumVal::Bytes(r)) => {
            lemma_lex_le_trans(p, q, r);
        },
        _ => {},
    }
}

/// Decides `datum_le` on concrete datums.
pub fn datum_le_exec(a: &Datum, b: &Datum) -> (r: bool)
    ensures
        r == datum_le(a@, b@),
{
    match (a, b) {
        (Datum::Null, _) => true,
        (_, Datum::Null) => false,
        (Datum::I64(x), Datum::I64(y)) => *x <= *y,
        (Datum::I64(x), Datum::U64(y)) => {
            if *x < 0 {
                true
            } else {
                (*x as u64) <= *y
            }
        },
        (Datum::U64(x), Datum::I64(y)) => {
            if *y < 0 {
                false
            } else {
                *x <= (*y as u64)
            }
        },
        (Datum::U64(x), Datum::U64(y)) => *x <= *y,
        (Datum::Bytes(p), Datum::Bytes(q)) => lex_le_exec(p, q),
        (Datum::Bytes(_), _) => false,
        (_, Datum::Bytes(_)) => true,
    }
}

/// Decides `lex_le` on concrete byte strings.
pub fn lex_le_exec(p: &Vec<u8>, q: &Vec<u8>) -> (r: bool)
    ensures
        r == lex_le(p@, q@),
{
    let np = p.len();
    let nq = q.len();
    proof {
        assert(p@.skip(0) =~= p@);
        assert(q@.skip(0) =~= q@);
    }
    let mut i: usize = 0;
    while i < np && i < nq
        invariant
            i <= np,
            i <= nq,
            np == p@.len(),
            nq == q@.len(),
            lex_le(p@, q@) == lex_le(p@.skip(i as int), q@.skip(i as int)),
            forall|k: int| 0 <= k < i ==> p@[k] == q@[k],
        decreases np - i,
    {
        proof {
            assert(p@.skip(i as int)[0] == p@[i as int]);
            assert(q@.skip(i as int)[0] == q@[i as int]);
            assert(p@.skip(i as int).drop_first() =~= p@.skip(i as int + 1));
            assert(q@.skip(i as int).drop_first() =~= q@.skip(i as int + 1));
        }
        if p[i] < q[i] {
            return true;
        }
        if p[i] > q[i] {
            return false;
        }
        i = i + 1;
    }
    proof {
        if i >= np {
            assert(p@.skip(i as int).len() == 0);
        } else {
            assert(q@.skip(i as int).len() == 0);
            assert(p@.skip(i as int).len() > 0);
        }
    }
    np <= nq
}

/// The eight big-endian bytes of `x as u64`, as a freshly built vector.
pub fn i64_to_be_vec(x: i64) -> (r: Vec<u8>)
    ensures
        r@ == u64_be(x as u64),
        u64_from_be(r@) as i64 == x,
{
    let mut out: Vec<u8> = Vec::new();
    write_u64_be(&mut out, x as u64);
    proof {
        lemma_u64_be_roundtrip(x as u64);
        assert((x as u64) as i64 == x) by (bit_vector);
        assert(out@ =~= u64_be(x as u64));
    }
    out
}

} // verus!
