use vstd::prelude::*;
use crate::column_type::{column_type_of, ColumnType};
use crate::decimal::{decimal_spec, read_decimal};
use crate::error::DecodeError;
use crate::json_diff::{diffs_spec, eat_json_diff, lemma_diff_len};
use crate::parse_buf::{le, lemma_pow256_8, pow256, signed, ParseBuf};
use crate::temporal::{
    datetime2_spec, datetime_from_binary, time2_spec, time_from_binary, timestamp2_spec,
    timestamp_from_binary,
};
use crate::text::{decimal, push_decimal};
use crate::value::{BinlogModel, BinlogValue, JsonDiff, JsonbValue, RawBytes, Value, ValueModel};

verus! {

/// The type after a typed-array placeholder is replaced by its element type.
pub open spec fn element_type(t: ColumnType, meta: Seq<u8>) -> ColumnType {
    if t == ColumnType::MYSQL_TYPE_TYPED_ARRAY {
        match column_type_of(meta[0]) {
            Some(x) => x,
            None => t,
        }
    } else {
        t
    }
}

/// The type that decides how a column is decoded, and the length that a STRING column
/// declares (zero for other types).
pub open spec fn resolve_spec(t: ColumnType, meta: Seq<u8>) -> (ColumnType, nat) {
    let t1 = element_type(t, meta);
    if t1 == ColumnType::MYSQL_TYPE_STRING {
        if meta[0] >= 1 {
            let b0 = meta[0] as usize;
            let b1 = meta[1] as usize;
            if b0 & 0x30 != 0x30 {
                (
                    match column_type_of((b0 | 0x30) as u8) {
                        Some(x) => x,
                        None => t1,
                    },
                    (b1 | (((b0 & 0x30) ^ 0x30) << 4usize)) as nat,
                )
            } else {
                (t1, b1 as nat)
            }
        } else {
            (t1, le(meta.take(2)))
        }
    } else {
        (t1, 0)
    }
}

/// The metadata bytes that decoding a column of type `t` reads.
pub open spec fn meta_width(t: ColumnType) -> nat {
    match t {
        ColumnType::MYSQL_TYPE_TIMESTAMP2 | ColumnType::MYSQL_TYPE_DATETIME2
        | ColumnType::MYSQL_TYPE_TIME2 | ColumnType::MYSQL_TYPE_TINY_BLOB
        | ColumnType::MYSQL_TYPE_MEDIUM_BLOB | ColumnType::MYSQL_TYPE_LONG_BLOB
        | ColumnType::MYSQL_TYPE_BLOB => 1,
        ColumnType::MYSQL_TYPE_BIT | ColumnType::MYSQL_TYPE_NEWDECIMAL
        | ColumnType::MYSQL_TYPE_ENUM | ColumnType::MYSQL_TYPE_SET
        | ColumnType::MYSQL_TYPE_VARCHAR | ColumnType::MYSQL_TYPE_VAR_STRING
        | ColumnType::MYSQL_TYPE_STRING => 2,
        _ => 0,
    }
}

/// The metadata holds every byte that decoding a column of type `t` reads.
pub open spec fn meta_ok(t: ColumnType, meta: Seq<u8>) -> bool {
    &&& (t == ColumnType::MYSQL_TYPE_TYPED_ARRAY ==> meta.len() >= 1)
    &&& (element_type(t, meta) == ColumnType::MYSQL_TYPE_STRING ==> meta.len() >= 2)
    &&& meta.len() >= meta_width(resolve_spec(t, meta).0)
}

/// The value `v` taking the first `n` bytes of `r`, or the end of the buffer.
pub open spec fn fixed_width(r: Seq<u8>, n: nat, v: ValueModel) -> Result<(ValueModel, nat), DecodeError> {
    if r.len() < n {
        Err(DecodeError::UnexpectedEof)
    } else {
        Ok((v, n))
    }
}

/// Bytes of a plain numeric type.
pub open spec fn scalar_width(t: ColumnType) -> nat {
    match t {
        ColumnType::MYSQL_TYPE_TINY => 1,
        ColumnType::MYSQL_TYPE_SHORT => 2,
        ColumnType::MYSQL_TYPE_LONG | ColumnType::MYSQL_TYPE_FLOAT => 4,
        _ => 8,
    }
}

/// Decoding of a plain numeric column from the bytes `r`.
pub open spec fn scalar_spec(t: ColumnType, unsigned: bool, r: Seq<u8>) -> Result<(ValueModel, nat), DecodeError> {
    let n = scalar_width(t);
    let v = le(r.take(n as int));
    fixed_width(
        r,
        n,
        match t {
            ColumnType::MYSQL_TYPE_FLOAT => ValueModel::Float(v as u32),
            ColumnType::MYSQL_TYPE_DOUBLE => ValueModel::Double(v as u64),
            ColumnType::MYSQL_TYPE_LONGLONG => if unsigned {
                ValueModel::UInt(v)
            } else {
                ValueModel::Int(signed(v, 8))
            },
            _ => if unsigned {
                ValueModel::Int(v as int)
            } else {
                ValueModel::Int(signed(v, n))
            },
        },
    )
}

/// Bytes preceded by a `w`-byte little-endian length.
pub open spec fn prefixed_spec(r: Seq<u8>, w: nat) -> Result<(ValueModel, nat), DecodeError> {
    if r.len() < w {
        Err(DecodeError::UnexpectedEof)
    } else {
        let len = le(r.take(w as int));
        if r.len() < w + len {
            Err(DecodeError::UnexpectedEof)
        } else {
            Ok((ValueModel::Bytes(r.subrange(w as int, (w + len) as int)), w + len))
        }
    }
}

/// A legacy TIME value `hhmmss`.
pub open spec fn legacy_time(tmp: nat) -> ValueModel {
    ValueModel::Time(false, 0, (tmp / 10000) as u8, ((tmp % 10000) / 100) as u8, (tmp % 100) as u8, 0)
}

/// A legacy DATETIME value `YYYYMMDDhhmmss`.
pub open spec fn legacy_datetime(raw: nat) -> ValueModel {
    let d = raw / 1_000_000;
    let t = raw % 1_000_000;
    ValueModel::Date(
        (d / 10000) as u16,
        ((d % 10000) / 100) as u8,
        (d % 100) as u8,
        (t / 10000) as u8,
        ((t % 10000) / 100) as u8,
        (t % 100) as u8,
        0,
    )
}

/// A NEWDATE value: day in the low five bits, month in the next four, year above.
pub open spec fn newdate(tmp: nat) -> ValueModel {
    ValueModel::Date((tmp / 512) as u16, ((tmp / 32) % 16) as u8, (tmp % 32) as u8, 0, 0, 0, 0)
}

pub open spec fn as_binlog(r: Result<(ValueModel, nat), DecodeError>) -> Result<(BinlogModel, nat), DecodeError> {
    match r {
        Ok((v, n)) => Ok((BinlogModel::Value(v), n)),
        Err(e) => Err(e),
    }
}

/// A JSON column: a four-byte length, then a binary JSON document, or partial updates.
pub open spec fn json_spec(r: Seq<u8>, partial: bool) -> Result<(BinlogModel, nat), DecodeError> {
    if r.len() < 4 {
        Err(DecodeError::UnexpectedEof)
    } else {
        let len = le(r.take(4));
        if r.len() < 4 + len {
            Err(DecodeError::UnexpectedEof)
        } else {
            let doc = r.subrange(4, 4 + len as int);
            if partial {
                match diffs_spec(doc) {
                    Ok(ds) => Ok((BinlogModel::JsonDiff(ds), 4 + len)),
                    Err(e) => Err(e),
                }
            } else {
                Ok((BinlogModel::Jsonb(doc), 4 + len))
            }
        }
    }
}

/// Decoding of a column of declared type `t` with metadata `meta` from the bytes `r`: the
/// value, and the number of bytes of `r` it takes.
pub open spec fn decode_spec(t: ColumnType, meta: Seq<u8>, unsigned: bool, partial: bool, r: Seq<u8>) -> Result<(BinlogModel, nat), DecodeError> {
    decode_resolved(resolve_spec(t, meta).0, resolve_spec(t, meta).1, meta, unsigned, partial, r)
}

/// Decoding of a column whose type resolves to `ct`, with declared length `length`.
pub open spec fn decode_resolved(ct: ColumnType, length: nat, meta: Seq<u8>, unsigned: bool, partial: bool, r: Seq<u8>) -> Result<(BinlogModel, nat), DecodeError> {
    match ct {
        ColumnType::MYSQL_TYPE_TINY | ColumnType::MYSQL_TYPE_SHORT | ColumnType::MYSQL_TYPE_LONG
        | ColumnType::MYSQL_TYPE_LONGLONG | ColumnType::MYSQL_TYPE_FLOAT
        | ColumnType::MYSQL_TYPE_DOUBLE => as_binlog(scalar_spec(ct, unsigned, r)),
        ColumnType::MYSQL_TYPE_TIMESTAMP => as_binlog(
            fixed_width(r, 4, ValueModel::Int(le(r.take(4)) as int)),
        ),
        ColumnType::MYSQL_TYPE_INT24 => as_binlog(
            fixed_width(
                r,
                3,
                ValueModel::Int(
                    if unsigned {
                        le(r.take(3)) as int
                    } else {
                        signed(le(r.take(3)), 3)
                    },
                ),
            ),
        ),
        ColumnType::MYSQL_TYPE_TIME => as_binlog(fixed_width(r, 3, legacy_time(le(r.take(3))))),
        ColumnType::MYSQL_TYPE_DATETIME => as_binlog(
            fixed_width(r, 8, legacy_datetime(le(r.take(8)))),
        ),
        ColumnType::MYSQL_TYPE_YEAR => as_binlog(
            fixed_width(r, 1, ValueModel::Bytes(decimal(1900 + le(r.take(1))))),
        ),
        ColumnType::MYSQL_TYPE_NEWDATE => as_binlog(fixed_width(r, 3, newdate(le(r.take(3))))),
        ColumnType::MYSQL_TYPE_BIT => {
            let nbytes = ((meta[0] * 8 + meta[1] + 7) / 8) as nat;
            as_binlog(fixed_width(r, nbytes, ValueModel::Bytes(r.take(nbytes as int))))
        },
        ColumnType::MYSQL_TYPE_TIMESTAMP2 => as_binlog(timestamp2_spec(r, meta[0])),
        ColumnType::MYSQL_TYPE_DATETIME2 => as_binlog(datetime2_spec(r, meta[0])),
        ColumnType::MYSQL_TYPE_TIME2 => as_binlog(time2_spec(r, meta[0])),
        ColumnType::MYSQL_TYPE_JSON => json_spec(r, partial),
        ColumnType::MYSQL_TYPE_NEWDECIMAL => match decimal_spec(r, meta[0], meta[1]) {
            Ok((text, n)) => Ok((BinlogModel::Value(ValueModel::Bytes(text)), n)),
            Err(e) => Err(e),
        },
        ColumnType::MYSQL_TYPE_ENUM => if meta[1] == 1 || meta[1] == 2 {
            let n = meta[1] as nat;
            as_binlog(fixed_width(r, n, ValueModel::Int(le(r.take(n as int)) as int)))
        } else {
            Err(DecodeError::UnknownEnum)
        },
        ColumnType::MYSQL_TYPE_SET => {
            let n = (meta[1] * 8) as nat;
            as_binlog(fixed_width(r, n, ValueModel::Bytes(r.take(n as int))))
        },
        ColumnType::MYSQL_TYPE_TINY_BLOB | ColumnType::MYSQL_TYPE_MEDIUM_BLOB
        | ColumnType::MYSQL_TYPE_LONG_BLOB | ColumnType::MYSQL_TYPE_BLOB => if 1 <= meta[0] <= 4 {
            as_binlog(prefixed_spec(r, meta[0] as nat))
        } else {
            Err(DecodeError::UnknownBlob)
        },
        ColumnType::MYSQL_TYPE_VARCHAR | ColumnType::MYSQL_TYPE_VAR_STRING => as_binlog(
            prefixed_spec(r, if meta[0] + 256 * meta[1] < 256 { 1 } else { 2 }),
        ),
        ColumnType::MYSQL_TYPE_STRING => as_binlog(
            prefixed_spec(r, if length < 256 { 1 } else { 2 }),
        ),
        _ => Err(DecodeError::UnsupportedColumnType),
    }
}

/// The outcome `r` of a decode from `old` that left the cursor at `new` agrees with `s`.
pub open spec fn decoded_as<'a, T: View>(r: Result<T, DecodeError>, s: Result<(T::V, nat), DecodeError>, old: ParseBuf<'a>, new: ParseBuf<'a>) -> bool {
    match (r, s) {
        (Ok(v), Ok((m, n))) => v@ == m && old.advanced(new, n),
        (Err(e), Err(e2)) => e == e2,
        _ => false,
    }
}


fn eat_le(buf: &mut ParseBuf, n: usize) -> (r: Result<u64, DecodeError>)
    requires
        old(buf).wf(),
        n <= 8,
    ensures
        final(buf).wf(),
        n <= old(buf).rest().len() ==> r == Ok::<u64, DecodeError>(le(old(buf).rest().take(n as int)) as u64)
            && le(old(buf).rest().take(n as int)) < pow256(n as nat) && old(buf).advanced(
            *final(buf),
            n as nat,
        ),
        n > old(buf).rest().len() ==> r == Err::<u64, DecodeError>(DecodeError::UnexpectedEof),
{
    match buf.eat_uint_le(n) {
        Some(v) => Ok(v),
        None => Err(DecodeError::UnexpectedEof),
    }
}

/// Resolves the type that decides how a column is decoded: a typed-array placeholder becomes
/// its element type, and a STRING column gives the length it declares, or is read as the type
/// that a long CHAR column's metadata names.
pub fn resolve_column_type(col_type: ColumnType, col_meta: &[u8]) -> (r: (ColumnType, usize))
    requires
        col_type == ColumnType::MYSQL_TYPE_TYPED_ARRAY ==> col_meta@.len() >= 1,
        element_type(col_type, col_meta@) == ColumnType::MYSQL_TYPE_STRING ==> col_meta@.len()
            >= 2,
    ensures
        r.0 == resolve_spec(col_type, col_meta@).0,
        r.1 as nat == resolve_spec(col_type, col_meta@).1,
{
    let mut t = col_type;
    if t == ColumnType::MYSQL_TYPE_TYPED_ARRAY {
        t = match ColumnType::try_from_u8(col_meta[0]) {
            Some(x) => x,
            None => t,
        };
    }
    if t == ColumnType::MYSQL_TYPE_STRING {
        if col_meta[0] >= 1 {
            let b0 = col_meta[0] as usize;
            let b1 = col_meta[1] as usize;
            if b0 & 0x30 != 0x30 {
                // a long CHAR() column keeps two high bits of its length in the type byte
                let length = b1 | (((b0 & 0x30) ^ 0x30) << 4usize);
                let t2 = match ColumnType::try_from_u8((b0 | 0x30) as u8) {
                    Some(x) => x,
                    None => t,
                };
                (t2, length)
            } else {
                (t, b1)
            }
        } else {
            let mut m = ParseBuf::new(col_meta);
            let v = m.eat_uint_le(2).unwrap();
            proof {
                lemma_pow256_8();
            }
            (t, v as usize)
        }
    } else {
        (t, 0)
    }
}

fn read_scalar(t: ColumnType, unsigned: bool, buf: &mut ParseBuf) -> (r: Result<Value, DecodeError>)
    requires
        old(buf).wf(),
        t == ColumnType::MYSQL_TYPE_TINY || t == ColumnType::MYSQL_TYPE_SHORT || t
            == ColumnType::MYSQL_TYPE_LONG || t == ColumnType::MYSQL_TYPE_LONGLONG || t
            == ColumnType::MYSQL_TYPE_FLOAT || t == ColumnType::MYSQL_TYPE_DOUBLE,
    ensures
        final(buf).wf(),
        decoded_as(r, scalar_spec(t, unsigned, old(buf).rest()), *old(buf), *final(buf)),
{
    let n: usize = match t {
        ColumnType::MYSQL_TYPE_TINY => 1,
        ColumnType::MYSQL_TYPE_SHORT => 2,
        ColumnType::MYSQL_TYPE_LONG | ColumnType::MYSQL_TYPE_FLOAT => 4,
        _ => 8,
    };
    let v = eat_le(buf, n)?;
    proof {
        lemma_pow256_8();
    }
    let full: i128 = if n == 1 { 0x100 } else if n == 2 { 0x1_0000 } else if n == 4 { 0x1_0000_0000 } else { 0x1_0000_0000_0000_0000 };
    let s: i128 = if 2 * (v as i128) >= full { v as i128 - full } else { v as i128 };
    match t {
        ColumnType::MYSQL_TYPE_FLOAT => Ok(Value::Float(v as u32)),
        ColumnType::MYSQL_TYPE_DOUBLE => Ok(Value::Double(v)),
        ColumnType::MYSQL_TYPE_LONGLONG => if unsigned {
            Ok(Value::UInt(v))
        } else {
            Ok(Value::Int(s as i64))
        },
        _ => if unsigned {
            Ok(Value::Int(v as i64))
        } else {
            Ok(Value::Int(s as i64))
        },
    }
}

fn read_prefixed(buf: &mut ParseBuf, w: usize) -> (r: Result<Value, DecodeError>)
    requires
        old(buf).wf(),
        1 <= w <= 4,
    ensures
        final(buf).wf(),
        decoded_as(r, prefixed_spec(old(buf).rest(), w as nat), *old(buf), *final(buf)),
{
    let ghost r0 = buf.rest();
    proof {
        lemma_pow256_8();
        crate::parse_buf::lemma_pow256_mono(w as nat, 8);
    }
    let len = eat_le(buf, w)?;
    let ghost r1 = buf.rest();
    if len > buf.remaining() as u64 {
        return Err(DecodeError::UnexpectedEof);
    }
    let bytes = match buf.eat(len as usize) {
        Some(b) => b,
        None => return Err(DecodeError::UnexpectedEof),
    };
    proof {
        assert(r1 =~= r0.subrange(w as int, r0.len() as int));
        assert(bytes@ =~= r0.subrange(w as int, w + len));
    }
    Ok(Value::Bytes(vstd::slice::slice_to_vec(bytes)))
}

fn read_bytes(buf: &mut ParseBuf, n: usize) -> (r: Result<Value, DecodeError>)
    requires
        old(buf).wf(),
    ensures
        final(buf).wf(),
        decoded_as(
            r,
            fixed_width(old(buf).rest(), n as nat, ValueModel::Bytes(old(buf).rest().take(n as int))),
            *old(buf),
            *final(buf),
        ),
{
    match buf.eat(n) {
        Some(b) => Ok(Value::Bytes(vstd::slice::slice_to_vec(b))),
        None => Err(DecodeError::UnexpectedEof),
    }
}

fn read_json<'a>(buf: &mut ParseBuf<'a>, partial: bool) -> (r: Result<BinlogValue<'a>, DecodeError>)
    requires
        old(buf).wf(),
    ensures
        final(buf).wf(),
        decoded_as(r, json_spec(old(buf).rest(), partial), *old(buf), *final(buf)),
{
    let ghost r0 = buf.rest();
    proof {
        lemma_pow256_8();
    }
    let len = eat_le(buf, 4)?;
    let ghost r1 = buf.rest();
    if len > buf.remaining() as u64 {
        return Err(DecodeError::UnexpectedEof);
    }
    let doc = match buf.eat(len as usize) {
        Some(b) => b,
        None => return Err(DecodeError::UnexpectedEof),
    };
    let ghost d = r0.subrange(4, 4 + len);
    proof {
        assert(r1 =~= r0.subrange(4, r0.len() as int));
        assert(doc@ =~= d);
    }
    if partial {
        let mut sub = ParseBuf::new(doc);
        let mut diffs: Vec<JsonDiff<'a>> = Vec::new();
        while !sub.is_empty()
            invariant
                sub.wf(),
                sub.data@ == d,
                buf.wf(),
                old(buf).wf(),
                r0 == old(buf).rest(),
                r0.len() >= 4 + len,
                len == le(r0.take(4)),
                d == r0.subrange(4, 4 + len),
                old(buf).advanced(*buf, 4 + len as nat),
                partial,
                diffs_spec(d) == match diffs_spec(sub.rest()) {
                    Ok(ds) => Ok(diffs@.map_values(|x: JsonDiff<'a>| x@) + ds),
                    Err(e) => Err(e),
                },
            decreases sub.rest().len(),
        {
            let ghost s0 = sub.rest();
            let ghost before = diffs@.map_values(|x: JsonDiff<'a>| x@);
            proof {
                lemma_diff_len(s0);
            }
            let ghost p0 = sub.pos;
            let diff = eat_json_diff(&mut sub)?;
            proof {
                let n = (sub.pos - p0) as nat;
                let s1 = s0.subrange(n as int, s0.len() as int);
                assert(sub.rest() =~= s1);
                assert(diffs_spec(s0) == match diffs_spec(s1) {
                    Ok(ds) => Ok(seq![diff@] + ds),
                    Err(e) => Err(e),
                });
                if let Ok(ds) = diffs_spec(s1) {
                    assert(before + (seq![diff@] + ds) =~= before.push(diff@) + ds);
                }
            }
            diffs.push(diff);
            proof {
                assert(diffs@.map_values(|x: JsonDiff<'a>| x@) =~= before.push(diff@));
            }
        }
        proof {
            assert(diffs@.map_values(|x: JsonDiff<'a>| x@) + Seq::<crate::value::JsonDiffModel>::empty()
                =~= diffs@.map_values(|x: JsonDiff<'a>| x@));
        }
        Ok(BinlogValue::JsonDiff(diffs))
    } else {
        Ok(BinlogValue::Jsonb(JsonbValue { data: RawBytes::Owned(vstd::slice::slice_to_vec(doc)) }))
    }
}

proof fn lemma_take_subrange(r: Seq<u8>, k: int)
    requires
        0 <= k <= r.len(),
    ensures
        forall|a: int, b: int|
            0 <= a <= b <= k ==> #[trigger] r.take(k).subrange(a, b) == r.subrange(a, b),
        r.take(k).len() == k,
{
    assert forall|a: int, b: int| 0 <= a <= b <= k implies #[trigger] r.take(k).subrange(a, b)
        == r.subrange(a, b) by {
        assert(r.take(k).subrange(a, b) =~= r.subrange(a, b));
    }
}

/// A decoding `ok` from `r` that succeeds takes at most `r.len()` bytes, gives the same
/// outcome `whole` on just those bytes, and the outcome `cut` on fewer than them (the first `m`)
/// is a truncation error.
pub open spec fn exact<V>(ok: Result<(V, nat), DecodeError>, whole: Result<(V, nat), DecodeError>, cut: Result<(V, nat), DecodeError>, r: Seq<u8>, m: nat) -> bool {
    ok is Ok ==> {
        &&& ok->Ok_0.1 <= r.len()
        &&& whole == ok
        &&& m < ok->Ok_0.1 ==> cut == Err::<(V, nat), DecodeError>(DecodeError::UnexpectedEof)
    }
}

proof fn lemma_prefixed_exact(r: Seq<u8>, w: nat, m: nat)
    ensures
        exact(
            prefixed_spec(r, w),
            prefixed_spec(r.take(prefixed_spec(r, w)->Ok_0.1 as int), w),
            prefixed_spec(r.take(m as int), w),
            r,
            m,
        ),
{
    if prefixed_spec(r, w) is Ok {
        let n = prefixed_spec(r, w)->Ok_0.1;
        lemma_take_subrange(r, n as int);
        if m < n && m >= w {
            lemma_take_subrange(r, m as int);
        }
    }
}

proof fn lemma_json_exact(r: Seq<u8>, partial: bool, m: nat)
    ensures
        exact(
            json_spec(r, partial),
            json_spec(r.take(json_spec(r, partial)->Ok_0.1 as int), partial),
            json_spec(r.take(m as int), partial),
            r,
            m,
        ),
{
    if json_spec(r, partial) is Ok {
        let n = json_spec(r, partial)->Ok_0.1;
        lemma_take_subrange(r, n as int);
        if m < n && m >= 4 {
            lemma_take_subrange(r, m as int);
        }
    }
}

proof fn lemma_decimal_exact(r: Seq<u8>, p: u8, sc: u8, m: nat)
    ensures
        exact(
            decimal_spec(r, p, sc),
            decimal_spec(r.take(decimal_spec(r, p, sc)->Ok_0.1 as int), p, sc),
            decimal_spec(r.take(m as int), p, sc),
            r,
            m,
        ),
{
    if decimal_spec(r, p, sc) is Ok {
        let n = decimal_spec(r, p, sc)->Ok_0.1;
        lemma_take_subrange(r, n as int);
    }
}

proof fn lemma_temporal_exact(r: Seq<u8>, dec: u8, m: nat)
    ensures
        exact(
            timestamp2_spec(r, dec),
            timestamp2_spec(r.take(timestamp2_spec(r, dec)->Ok_0.1 as int), dec),
            timestamp2_spec(r.take(m as int), dec),
            r,
            m,
        ),
        exact(
            datetime2_spec(r, dec),
            datetime2_spec(r.take(datetime2_spec(r, dec)->Ok_0.1 as int), dec),
            datetime2_spec(r.take(m as int), dec),
            r,
            m,
        ),
        exact(
            time2_spec(r, dec),
            time2_spec(r.take(time2_spec(r, dec)->Ok_0.1 as int), dec),
            time2_spec(r.take(m as int), dec),
            r,
            m,
        ),
{
    if timestamp2_spec(r, dec) is Ok {
        lemma_take_subrange(r, timestamp2_spec(r, dec)->Ok_0.1 as int);
    }
    if datetime2_spec(r, dec) is Ok {
        lemma_take_subrange(r, datetime2_spec(r, dec)->Ok_0.1 as int);
    }
    if time2_spec(r, dec) is Ok {
        lemma_take_subrange(r, time2_spec(r, dec)->Ok_0.1 as int);
    }
}

proof fn lemma_fixed_exact(r: Seq<u8>, k: nat, n: nat)
    requires
        k <= n <= r.len(),
    ensures
        r.take(n as int).take(k as int) == r.take(k as int),
{
    assert(r.take(n as int).take(k as int) =~= r.take(k as int));
}

pub open spec fn is_fixed_width(ct: ColumnType) -> bool {
    match ct {
        ColumnType::MYSQL_TYPE_JSON | ColumnType::MYSQL_TYPE_NEWDECIMAL
        | ColumnType::MYSQL_TYPE_TIMESTAMP2 | ColumnType::MYSQL_TYPE_DATETIME2
        | ColumnType::MYSQL_TYPE_TIME2 | ColumnType::MYSQL_TYPE_TINY_BLOB
        | ColumnType::MYSQL_TYPE_MEDIUM_BLOB | ColumnType::MYSQL_TYPE_LONG_BLOB
        | ColumnType::MYSQL_TYPE_BLOB | ColumnType::MYSQL_TYPE_VARCHAR
        | ColumnType::MYSQL_TYPE_VAR_STRING | ColumnType::MYSQL_TYPE_STRING => false,
        _ => true,
    }
}

#[verifier::rlimit(100)]
proof fn lemma_fixed_width_exact(
    ct: ColumnType,
    length: nat,
    meta: Seq<u8>,
    unsigned: bool,
    partial: bool,
    r: Seq<u8>,
    m: nat,
)
    requires
        is_fixed_width(ct),
        meta.len() >= meta_width(ct),
    ensures
        exact(
            decode_resolved(ct, length, meta, unsigned, partial, r),
            decode_resolved(
                ct,
                length,
                meta,
                unsigned,
                partial,
                r.take(decode_resolved(ct, length, meta, unsigned, partial, r)->Ok_0.1 as int),
            ),
            decode_resolved(ct, length, meta, unsigned, partial, r.take(m as int)),
            r,
            m,
        ),
{
    if decode_resolved(ct, length, meta, unsigned, partial, r) is Ok {
        let n = decode_resolved(ct, length, meta, unsigned, partial, r)->Ok_0.1;
        lemma_fixed_exact(r, n, n);
    }
}

#[verifier::rlimit(100)]
proof fn lemma_resolved_exact(
    ct: ColumnType,
    length: nat,
    meta: Seq<u8>,
    unsigned: bool,
    partial: bool,
    r: Seq<u8>,
    m: nat,
)
    requires
        meta.len() >= meta_width(ct),
    ensures
        exact(
            decode_resolved(ct, length, meta, unsigned, partial, r),
            decode_resolved(
                ct,
                length,
                meta,
                unsigned,
                partial,
                r.take(decode_resolved(ct, length, meta, unsigned, partial, r)->Ok_0.1 as int),
            ),
            decode_resolved(ct, length, meta, unsigned, partial, r.take(m as int)),
            r,
            m,
        ),
{
    match ct {
        ColumnType::MYSQL_TYPE_JSON => lemma_json_exact(r, partial, m),
        ColumnType::MYSQL_TYPE_NEWDECIMAL => lemma_decimal_exact(r, meta[0], meta[1], m),
        ColumnType::MYSQL_TYPE_TIMESTAMP2 | ColumnType::MYSQL_TYPE_DATETIME2
        | ColumnType::MYSQL_TYPE_TIME2 => lemma_temporal_exact(r, meta[0], m),
        ColumnType::MYSQL_TYPE_TINY_BLOB | ColumnType::MYSQL_TYPE_MEDIUM_BLOB
        | ColumnType::MYSQL_TYPE_LONG_BLOB | ColumnType::MYSQL_TYPE_BLOB => lemma_prefixed_exact(
            r,
            meta[0] as nat,
            m,
        ),
        ColumnType::MYSQL_TYPE_VARCHAR | ColumnType::MYSQL_TYPE_VAR_STRING => lemma_prefixed_exact(
            r,
            if meta[0] + 256 * meta[1] < 256 { 1 } else { 2 },
            m,
        ),
        ColumnType::MYSQL_TYPE_STRING => lemma_prefixed_exact(
            r,
            if length < 256 { 1 } else { 2 },
            m,
        ),
        _ => lemma_fixed_width_exact(ct, length, meta, unsigned, partial, r, m),
    }
}

/// A column takes exactly the bytes that its type and metadata call for: its value depends
/// on those bytes alone, and a buffer that ends anywhere before them fails as truncated.
pub proof fn lemma_decode_exact(
    t: ColumnType,
    meta: Seq<u8>,
    unsigned: bool,
    partial: bool,
    r: Seq<u8>,
    m: nat,
)
    requires
        meta_ok(t, meta),
    ensures
        exact(
            decode_spec(t, meta, unsigned, partial, r),
            decode_spec(
                t,
                meta,
                unsigned,
                partial,
                r.take(decode_spec(t, meta, unsigned, partial, r)->Ok_0.1 as int),
            ),
            decode_spec(t, meta, unsigned, partial, r.take(m as int)),
            r,
            m,
        ),
{
    let (ct, length) = resolve_spec(t, meta);
    lemma_resolved_exact(ct, length, meta, unsigned, partial, r, m);
}

/// A partial JSON update column whose four-byte length `len_bytes` counts exactly the bytes
/// of the records `recs`, followed by anything, decodes to the records of `recs` in order, and
/// takes the length and the records alone.
pub proof fn lemma_partial_json_records(
    meta: Seq<u8>,
    unsigned: bool,
    len_bytes: Seq<u8>,
    recs: Seq<u8>,
    rest: Seq<u8>,
)
    requires
        len_bytes.len() == 4,
        le(len_bytes) == recs.len(),
        diffs_spec(recs) is Ok,
    ensures
        decode_spec(ColumnType::MYSQL_TYPE_JSON, meta, unsigned, true, len_bytes + recs + rest)
            == Ok::<(BinlogModel, nat), DecodeError>(
            (BinlogModel::JsonDiff(diffs_spec(recs)->Ok_0), 4 + recs.len()),
        ),
{
    let r = len_bytes + recs + rest;
    assert(r.take(4) =~= len_bytes);
    assert(r.subrange(4, 4 + recs.len() as int) =~= recs);
    assert(resolve_spec(ColumnType::MYSQL_TYPE_JSON, meta).0 == ColumnType::MYSQL_TYPE_JSON);
}

/// A STRING column whose metadata marks a long CHAR column of another known type `t2` decodes
/// exactly as a column of type `t2` with the same metadata.
pub proof fn lemma_long_char_as_named_type(
    meta: Seq<u8>,
    unsigned: bool,
    partial: bool,
    r: Seq<u8>,
    t2: ColumnType,
)
    requires
        meta.len() >= 2,
        meta[0] >= 1,
        (meta[0] as usize) & 0x30 != 0x30,
        column_type_of(((meta[0] as usize) | 0x30) as u8) == Some(t2),
        t2 != ColumnType::MYSQL_TYPE_STRING,
    ensures
        decode_spec(ColumnType::MYSQL_TYPE_STRING, meta, unsigned, partial, r) == decode_spec(
            t2,
            meta,
            unsigned,
            partial,
            r,
        ),
{
    let b0 = meta[0] as usize;
    assert(((b0 | 0x30usize) as u8) != 20u8) by (bit_vector)
        requires
            b0 < 256,
    ;
    assert(t2 != ColumnType::MYSQL_TYPE_TYPED_ARRAY);
    assert(resolve_spec(ColumnType::MYSQL_TYPE_STRING, meta).0 == t2);
    assert(resolve_spec(t2, meta) == (t2, 0nat));
}

impl<'a> BinlogValue<'a> {
    /// Decodes one column of a row image, of type `col_type` with metadata `col_meta`, and
    /// moves the cursor past exactly the bytes the column takes; on an error the cursor stays
    /// where it was. Plain values own their bytes; the records of a partial JSON update borrow
    /// from the row image.
    pub fn deserialize(
        col_type: ColumnType,
        col_meta: &[u8],
        is_unsigned: bool,
        is_partial: bool,
        buf: &mut ParseBuf<'a>,
    ) -> (r: Result<BinlogValue<'a>, DecodeError>)
        requires
            old(buf).wf(),
            meta_ok(col_type, col_meta@),
        ensures
            final(buf).wf(),
            decoded_as(
                r,
                decode_spec(col_type, col_meta@, is_unsigned, is_partial, old(buf).rest()),
                *old(buf),
                *final(buf),
            ),
            r is Err ==> *final(buf) == *old(buf),
    {
        let start = *buf;
        let r = Self::decode_column(col_type, col_meta, is_unsigned, is_partial, buf);
        if r.is_err() {
            *buf = start;
        }
        r
    }

    #[verifier::rlimit(60)]
    fn decode_column(
        col_type: ColumnType,
        col_meta: &[u8],
        is_unsigned: bool,
        is_partial: bool,
        buf: &mut ParseBuf<'a>,
    ) -> (r: Result<BinlogValue<'a>, DecodeError>)
        requires
            old(buf).wf(),
            meta_ok(col_type, col_meta@),
        ensures
            final(buf).wf(),
            decoded_as(
                r,
                decode_spec(col_type, col_meta@, is_unsigned, is_partial, old(buf).rest()),
                *old(buf),
                *final(buf),
            ),
    {
        let (ct, length) = resolve_column_type(col_type, col_meta);
        let ghost r0 = buf.rest();
        proof {
            lemma_pow256_8();
        }
        let v = match ct {
            ColumnType::MYSQL_TYPE_TINY | ColumnType::MYSQL_TYPE_SHORT
            | ColumnType::MYSQL_TYPE_LONG | ColumnType::MYSQL_TYPE_LONGLONG
            | ColumnType::MYSQL_TYPE_FLOAT | ColumnType::MYSQL_TYPE_DOUBLE => read_scalar(
                ct,
                is_unsigned,
                buf,
            ),
            ColumnType::MYSQL_TYPE_TIMESTAMP => {
                let val = eat_le(buf, 4)?;
                Ok(Value::Int(val as i64))
            },
            ColumnType::MYSQL_TYPE_INT24 => {
                let val = eat_le(buf, 3)?;
                if is_unsigned || val < 0x80_0000 {
                    Ok(Value::Int(val as i64))
                } else {
                    Ok(Value::Int(val as i64 - 0x100_0000))
                }
            },
            ColumnType::MYSQL_TYPE_TIME => {
                let tmp = eat_le(buf, 3)?;
                let h = tmp / 10000;
                let m = (tmp % 10000) / 100;
                let s = tmp % 100;
                Ok(Value::Time(false, 0, h as u8, m as u8, s as u8, 0))
            },
            ColumnType::MYSQL_TYPE_DATETIME => {
                // a decimal YYYYMMDDhhmmss
                let raw = eat_le(buf, 8)?;
                let d_part = raw / 1_000_000;
                let t_part = raw % 1_000_000;
                Ok(
                    Value::Date(
                        (d_part / 10000) as u16,
                        ((d_part % 10000) / 100) as u8,
                        (d_part % 100) as u8,
                        (t_part / 10000) as u8,
                        ((t_part % 10000) / 100) as u8,
                        (t_part % 100) as u8,
                        0,
                    ),
                )
            },
            ColumnType::MYSQL_TYPE_YEAR => {
                let y = eat_le(buf, 1)?;
                let mut out: Vec<u8> = Vec::new();
                push_decimal(1900 + y, 1, &mut out);
                Ok(Value::Bytes(out))
            },
            ColumnType::MYSQL_TYPE_NEWDATE => {
                let tmp = eat_le(buf, 3)?;
                let d = tmp % 32;
                let m = (tmp / 32) % 16;
                let y = tmp / 512;
                Ok(Value::Date(y as u16, m as u8, d as u8, 0, 0, 0, 0))
            },
            ColumnType::MYSQL_TYPE_BIT => {
                let nbits = col_meta[0] as usize * 8 + col_meta[1] as usize;
                read_bytes(buf, (nbits + 7) / 8)
            },
            ColumnType::MYSQL_TYPE_TIMESTAMP2 => timestamp_from_binary(buf, col_meta[0]),
            ColumnType::MYSQL_TYPE_DATETIME2 => datetime_from_binary(buf, col_meta[0]),
            ColumnType::MYSQL_TYPE_TIME2 => time_from_binary(buf, col_meta[0]),
            ColumnType::MYSQL_TYPE_JSON => {
                return read_json(buf, is_partial);
            },
            ColumnType::MYSQL_TYPE_NEWDECIMAL => {
                // precision: the most decimal digits; scale: the digits after the point
                let text = read_decimal(buf, col_meta[0], col_meta[1])?;
                Ok(Value::Bytes(text))
            },
            ColumnType::MYSQL_TYPE_ENUM => {
                if col_meta[1] == 1 || col_meta[1] == 2 {
                    let val = eat_le(buf, col_meta[1] as usize)?;
                    Ok(Value::Int(val as i64))
                } else {
                    Err(DecodeError::UnknownEnum)
                }
            },
            ColumnType::MYSQL_TYPE_SET => read_bytes(buf, col_meta[1] as usize * 8),
            ColumnType::MYSQL_TYPE_TINY_BLOB | ColumnType::MYSQL_TYPE_MEDIUM_BLOB
            | ColumnType::MYSQL_TYPE_LONG_BLOB | ColumnType::MYSQL_TYPE_BLOB => {
                if 1 <= col_meta[0] && col_meta[0] <= 4 {
                    read_prefixed(buf, col_meta[0] as usize)
                } else {
                    Err(DecodeError::UnknownBlob)
                }
            },
            ColumnType::MYSQL_TYPE_VARCHAR | ColumnType::MYSQL_TYPE_VAR_STRING => {
                let type_len = col_meta[0] as usize + 256 * col_meta[1] as usize;
                read_prefixed(buf, if type_len < 256 { 1 } else { 2 })
            },
            ColumnType::MYSQL_TYPE_STRING => read_prefixed(buf, if length < 256 { 1 } else { 2 }),
            _ => Err(DecodeError::UnsupportedColumnType),
        };
        match v {
            Ok(v) => Ok(BinlogValue::Value(v)),
            Err(e) => Err(e),
        }
    }
}

} // verus!
