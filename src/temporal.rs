use vstd::prelude::*;
use crate::error::DecodeError;
use crate::parse_buf::{be, lemma_pow256_8, pow256, signed, ParseBuf};
use crate::text::{decimal, decimal_min, push_decimal};
use crate::value::{Value, ValueModel};

verus! {

/// Bytes that hold the fractional seconds of a packed temporal value with `dec` digits.
pub open spec fn frac_width(dec: u8) -> nat {
    if dec == 0 || dec > 6 {
        0
    } else {
        ((dec + 1) / 2) as nat
    }
}

/// What the stored fraction is multiplied by to give microseconds.
pub open spec fn frac_scale(dec: u8) -> int {
    if dec == 1 || dec == 2 {
        10000
    } else if dec == 3 || dec == 4 {
        100
    } else {
        1
    }
}

/// The textual value of a TIMESTAMP2 column: seconds since the epoch, with six digits of
/// microseconds after a point unless there are none.
pub open spec fn timestamp_text(sec: nat, usec: nat) -> Seq<u8> {
    if usec == 0 {
        decimal(sec)
    } else {
        decimal(sec) + seq![46u8] + decimal_min(usec, 6)
    }
}

/// Decoding of a TIMESTAMP2 column with `dec` fractional digits from the bytes `r`: the value
/// and the bytes it takes.
pub open spec fn timestamp2_spec(r: Seq<u8>, dec: u8) -> Result<(ValueModel, nat), DecodeError> {
    let n = 4 + frac_width(dec);
    if r.len() < n {
        Err(DecodeError::UnexpectedEof)
    } else {
        let sec = be(r.take(4));
        let usec = be(r.subrange(4, n as int)) * frac_scale(dec);
        Ok((ValueModel::Bytes(timestamp_text(sec, usec as nat)), n))
    }
}

/// The date and time fields of a packed DATETIME value.
pub open spec fn datetime_fields(packed: int) -> ValueModel {
    let a = if packed < 0 { -packed } else { packed };
    let usec = a % 0x100_0000;
    let ymdhms = a / 0x100_0000;
    let ymd = ymdhms / 0x2_0000;
    let ym = ymd / 32;
    let hms = ymdhms % 0x2_0000;
    ValueModel::Date(
        (ym / 13) as u16,
        (ym % 13) as u8,
        (ymd % 32) as u8,
        (hms / 4096) as u8,
        ((hms / 64) % 64) as u8,
        (hms % 64) as u8,
        usec as u32,
    )
}

/// Decoding of a DATETIME2 column with `dec` fractional digits from the bytes `r`.
pub open spec fn datetime2_spec(r: Seq<u8>, dec: u8) -> Result<(ValueModel, nat), DecodeError> {
    let fw = frac_width(dec);
    let n = 5 + fw;
    if r.len() < n {
        Err(DecodeError::UnexpectedEof)
    } else {
        let intpart = be(r.take(5)) - 0x80_0000_0000;
        let frac = signed(be(r.subrange(5, n as int)), fw) * frac_scale(dec);
        Ok((datetime_fields(intpart * 0x100_0000 + frac), n))
    }
}

/// The time fields of a packed TIME value.
pub open spec fn time_fields(packed: int) -> ValueModel {
    let a = if packed < 0 { -packed } else { packed };
    let hms = a / 0x100_0000;
    let hour = (hms / 4096) % 1024;
    ValueModel::Time(
        packed < 0,
        (hour / 24) as u32,
        (hour % 24) as u8,
        ((hms / 64) % 64) as u8,
        (hms % 64) as u8,
        (a % 0x100_0000) as u32,
    )
}

/// The packed value of a TIME2 column with `dec` fractional digits stored in `r`: the integer
/// part, less its offset, in the high bits and microseconds in the low 24 bits; a negative
/// time with a fraction borrows one second from the integer part.
pub open spec fn time_packed(r: Seq<u8>, dec: u8) -> int {
    let intpart = be(r.take(3)) - 0x80_0000;
    if dec == 1 || dec == 2 || dec == 3 || dec == 4 {
        let frac = be(r.subrange(3, 3 + frac_width(dec) as int));
        let full = pow256(frac_width(dec));
        if intpart < 0 && frac > 0 {
            (intpart + 1) * 0x100_0000 + (frac - full) * frac_scale(dec)
        } else {
            intpart * 0x100_0000 + frac * frac_scale(dec)
        }
    } else if dec == 5 || dec == 6 {
        be(r.take(6)) - 0x8000_0000_0000
    } else {
        intpart * 0x100_0000
    }
}

/// Decoding of a TIME2 column with `dec` fractional digits from the bytes `r`.
pub open spec fn time2_spec(r: Seq<u8>, dec: u8) -> Result<(ValueModel, nat), DecodeError> {
    let n = 3 + frac_width(dec);
    if r.len() < n {
        Err(DecodeError::UnexpectedEof)
    } else {
        Ok((time_fields(time_packed(r, dec)), n))
    }
}

fn eat_be(buf: &mut ParseBuf, n: usize) -> (r: Result<u64, DecodeError>)
    requires
        old(buf).wf(),
        n <= 8,
    ensures
        final(buf).wf(),
        n <= old(buf).rest().len() ==> r == Ok::<u64, DecodeError>(be(old(buf).rest().take(n as int)) as u64)
            && be(old(buf).rest().take(n as int)) < pow256(n as nat) && old(buf).advanced(
            *final(buf),
            n as nat,
        ),
        n > old(buf).rest().len() ==> r == Err::<u64, DecodeError>(DecodeError::UnexpectedEof),
{
    match buf.eat_uint_be(n) {
        Some(v) => Ok(v),
        None => Err(DecodeError::UnexpectedEof),
    }
}

fn frac_width_exec(dec: u8) -> (r: usize)
    ensures
        r == frac_width(dec),
{
    if dec == 0 || dec > 6 {
        0
    } else {
        ((dec + 1) / 2) as usize
    }
}

fn frac_scale_exec(dec: u8) -> (r: i128)
    ensures
        r == frac_scale(dec),
{
    if dec == 1 || dec == 2 {
        10000
    } else if dec == 3 || dec == 4 {
        100
    } else {
        1
    }
}

/// Reads a TIMESTAMP2 value with `dec` fractional digits, as text.
pub fn timestamp_from_binary(buf: &mut ParseBuf, dec: u8) -> (r: Result<Value, DecodeError>)
    requires
        old(buf).wf(),
    ensures
        final(buf).wf(),
        match (r, timestamp2_spec(old(buf).rest(), dec)) {
            (Ok(v), Ok((m, n))) => v@ == m && old(buf).advanced(*final(buf), n),
            (Err(e), Err(e2)) => e == e2,
            _ => false,
        },
{
    let ghost r0 = buf.rest();
    let fw = frac_width_exec(dec);
    if buf.remaining() < 4 + fw {
        return Err(DecodeError::UnexpectedEof);
    }
    let sec = eat_be(buf, 4)?;
    let ghost r1 = buf.rest();
    let frac = eat_be(buf, fw)?;
    proof {
        lemma_pow256_8();
        assert(r1.take(fw as int) =~= r0.subrange(4, 4 + fw));
        assert(pow256(fw as nat) <= pow256(3)) by {
            crate::parse_buf::lemma_pow256_mono(fw as nat, 3);
        }
    }
    let usec: u64 = frac * (frac_scale_exec(dec) as u64);
    let mut out: Vec<u8> = Vec::new();
    push_decimal(sec, 1, &mut out);
    if usec != 0 {
        out.push(46u8);
        push_decimal(usec, 6, &mut out);
    }
    proof {
        assert(out@ =~= timestamp_text(sec as nat, usec as nat));
    }
    Ok(Value::Bytes(out))
}

/// Splits a packed DATETIME value into its fields.
fn datetime_from_packed(packed: i128) -> (r: Value)
    requires
        -0x1_0000_0000_0000_0000 < packed < 0x1_0000_0000_0000_0000,
    ensures
        r@ == datetime_fields(packed as int),
{
    let a: i128 = if packed < 0 { -packed } else { packed };
    let usec = a % 0x100_0000;
    let ymdhms = a / 0x100_0000;
    let ymd = ymdhms / 0x2_0000;
    let ym = ymd / 32;
    let hms = ymdhms % 0x2_0000;
    Value::Date(
        (ym / 13) as u16,
        (ym % 13) as u8,
        (ymd % 32) as u8,
        (hms / 4096) as u8,
        ((hms / 64) % 64) as u8,
        (hms % 64) as u8,
        usec as u32,
    )
}

/// Splits a packed TIME value into its fields.
fn time_from_packed(packed: i128) -> (r: Value)
    requires
        -0x1_0000_0000_0000_0000 < packed < 0x1_0000_0000_0000_0000,
    ensures
        r@ == time_fields(packed as int),
{
    let a: i128 = if packed < 0 { -packed } else { packed };
    let hms = a / 0x100_0000;
    let hour = (hms / 4096) % 1024;
    Value::Time(
        packed < 0,
        (hour / 24) as u32,
        (hour % 24) as u8,
        ((hms / 64) % 64) as u8,
        (hms % 64) as u8,
        (a % 0x100_0000) as u32,
    )
}

/// Reads a DATETIME2 value with `dec` fractional digits.
pub fn datetime_from_binary(buf: &mut ParseBuf, dec: u8) -> (r: Result<Value, DecodeError>)
    requires
        old(buf).wf(),
    ensures
        final(buf).wf(),
        match (r, datetime2_spec(old(buf).rest(), dec)) {
            (Ok(v), Ok((m, n))) => v@ == m && old(buf).advanced(*final(buf), n),
            (Err(e), Err(e2)) => e == e2,
            _ => false,
        },
{
    let ghost r0 = buf.rest();
    let fw = frac_width_exec(dec);
    if buf.remaining() < 5 + fw {
        return Err(DecodeError::UnexpectedEof);
    }
    let int_raw = eat_be(buf, 5)?;
    let ghost r1 = buf.rest();
    let frac_raw = eat_be(buf, fw)?;
    proof {
        lemma_pow256_8();
        assert(r1.take(fw as int) =~= r0.subrange(5, 5 + fw));
        crate::parse_buf::lemma_pow256_mono(fw as nat, 3);
        crate::parse_buf::lemma_pow256_mono(5, 8);
        reveal_with_fuel(pow256, 6);
    }
    let full: i128 = if fw == 0 { 1 } else if fw == 1 { 0x100 } else if fw == 2 { 0x1_0000 } else { 0x100_0000 };
    let f: i128 = frac_raw as i128;
    let sf: i128 = if 2 * f >= full { f - full } else { f };
    let intpart: i128 = int_raw as i128 - 0x80_0000_0000;
    let scale = frac_scale_exec(dec);
    assert(full == pow256(fw as nat));
    assert(sf == signed(frac_raw as nat, fw as nat));
    assert(-0x100_0000 <= sf <= 0x100_0000);
    assert(0 <= int_raw < 0x100_0000_0000);
    assert(-0x100_0000 * 10000 <= sf * scale <= 0x100_0000 * 10000) by (nonlinear_arith)
        requires
            -0x100_0000 <= sf <= 0x100_0000,
            1 <= scale <= 10000,
    ;
    assert(-0x100_0000_0000 * 0x100_0000 <= intpart * 0x100_0000 <= 0x100_0000_0000 * 0x100_0000) by (nonlinear_arith)
        requires
            -0x100_0000_0000 <= intpart <= 0x100_0000_0000,
    ;
    let packed: i128 = intpart * 0x100_0000 + sf * scale;
    Ok(datetime_from_packed(packed))
}

/// Reads a TIME2 value with `dec` fractional digits.
pub fn time_from_binary(buf: &mut ParseBuf, dec: u8) -> (r: Result<Value, DecodeError>)
    requires
        old(buf).wf(),
    ensures
        final(buf).wf(),
        match (r, time2_spec(old(buf).rest(), dec)) {
            (Ok(v), Ok((m, n))) => v@ == m && old(buf).advanced(*final(buf), n),
            (Err(e), Err(e2)) => e == e2,
            _ => false,
        },
{
    let ghost r0 = buf.rest();
    let fw = frac_width_exec(dec);
    if buf.remaining() < 3 + fw {
        return Err(DecodeError::UnexpectedEof);
    }
    proof {
        lemma_pow256_8();
        crate::parse_buf::lemma_pow256_mono(fw as nat, 3);
        reveal_with_fuel(pow256, 7);
    }
    let packed: i128 = if dec == 5 || dec == 6 {
        let raw = eat_be(buf, 6)?;
        raw as i128 - 0x8000_0000_0000
    } else {
        let int_raw = eat_be(buf, 3)?;
        let ghost r1 = buf.rest();
        let intpart: i128 = int_raw as i128 - 0x80_0000;
        if dec == 1 || dec == 2 || dec == 3 || dec == 4 {
            let frac_raw = eat_be(buf, fw)?;
            proof {
                assert(r1.take(fw as int) =~= r0.subrange(3, 3 + fw));
            }
            let full: i128 = if fw == 1 { 0x100 } else { 0x1_0000 };
            let frac: i128 = frac_raw as i128;
            if intpart < 0 && frac > 0 {
                (intpart + 1) * 0x100_0000 + (frac - full) * frac_scale_exec(dec)
            } else {
                intpart * 0x100_0000 + frac * frac_scale_exec(dec)
            }
        } else {
            intpart * 0x100_0000
        }
    };
    Ok(time_from_packed(packed))
}

} // verus!
