use vstd::prelude::*;
use crate::error::DecodeError;
use crate::parse_buf::{be, lemma_pow256_8, lemma_pow256_mono, pow256, ParseBuf};
use crate::text::{decimal_min, push_decimal};

verus! {

/// Bytes that hold `d` decimal digits, for `d` below nine.
pub open spec fn dig2bytes(d: nat) -> nat {
    if d == 0 {
        0
    } else if d <= 2 {
        1
    } else if d <= 4 {
        2
    } else if d <= 6 {
        3
    } else {
        4
    }
}

pub open spec fn pow10(n: nat) -> nat
    decreases n,
{
    if n == 0 {
        1
    } else {
        10 * pow10((n - 1) as nat)
    }
}

/// Bytes of a binary DECIMAL with `intg` digits before the point and `frac` after: four for
/// each full group of nine digits, fewer for the digits left over on either side.
pub open spec fn decimal_bin_size(intg: nat, frac: nat) -> nat {
    (intg / 9) * 4 + dig2bytes(intg % 9) + (frac / 9) * 4 + dig2bytes(frac % 9)
}

/// The stored bytes `b` with the sign removed: the top bit of the first byte is flipped, and
/// for a negative value (top bit clear) every byte is inverted.
pub open spec fn unmask(b: Seq<u8>) -> Seq<u8> {
    let neg = b[0] < 128;
    Seq::new(
        b.len(),
        |i: int|
            if i == 0 {
                if neg {
                    (127 - b[0]) as u8
                } else {
                    (b[0] - 128) as u8
                }
            } else if neg {
                (255 - b[i]) as u8
            } else {
                b[i]
            },
    )
}

/// Each four-byte group of `s` holds fewer than ten digits.
pub open spec fn groups_ok(s: Seq<u8>) -> bool
    decreases s.len(),
{
    if s.len() < 4 {
        true
    } else {
        groups_ok(s.subrange(0, s.len() - 4)) && be(s.subrange(s.len() - 4, s.len() as int))
            < 1_000_000_000
    }
}

/// The nine digits of each four-byte group of `s`, in order.
pub open spec fn groups_text(s: Seq<u8>) -> Seq<u8>
    decreases s.len(),
{
    if s.len() < 4 {
        Seq::empty()
    } else {
        groups_text(s.subrange(0, s.len() - 4)) + decimal_min(
            be(s.subrange(s.len() - 4, s.len() as int)),
            9,
        )
    }
}

/// `s` without its leading zero digits.
pub open spec fn strip_zeros(s: Seq<u8>) -> Seq<u8>
    decreases s.len(),
{
    if s.len() > 0 && s[0] == 48 {
        strip_zeros(s.drop_first())
    } else {
        s
    }
}

/// The text of a binary DECIMAL column with the given precision and scale at the start of `r`,
/// and the bytes it takes: a minus sign if negative, the integer digits without leading zeros
/// (at least one), and, if the scale is not zero, a point and exactly `scale` digits.
pub open spec fn decimal_spec(r: Seq<u8>, precision: u8, scale: u8) -> Result<(Seq<u8>, nat), DecodeError> {
    if precision == 0 || precision > 65 || scale > precision {
        Err(DecodeError::InvalidDecimal)
    } else {
        let intg = (precision - scale) as nat;
        let frac = scale as nat;
        let w = decimal_bin_size(intg, frac);
        if r.len() < w {
            Err(DecodeError::UnexpectedEof)
        } else {
            let b = r.take(w as int);
            let neg = b[0] < 128;
            let u = unmask(b);
            let lw = dig2bytes(intg % 9);
            let iw = lw + (intg / 9) * 4;
            let fw = iw + (frac / 9) * 4;
            let lead = be(u.take(lw as int));
            let trail = be(u.subrange(fw as int, w as int));
            if lead >= pow10(intg % 9) || !groups_ok(u.subrange(lw as int, iw as int))
                || !groups_ok(u.subrange(iw as int, fw as int)) || trail >= pow10(frac % 9) {
                Err(DecodeError::InvalidDecimal)
            } else {
                let digits = (if intg % 9 == 0 {
                    Seq::empty()
                } else {
                    decimal_min(lead, intg % 9)
                }) + groups_text(u.subrange(lw as int, iw as int));
                let int_text = if strip_zeros(digits).len() == 0 {
                    seq![48u8]
                } else {
                    strip_zeros(digits)
                };
                let frac_text = groups_text(u.subrange(iw as int, fw as int)) + (if frac % 9 == 0 {
                    Seq::empty()
                } else {
                    decimal_min(trail, frac % 9)
                });
                let sign = if neg {
                    seq![45u8]
                } else {
                    Seq::empty()
                };
                let point = if frac > 0 {
                    seq![46u8] + frac_text
                } else {
                    Seq::empty()
                };
                Ok((sign + int_text + point, w))
            }
        }
    }
}

proof fn lemma_groups_ok_prefix(s: Seq<u8>, k: nat)
    requires
        s.len() % 4 == 0,
        4 * k <= s.len(),
        groups_ok(s),
    ensures
        groups_ok(s.subrange(0, 4 * k as int)),
    decreases s.len(),
{
    if 4 * k == s.len() {
        assert(s.subrange(0, 4 * k as int) =~= s);
    } else {
        let p = s.subrange(0, s.len() - 4);
        assert(p.subrange(0, 4 * k as int) =~= s.subrange(0, 4 * k as int));
        lemma_groups_ok_prefix(p, k);
    }
}

proof fn lemma_strip_nonzero(s: Seq<u8>)
    requires
        s.len() == 0 || s[0] != 48,
    ensures
        strip_zeros(s) == s,
{
}

fn dig2bytes_exec(d: usize) -> (r: usize)
    requires
        d < 9,
    ensures
        r == dig2bytes(d as nat),
{
    if d == 0 {
        0
    } else if d <= 2 {
        1
    } else if d <= 4 {
        2
    } else if d <= 6 {
        3
    } else {
        4
    }
}

fn pow10_exec(n: usize) -> (r: u64)
    requires
        n < 9,
    ensures
        r == pow10(n as nat),
        r <= 100_000_000,
{
    reveal_with_fuel(pow10, 9);
    if n == 0 {
        1
    } else if n == 1 {
        10
    } else if n == 2 {
        100
    } else if n == 3 {
        1000
    } else if n == 4 {
        10000
    } else if n == 5 {
        100000
    } else if n == 6 {
        1000000
    } else if n == 7 {
        10000000
    } else {
        100000000
    }
}

fn push_all(out: &mut Vec<u8>, s: &[u8])
    ensures
        final(out)@ == old(out)@ + s@,
{
    let mut i: usize = 0;
    while i < s.len()
        invariant
            i <= s@.len(),
            out@ == old(out)@ + s@.take(i as int),
        decreases s@.len() - i,
    {
        out.push(s[i]);
        i = i + 1;
        assert(out@ =~= old(out)@ + s@.take(i as int));
    }
    assert(s@.take(i as int) =~= s@);
}

/// Reads `count` four-byte groups of nine digits each and appends their digits to `out`.
fn read_groups(p: &mut ParseBuf, count: usize, out: &mut Vec<u8>) -> (r: Result<(), DecodeError>)
    requires
        old(p).wf(),
        4 * count <= old(p).rest().len(),
    ensures
        final(p).wf(),
        final(p).data == old(p).data,
        groups_ok(old(p).rest().take(4 * count)) <==> r is Ok,
        r is Err ==> r == Err::<(), DecodeError>(DecodeError::InvalidDecimal),
        r is Ok ==> final(p).pos == old(p).pos + 4 * count && final(out)@ == old(out)@
            + groups_text(old(p).rest().take(4 * count)),
{
    let ghost r0 = p.rest();
    let ghost p0 = p.pos;
    let mut k: usize = 0;
    proof {
        lemma_pow256_8();
        assert(r0.take(0) =~= Seq::<u8>::empty());
    }
    while k < count
        invariant
            p.wf(),
            p.data == old(p).data,
            r0 == old(p).rest(),
            4 * count <= r0.len(),
            k <= count,
            p.pos == p0 + 4 * k,
            p0 == old(p).pos,
            groups_ok(r0.take(4 * k)),
            out@ == old(out)@ + groups_text(r0.take(4 * k)),
            pow256(4) == 0x1_0000_0000,
        decreases count - k,
    {
        let ghost g = r0.subrange(4 * k, 4 * k + 4);
        let ghost nxt = r0.take(4 * k + 4);
        proof {
            assert(p.rest().take(4) =~= g);
            assert(nxt.subrange(0, nxt.len() - 4) =~= r0.take(4 * k));
            assert(nxt.subrange(nxt.len() - 4, nxt.len() as int) =~= g);
        }
        let v = p.eat_uint_be(4).unwrap();
        if v >= 1_000_000_000 {
            proof {
                if groups_ok(r0.take(4 * count)) {
                    lemma_groups_ok_prefix(r0.take(4 * count), (k + 1) as nat);
                    assert(r0.take(4 * count).subrange(0, 4 * (k + 1) as int) =~= nxt);
                }
            }
            return Err(DecodeError::InvalidDecimal);
        }
        push_decimal(v, 9, out);
        k = k + 1;
        proof {
            assert(out@ =~= old(out)@ + groups_text(r0.take(4 * k)));
        }
    }
    Ok(())
}

/// The stored bytes with the sign removed.
fn unmask_exec(raw: &[u8]) -> (r: Vec<u8>)
    requires
        raw@.len() > 0,
    ensures
        r@ == unmask(raw@),
{
    let ghost u_spec = unmask(raw@);
    let neg = raw[0] < 128;
    let mut u: Vec<u8> = Vec::new();
    let mut i: usize = 0;
    while i < raw.len()
        invariant
            raw@.len() > 0,
            neg == (raw@[0] < 128),
            u_spec == unmask(raw@),
            i <= raw@.len(),
            u@ == u_spec.take(i as int),
        decreases raw@.len() - i,
    {
        let x = raw[i];
        let y: u8 = if i == 0 {
            if neg {
                127 - x
            } else {
                x - 128
            }
        } else if neg {
            255 - x
        } else {
            x
        };
        u.push(y);
        i = i + 1;
        assert(u@ =~= u_spec.take(i as int));
    }
    assert(u@ =~= u_spec);
    u
}

/// Appends the integer digits `digits` without leading zeros, or a single zero if all are.
fn push_integer_digits(out: &mut Vec<u8>, digits: &[u8])
    ensures
        final(out)@ == old(out)@ + (if strip_zeros(digits@).len() == 0 {
            seq![48u8]
        } else {
            strip_zeros(digits@)
        }),
{
    let mut s: usize = 0;
    assert(digits@.skip(0) =~= digits@);
    while s < digits.len() && digits[s] == 48
        invariant
            s <= digits@.len(),
            strip_zeros(digits@) == strip_zeros(digits@.skip(s as int)),
        decreases digits@.len() - s,
    {
        assert(digits@.skip(s as int).drop_first() =~= digits@.skip(s + 1));
        s = s + 1;
    }
    proof {
        lemma_strip_nonzero(digits@.skip(s as int));
    }
    if s == digits.len() {
        out.push(48u8);
    } else {
        let rest = vstd::slice::slice_subrange(digits, s, digits.len());
        assert(rest@ =~= digits@.skip(s as int));
        push_all(out, rest);
    }
}

/// Reads a binary DECIMAL value with the given precision and scale, as text.
#[verifier::rlimit(40)]
pub fn read_decimal(buf: &mut ParseBuf, precision: u8, scale: u8) -> (r: Result<Vec<u8>, DecodeError>)
    requires
        old(buf).wf(),
    ensures
        final(buf).wf(),
        match (r, decimal_spec(old(buf).rest(), precision, scale)) {
            (Ok(v), Ok((m, n))) => v@ == m && old(buf).advanced(*final(buf), n),
            (Err(e), Err(e2)) => e == e2,
            _ => false,
        },
{
    if precision == 0 || precision > 65 || scale > precision {
        return Err(DecodeError::InvalidDecimal);
    }
    let intg = (precision - scale) as usize;
    let frac = scale as usize;
    let lw = dig2bytes_exec(intg % 9);
    let iw = lw + (intg / 9) * 4;
    let fw = iw + (frac / 9) * 4;
    let w = fw + dig2bytes_exec(frac % 9);
    let ghost r0 = buf.rest();
    let raw = match buf.eat(w) {
        Some(b) => b,
        None => return Err(DecodeError::UnexpectedEof),
    };
    let neg = raw[0] < 128;
    let u = unmask_exec(raw);
    let ghost u_spec = u@;
    let mut p = ParseBuf::new(u.as_slice());
    proof {
        lemma_pow256_8();
        lemma_pow256_mono(lw as nat, 4);
    }
    let lead = p.eat_uint_be(lw).unwrap();
    let lead_digits = intg % 9;
    if lead >= pow10_exec(lead_digits) {
        return Err(DecodeError::InvalidDecimal);
    }
    let mut digits: Vec<u8> = Vec::new();
    if lead_digits != 0 {
        push_decimal(lead, lead_digits as u64, &mut digits);
    }
    proof {
        assert(p.rest().take(4 * (intg / 9)) =~= u_spec.subrange(lw as int, iw as int));
    }
    proof {
        assert(r0.take(w as int) =~= raw@);
    }
    if read_groups(&mut p, intg / 9, &mut digits).is_err() {
        return Err(DecodeError::InvalidDecimal);
    }
    let mut out: Vec<u8> = Vec::new();
    if neg {
        out.push(45u8);
    }
    push_integer_digits(&mut out, digits.as_slice());
    proof {
        assert(p.rest().take(4 * (frac / 9)) =~= u_spec.subrange(iw as int, fw as int));
    }
    let mut frac_digits: Vec<u8> = Vec::new();
    if read_groups(&mut p, frac / 9, &mut frac_digits).is_err() {
        return Err(DecodeError::InvalidDecimal);
    }
    let trail_digits = frac % 9;
    let tw = w - fw;
    proof {
        assert(p.rest().take(tw as int) =~= u_spec.subrange(fw as int, w as int));
        lemma_pow256_mono(tw as nat, 4);
    }
    let trail = p.eat_uint_be(tw).unwrap();
    if trail >= pow10_exec(trail_digits) {
        return Err(DecodeError::InvalidDecimal);
    }
    if trail_digits != 0 {
        push_decimal(trail, trail_digits as u64, &mut frac_digits);
    }
    if frac > 0 {
        out.push(46u8);
        push_all(&mut out, frac_digits.as_slice());
    }
    proof {
        assert(u_spec.take(lw as int) =~= u_spec.subrange(0, lw as int));
        assert(r0.take(w as int) =~= raw@);
        let sp = decimal_spec(r0, precision, scale);
        assert(sp matches Ok((m, n)) && out@ =~= m);
    }
    Ok(out)
}

} // verus!
