use vstd::prelude::*;

verus! {

/// The decimal digits of `n`, as ASCII, with leading zeros up to at least `w` digits.
pub open spec fn decimal_min(n: nat, w: nat) -> Seq<u8>
    decreases n + w,
{
    if n < 10 && w <= 1 {
        seq![(48 + n) as u8]
    } else {
        decimal_min(n / 10, if w > 0 { (w - 1) as nat } else { 0 }).push((48 + n % 10) as u8)
    }
}

/// The decimal digits of `n`, as ASCII.
pub open spec fn decimal(n: nat) -> Seq<u8> {
    decimal_min(n, 1)
}

/// Appends the decimal digits of `n` to `out`, with leading zeros up to at least `w` digits.
pub fn push_decimal(n: u64, w: u64, out: &mut Vec<u8>)
    ensures
        final(out)@ == old(out)@ + decimal_min(n as nat, w as nat),
    decreases n + w,
{
    if n < 10 && w <= 1 {
        out.push(48 + n as u8);
        assert(final(out)@ =~= old(out)@ + decimal_min(n as nat, w as nat));
    } else {
        let w2: u64 = if w > 0 { w - 1 } else { 0 };
        push_decimal(n / 10, w2, out);
        out.push(48 + (n % 10) as u8);
        assert(final(out)@ =~= old(out)@ + decimal_min(n as nat, w as nat));
    }
}

} // verus!
