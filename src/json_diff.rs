use vstd::prelude::*;
use crate::error::DecodeError;
use crate::parse_buf::{le, lemma_pow256_8, ParseBuf};
use crate::value::{JsonDiff, JsonDiffModel, JsonDiffOperation, JsonbValue, RawBytes};

verus! {

/// A length-encoded integer at the start of `r`: its value and the bytes it takes.
pub open spec fn lenenc_spec(r: Seq<u8>) -> Result<(nat, nat), DecodeError> {
    if r.len() == 0 {
        Err(DecodeError::UnexpectedEof)
    } else if r[0] < 251 {
        Ok((r[0] as nat, 1))
    } else if r[0] == 251 || r[0] == 255 {
        Err(DecodeError::InvalidLengthEncodedInt)
    } else {
        let w: nat = if r[0] == 252 { 2 } else if r[0] == 253 { 3 } else { 8 };
        if r.len() < 1 + w {
            Err(DecodeError::UnexpectedEof)
        } else {
            Ok((le(r.subrange(1, 1 + w as int)), 1 + w))
        }
    }
}

/// The operation that a byte names.
pub open spec fn diff_operation_of(b: u8) -> Option<JsonDiffOperation> {
    if b == 0 {
        Some(JsonDiffOperation::REPLACE)
    } else if b == 1 {
        Some(JsonDiffOperation::INSERT)
    } else if b == 2 {
        Some(JsonDiffOperation::REMOVE)
    } else {
        None
    }
}

/// Length-encoded bytes at the start of `r`: the bytes and how many of `r` they take.
pub open spec fn lenenc_bytes_spec(r: Seq<u8>) -> Result<(Seq<u8>, nat), DecodeError> {
    match lenenc_spec(r) {
        Err(e) => Err(e),
        Ok((len, k)) => if r.len() < k + len {
            Err(DecodeError::UnexpectedEof)
        } else {
            Ok((r.subrange(k as int, (k + len) as int), k + len))
        },
    }
}

/// One partial JSON update record at the start of `r`: an operation byte, a length-encoded
/// path and, unless the operation removes, a length-encoded binary JSON value.
pub open spec fn diff_spec(r: Seq<u8>) -> Result<(JsonDiffModel, nat), DecodeError> {
    if r.len() == 0 {
        Err(DecodeError::UnexpectedEof)
    } else {
        match diff_operation_of(r[0]) {
            None => Err(DecodeError::UnknownJsonDiffOperation),
            Some(op) => match lenenc_bytes_spec(r.drop_first()) {
                Err(e) => Err(e),
                Ok((path, k1)) => if op == JsonDiffOperation::REMOVE {
                    Ok((JsonDiffModel { path, operation: op, value: None }, 1 + k1))
                } else {
                    match lenenc_bytes_spec(r.subrange(1 + k1 as int, r.len() as int)) {
                        Err(e) => Err(e),
                        Ok((value, k2)) => Ok(
                            (JsonDiffModel { path, operation: op, value: Some(value) }, 1 + k1 + k2),
                        ),
                    }
                },
            },
        }
    }
}

/// The records of a partial JSON update that fill `r` exactly.
pub open spec fn diffs_spec(r: Seq<u8>) -> Result<Seq<JsonDiffModel>, DecodeError>
    decreases r.len(),
{
    if r.len() == 0 {
        Ok(Seq::empty())
    } else {
        match diff_spec(r) {
            Err(e) => Err(e),
            Ok((d, n)) => if 0 < n <= r.len() {
                match diffs_spec(r.subrange(n as int, r.len() as int)) {
                    Err(e) => Err(e),
                    Ok(ds) => Ok(seq![d] + ds),
                }
            } else {
                Err(DecodeError::UnexpectedEof)
            },
        }
    }
}

pub proof fn lemma_lenenc_bytes_len(r: Seq<u8>)
    ensures
        lenenc_bytes_spec(r) matches Ok((b, k)) ==> b.len() < k <= r.len(),
{
}

pub proof fn lemma_diff_len(r: Seq<u8>)
    ensures
        diff_spec(r) matches Ok((d, n)) ==> 0 < n <= r.len(),
{
    if r.len() > 0 {
        lemma_lenenc_bytes_len(r.drop_first());
        if let Ok((path, k1)) = lenenc_bytes_spec(r.drop_first()) {
            lemma_lenenc_bytes_len(r.subrange(1 + k1 as int, r.len() as int));
        }
    }
}

/// Reads a length-encoded integer.
pub fn eat_lenenc_int(buf: &mut ParseBuf) -> (r: Result<u64, DecodeError>)
    requires
        old(buf).wf(),
    ensures
        final(buf).wf(),
        match (r, lenenc_spec(old(buf).rest())) {
            (Ok(v), Ok((m, n))) => v == m && old(buf).advanced(*final(buf), n),
            (Err(e), Err(e2)) => e == e2,
            _ => false,
        },
{
    let ghost r0 = buf.rest();
    let first = match buf.eat_uint_le(1) {
        Some(b) => b,
        None => return Err(DecodeError::UnexpectedEof),
    };
    proof {
        lemma_pow256_8();
        reveal_with_fuel(le, 2);
        assert(r0.take(1).drop_first() =~= Seq::<u8>::empty());
    }
    if first < 251 {
        return Ok(first);
    }
    if first == 251 || first == 255 {
        return Err(DecodeError::InvalidLengthEncodedInt);
    }
    let w: usize = if first == 252 { 2 } else if first == 253 { 3 } else { 8 };
    let ghost r1 = buf.rest();
    let v = match buf.eat_uint_le(w) {
        Some(v) => v,
        None => return Err(DecodeError::UnexpectedEof),
    };
    proof {
        assert(r1.take(w as int) =~= r0.subrange(1, 1 + w as int));
    }
    Ok(v)
}

/// Reads length-encoded bytes, borrowed from the buffer.
pub fn eat_lenenc_bytes<'a>(buf: &mut ParseBuf<'a>) -> (r: Result<&'a [u8], DecodeError>)
    requires
        old(buf).wf(),
    ensures
        final(buf).wf(),
        match (r, lenenc_bytes_spec(old(buf).rest())) {
            (Ok(v), Ok((m, n))) => v@ == m && old(buf).advanced(*final(buf), n),
            (Err(e), Err(e2)) => e == e2,
            _ => false,
        },
{
    let ghost r0 = buf.rest();
    let len = eat_lenenc_int(buf)?;
    let ghost r1 = buf.rest();
    if len > buf.remaining() as u64 {
        return Err(DecodeError::UnexpectedEof);
    }
    let bytes = match buf.eat(len as usize) {
        Some(b) => b,
        None => return Err(DecodeError::UnexpectedEof),
    };
    proof {
        let k = r0.len() - r1.len();
        assert(r1 =~= r0.subrange(k, r0.len() as int));
        assert(bytes@ =~= r0.subrange(k, k + len));
    }
    Ok(bytes)
}

/// Reads one partial JSON update record; its path and value borrow from the buffer.
pub fn eat_json_diff<'a>(buf: &mut ParseBuf<'a>) -> (r: Result<JsonDiff<'a>, DecodeError>)
    requires
        old(buf).wf(),
    ensures
        final(buf).wf(),
        match (r, diff_spec(old(buf).rest())) {
            (Ok(v), Ok((m, n))) => v@ == m && old(buf).advanced(*final(buf), n),
            (Err(e), Err(e2)) => e == e2,
            _ => false,
        },
{
    let ghost r0 = buf.rest();
    let b = match buf.eat_uint_le(1) {
        Some(b) => b,
        None => return Err(DecodeError::UnexpectedEof),
    };
    proof {
        lemma_pow256_8();
        reveal_with_fuel(le, 2);
        assert(r0.take(1).drop_first() =~= Seq::<u8>::empty());
        assert(buf.rest() =~= r0.drop_first());
    }
    let operation = if b == 0 {
        JsonDiffOperation::REPLACE
    } else if b == 1 {
        JsonDiffOperation::INSERT
    } else if b == 2 {
        JsonDiffOperation::REMOVE
    } else {
        return Err(DecodeError::UnknownJsonDiffOperation);
    };
    let path = eat_lenenc_bytes(buf)?;
    if operation == JsonDiffOperation::REMOVE {
        return Ok(JsonDiff { path: RawBytes::Borrowed(path), operation, value: None });
    }
    let ghost r2 = buf.rest();
    proof {
        let k = r0.len() - r2.len();
        assert(r2 =~= r0.subrange(k, r0.len() as int));
    }
    let value = eat_lenenc_bytes(buf)?;
    Ok(
        JsonDiff {
            path: RawBytes::Borrowed(path),
            operation,
            value: Some(JsonbValue { data: RawBytes::Borrowed(value) }),
        },
    )
}

proof fn lemma_lenenc_prefix(t: Seq<u8>, t2: Seq<u8>)
    requires
        lenenc_bytes_spec(t) is Ok,
        t2.len() >= lenenc_bytes_spec(t)->Ok_0.1,
        t2.take(lenenc_bytes_spec(t)->Ok_0.1 as int) == t.take(lenenc_bytes_spec(t)->Ok_0.1 as int),
    ensures
        lenenc_bytes_spec(t2) == lenenc_bytes_spec(t),
{
    let n = lenenc_bytes_spec(t)->Ok_0.1 as int;
    assert(t2[0] == t.take(n)[0]);
    let (len, k) = lenenc_spec(t)->Ok_0;
    assert(t2.subrange(1, k as int) =~= t.take(n).subrange(1, k as int));
    assert(t.subrange(1, k as int) =~= t.take(n).subrange(1, k as int));
    assert(t2.subrange(k as int, n) =~= t.take(n).subrange(k as int, n));
    assert(t.subrange(k as int, n) =~= t.take(n).subrange(k as int, n));
}

proof fn lemma_lenenc_truncated(t: Seq<u8>, m: nat)
    requires
        lenenc_bytes_spec(t) is Ok,
        m < lenenc_bytes_spec(t)->Ok_0.1,
    ensures
        lenenc_bytes_spec(t.take(m as int)) == Err::<(Seq<u8>, nat), DecodeError>(
            DecodeError::UnexpectedEof,
        ),
{
    let (len, k) = lenenc_spec(t)->Ok_0;
    if m > 0 {
        assert(t.take(m as int)[0] == t[0]);
        if m >= k {
            assert(t.take(m as int).subrange(1, k as int) =~= t.subrange(1, k as int));
        }
    }
}

/// A record's decoding depends on its own bytes alone: whatever follows them, it is the same.
pub proof fn lemma_diff_prefix(t: Seq<u8>, t2: Seq<u8>)
    requires
        diff_spec(t) is Ok,
        t2.len() >= diff_spec(t)->Ok_0.1,
        t2.take(diff_spec(t)->Ok_0.1 as int) == t.take(diff_spec(t)->Ok_0.1 as int),
    ensures
        diff_spec(t2) == diff_spec(t),
{
    let n = diff_spec(t)->Ok_0.1 as int;
    assert(t2[0] == t.take(n)[0]);
    let a = t.drop_first();
    let a2 = t2.drop_first();
    let k1 = lenenc_bytes_spec(a)->Ok_0.1;
    assert(a2.take(k1 as int) =~= t2.take(n).subrange(1, 1 + k1 as int));
    assert(a.take(k1 as int) =~= t.take(n).subrange(1, 1 + k1 as int));
    lemma_lenenc_prefix(a, a2);
    if diff_operation_of(t[0]) != Some(JsonDiffOperation::REMOVE) {
        let b = t.subrange(1 + k1 as int, t.len() as int);
        let b2 = t2.subrange(1 + k1 as int, t2.len() as int);
        let k2 = lenenc_bytes_spec(b)->Ok_0.1;
        assert(b2.take(k2 as int) =~= t2.take(n).subrange(1 + k1 as int, n));
        assert(b.take(k2 as int) =~= t.take(n).subrange(1 + k1 as int, n));
        lemma_lenenc_prefix(b, b2);
    }
}

/// A record cut short anywhere fails as truncated.
pub proof fn lemma_diff_truncated(t: Seq<u8>, m: nat)
    requires
        diff_spec(t) is Ok,
        m < diff_spec(t)->Ok_0.1,
    ensures
        diff_spec(t.take(m as int)) == Err::<(JsonDiffModel, nat), DecodeError>(
            DecodeError::UnexpectedEof,
        ),
{
    let tm = t.take(m as int);
    if m > 0 {
        assert(tm[0] == t[0]);
        let a = t.drop_first();
        let k1 = lenenc_bytes_spec(a)->Ok_0.1;
        assert(tm.drop_first() =~= a.take(m - 1));
        if m - 1 < k1 {
            lemma_lenenc_truncated(a, (m - 1) as nat);
        } else {
            assert(a.take(m - 1).take(k1 as int) =~= a.take(k1 as int));
            lemma_lenenc_prefix(a, a.take(m - 1));
            let b = t.subrange(1 + k1 as int, t.len() as int);
            assert(tm.subrange(1 + k1 as int, m as int) =~= b.take(m - 1 - k1));
            lemma_lenenc_truncated(b, (m - 1 - k1) as nat);
        }
    }
}

/// Partial JSON update records decode one after another: the records of `a`, followed by
/// one whole record `c`, decode to the records of `a` and then that of `c`, one more; and if
/// `c` is cut short anywhere after its first byte, the whole fails as truncated.
pub proof fn lemma_diffs_append(a: Seq<u8>, c: Seq<u8>, m: nat)
    requires
        diffs_spec(a) is Ok,
        diff_spec(c) is Ok,
        diff_spec(c)->Ok_0.1 == c.len(),
        0 < m < c.len(),
    ensures
        diffs_spec(a + c) == Ok::<Seq<JsonDiffModel>, DecodeError>(
            diffs_spec(a)->Ok_0.push(diff_spec(c)->Ok_0.0),
        ),
        diffs_spec(a + c)->Ok_0.len() == diffs_spec(a)->Ok_0.len() + 1,
        diffs_spec(a + c.take(m as int)) == Err::<Seq<JsonDiffModel>, DecodeError>(
            DecodeError::UnexpectedEof,
        ),
    decreases a.len(),
{
    if a.len() == 0 {
        assert(a + c =~= c);
        assert(a + c.take(m as int) =~= c.take(m as int));
        assert(c.subrange(c.len() as int, c.len() as int) =~= Seq::<u8>::empty());
        let d = diff_spec(c)->Ok_0.0;
        assert(diffs_spec(c.subrange(c.len() as int, c.len() as int)) == Ok::<Seq<JsonDiffModel>, DecodeError>(Seq::empty()));
        assert(diffs_spec(c) == Ok::<Seq<JsonDiffModel>, DecodeError>(seq![d] + Seq::<JsonDiffModel>::empty()));
        assert(seq![d] + Seq::<JsonDiffModel>::empty() =~= Seq::<JsonDiffModel>::empty().push(d));
        assert(diffs_spec(a) == Ok::<Seq<JsonDiffModel>, DecodeError>(Seq::empty()));
        lemma_diff_truncated(c, m);
        lemma_diff_len(c.take(m as int));
    } else {
        lemma_diff_len(a);
        let n = diff_spec(a)->Ok_0.1;
        let d0 = diff_spec(a)->Ok_0.0;
        let rest = a.subrange(n as int, a.len() as int);
        let x = a + c;
        let y = a + c.take(m as int);
        assert(x.take(n as int) =~= a.take(n as int));
        assert(y.take(n as int) =~= a.take(n as int));
        lemma_diff_prefix(a, x);
        lemma_diff_prefix(a, y);
        assert(x.subrange(n as int, x.len() as int) =~= rest + c);
        assert(y.subrange(n as int, y.len() as int) =~= rest + c.take(m as int));
        lemma_diffs_append(rest, c, m);
        let ds = diffs_spec(rest)->Ok_0;
        assert(seq![d0] + ds.push(diff_spec(c)->Ok_0.0) =~= (seq![d0] + ds).push(diff_spec(c)->Ok_0.0));
    }
}

} // verus!
