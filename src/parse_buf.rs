use vstd::prelude::*;

verus! {

/// `256` raised to `n`: one more than the largest value that `n` bytes hold.
pub open spec fn pow256(n: nat) -> nat
    decreases n,
{
    if n == 0 {
        1
    } else {
        256 * pow256((n - 1) as nat)
    }
}

/// The unsigned integer that the bytes `s` encode, least significant byte first.
pub open spec fn le(s: Seq<u8>) -> nat
    decreases s.len(),
{
    if s.len() == 0 {
        0
    } else {
        s[0] as nat + 256 * le(s.drop_first())
    }
}

/// The unsigned integer that the bytes `s` encode, most significant byte first.
pub open spec fn be(s: Seq<u8>) -> nat
    decreases s.len(),
{
    if s.len() == 0 {
        0
    } else {
        be(s.drop_last()) * 256 + s.last() as nat
    }
}

/// The two's complement reading of the `n`-byte unsigned value `u`.
pub open spec fn signed(u: nat, n: nat) -> int {
    if 2 * u >= pow256(n) {
        u - pow256(n)
    } else {
        u as int
    }
}

pub proof fn lemma_pow256_mono(a: nat, b: nat)
    requires
        a <= b,
    ensures
        pow256(a) <= pow256(b),
    decreases b,
{
    if a < b {
        lemma_pow256_mono(a, (b - 1) as nat);
    }
}

pub proof fn lemma_pow256_8()
    ensures
        pow256(8) == 0x1_0000_0000_0000_0000,
        pow256(4) == 0x1_0000_0000,
        pow256(3) == 0x100_0000,
        pow256(2) == 0x1_0000,
        pow256(1) == 0x100,
{
    reveal_with_fuel(pow256, 9);
}

pub proof fn lemma_le_bound(s: Seq<u8>)
    ensures
        le(s) < pow256(s.len()),
    decreases s.len(),
{
    if s.len() > 0 {
        lemma_le_bound(s.drop_first());
    }
}

pub proof fn lemma_be_bound(s: Seq<u8>)
    ensures
        be(s) < pow256(s.len()),
    decreases s.len(),
{
    if s.len() > 0 {
        lemma_be_bound(s.drop_last());
        assert(pow256(s.len()) == 256 * pow256((s.len() - 1) as nat));
    }
}

/// A cursor over a row image: the bytes and the offset of the next byte to read.
#[derive(Clone, Copy, Debug)]
pub struct ParseBuf<'a> {
    pub data: &'a [u8],
    pub pos: usize,
}

impl<'a> ParseBuf<'a> {
    pub open spec fn wf(&self) -> bool {
        self.pos <= self.data@.len()
    }

    /// The bytes not yet read.
    pub open spec fn rest(&self) -> Seq<u8> {
        self.data@.subrange(self.pos as int, self.data@.len() as int)
    }

    /// `next` is `self` with `n` more bytes read.
    pub open spec fn advanced(&self, next: ParseBuf<'a>, n: nat) -> bool {
        &&& next.data == self.data
        &&& next.pos == self.pos + n
    }

    /// A cursor at the start of `data`.
    pub fn new(data: &'a [u8]) -> (r: ParseBuf<'a>)
        ensures
            r.wf(),
            r.data == data,
            r.pos == 0,
            r.rest() == data@,
    {
        let r = ParseBuf { data, pos: 0 };
        assert(r.rest() =~= data@);
        r
    }

    /// The number of bytes not yet read.
    pub fn remaining(&self) -> (r: usize)
        requires
            self.wf(),
        ensures
            r == self.rest().len(),
    {
        self.data.len() - self.pos
    }

    /// Whether every byte has been read.
    pub fn is_empty(&self) -> (r: bool)
        requires
            self.wf(),
        ensures
            r == (self.rest().len() == 0),
    {
        self.pos == self.data.len()
    }

    /// Reads the next `n` bytes, borrowed from the underlying buffer.
    pub fn eat(&mut self, n: usize) -> (r: Option<&'a [u8]>)
        requires
            old(self).wf(),
        ensures
            final(self).wf(),
            n <= old(self).rest().len() ==> r.is_some() && r.unwrap()@ == old(self).rest().take(
                n as int,
            ) && old(self).advanced(*final(self), n as nat),
            n > old(self).rest().len() ==> r.is_none() && *final(self) == *old(self),
    {
        if n > self.data.len() - self.pos {
            return None;
        }
        let s = vstd::slice::slice_subrange(self.data, self.pos, self.pos + n);
        self.pos = self.pos + n;
        assert(s@ =~= old(self).rest().take(n as int));
        Some(s)
    }

    /// Reads an `n`-byte unsigned integer stored least significant byte first.
    pub fn eat_uint_le(&mut self, n: usize) -> (r: Option<u64>)
        requires
            old(self).wf(),
            n <= 8,
        ensures
            final(self).wf(),
            n <= old(self).rest().len() ==> r == Some(le(old(self).rest().take(n as int)) as u64)
                && le(old(self).rest().take(n as int)) < pow256(n as nat) && old(self).advanced(
                *final(self),
                n as nat,
            ),
            n > old(self).rest().len() ==> r.is_none() && *final(self) == *old(self),
    {
        let s = match self.eat(n) {
            Some(s) => s,
            None => return None,
        };
        let ghost bytes = s@;
        let mut v: u64 = 0;
        let mut k: usize = n;
        proof {
            lemma_pow256_8();
            assert(bytes.subrange(n as int, n as int) =~= Seq::<u8>::empty());
        }
        while k > 0
            invariant
                s@ == bytes,
                bytes.len() == n,
                n <= 8,
                k <= n,
                v == le(bytes.subrange(k as int, n as int)),
                v < pow256((n - k) as nat),
                pow256(8) == 0x1_0000_0000_0000_0000,
            decreases k,
        {
            let ghost prev = bytes.subrange(k as int, n as int);
            proof {
                assert(bytes.subrange(k - 1, n as int).drop_first() =~= prev);
                lemma_pow256_mono((n - k + 1) as nat, 8);
            }
            v = v * 256 + s[k - 1] as u64;
            k = k - 1;
        }
        proof {
            assert(bytes.subrange(0, n as int) =~= bytes);
            lemma_le_bound(bytes);
        }
        Some(v)
    }

    /// Reads an `n`-byte unsigned integer stored most significant byte first.
    pub fn eat_uint_be(&mut self, n: usize) -> (r: Option<u64>)
        requires
            old(self).wf(),
            n <= 8,
        ensures
            final(self).wf(),
            n <= old(self).rest().len() ==> r == Some(be(old(self).rest().take(n as int)) as u64)
                && be(old(self).rest().take(n as int)) < pow256(n as nat) && old(self).advanced(
                *final(self),
                n as nat,
            ),
            n > old(self).rest().len() ==> r.is_none() && *final(self) == *old(self),
    {
        let s = match self.eat(n) {
            Some(s) => s,
            None => return None,
        };
        let ghost bytes = s@;
        let mut v: u64 = 0;
        let mut k: usize = 0;
        proof {
            lemma_pow256_8();
            assert(bytes.subrange(0, 0) =~= Seq::<u8>::empty());
        }
        while k < n
            invariant
                s@ == bytes,
                bytes.len() == n,
                n <= 8,
                k <= n,
                v == be(bytes.subrange(0, k as int)),
                v < pow256(k as nat),
                pow256(8) == 0x1_0000_0000_0000_0000,
            decreases n - k,
        {
            proof {
                assert(bytes.subrange(0, k + 1).drop_last() =~= bytes.subrange(0, k as int));
                lemma_pow256_mono((k + 1) as nat, 8);
            }
            v = v * 256 + s[k] as u64;
            k = k + 1;
        }
        proof {
            assert(bytes.subrange(0, n as int) =~= bytes);
            lemma_be_bound(bytes);
        }
        Some(v)
    }
}

} // verus!
