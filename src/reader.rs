//! A cursor over a byte slice with TASTy's variable-length integer encodings.
use vstd::prelude::*;
use vstd::arithmetic::div_mod::{lemma_add_mod_noop, lemma_mul_mod_noop_left};
use vstd::arithmetic::power2::{lemma2_to64, lemma_pow2_adds, pow2};
use vstd::slice::slice_subrange;
use vstd::utf8::{decode_utf8, valid_utf8};

use crate::error::TastyError;

verus! {

/// 2^64, the modulus of `u64` arithmetic.
pub open spec fn two64() -> int {
    0x1_0000_0000_0000_0000
}

/// Whether `b` ends a variable-length number: its high bit is set.
pub open spec fn is_terminal(b: u8) -> bool {
    b >= 128
}

/// The value of the 7-bit groups of `s`, most significant first.
pub open spec fn groups_value(s: Seq<u8>) -> int
    decreases s.len(),
{
    if s.len() == 0 {
        0
    } else {
        groups_value(s.drop_last()) * 128 + (s.last() % 128) as int
    }
}

/// The index of the first terminal byte of `s` in `[i, limit)`, if any.
pub open spec fn terminal_from(s: Seq<u8>, i: int, limit: int) -> Option<int>
    decreases limit - i,
{
    if i >= limit {
        None
    } else if is_terminal(s[i]) {
        Some(i)
    } else {
        terminal_from(s, i + 1, limit)
    }
}

/// A terminal byte found by `terminal_from` lies in the searched range.
pub proof fn lemma_terminal_from_range(s: Seq<u8>, i: int, limit: int)
    ensures
        terminal_from(s, i, limit) matches Some(t) ==> i <= t < limit && is_terminal(s[t]),
    decreases limit - i,
{
    if i < limit && !is_terminal(s[i]) {
        lemma_terminal_from_range(s, i + 1, limit);
    }
}

/// A natural number read at `p` with reads stopping at `limit`: its value and
/// the offset just after it, or `None` when no terminal byte comes in time.
pub open spec fn spec_nat(s: Seq<u8>, p: int, limit: int) -> Option<(u64, int)> {
    match terminal_from(s, p, limit) {
        Some(t) => Some((nat_of(s.subrange(p, t + 1)), t + 1)),
        None => None,
    }
}

/// A signed number read at `p` (see `spec_nat`).
pub open spec fn spec_int(s: Seq<u8>, p: int, limit: int) -> Option<(i64, int)> {
    match terminal_from(s, p, limit) {
        Some(t) => Some((int_of(s.subrange(p, t + 1)), t + 1)),
        None => None,
    }
}

/// The natural number that the bytes `s` encode, kept to its low 64 bits.
pub open spec fn nat_of(s: Seq<u8>) -> u64 {
    (groups_value(s) % two64()) as u64
}

/// The signed number that the bytes `s` encode: their natural value
/// sign-extended from `7 * s.len()` bits (at most 64) to 64 bits.
pub open spec fn int_of(s: Seq<u8>) -> i64 {
    let a = groups_value(s) % two64();
    let w = if 7 * s.len() < 64 {
        pow2((7 * s.len()) as nat) as int
    } else {
        two64()
    };
    if 2 * a >= w {
        (a - w) as i64
    } else {
        a as i64
    }
}

/// The unsigned big-endian value of the bytes `s`.
pub open spec fn be_value(s: Seq<u8>) -> int
    decreases s.len(),
{
    if s.len() == 0 {
        0
    } else {
        be_value(s.drop_last()) * 256 + s.last() as int
    }
}

/// The big-endian two's complement value of eight bytes `s`.
pub open spec fn be_i64(s: Seq<u8>) -> i64 {
    let a = be_value(s);
    if 2 * a >= two64() {
        (a - two64()) as i64
    } else {
        a as i64
    }
}

proof fn lemma_groups_bound(s: Seq<u8>)
    ensures
        0 <= groups_value(s) < pow2((7 * s.len()) as nat),
    decreases s.len(),
{
    if s.len() == 0 {
        lemma2_to64();
    } else {
        lemma_groups_bound(s.drop_last());
        let k = (7 * (s.len() - 1)) as nat;
        lemma_pow2_adds(k, 7);
        lemma2_to64();
        assert((7 * s.len()) as nat == k + 7);
        let g = groups_value(s.drop_last());
        let p = pow2(k) as int;
        assert(g * 128 + 127 < p * 128) by (nonlinear_arith)
            requires
                0 <= g < p,
        ;
        assert(g * 128 >= 0) by (nonlinear_arith)
            requires
                0 <= g,
        ;
    }
}

proof fn lemma_be_bound(s: Seq<u8>)
    ensures
        0 <= be_value(s) < pow2((8 * s.len()) as nat),
    decreases s.len(),
{
    if s.len() == 0 {
        lemma2_to64();
    } else {
        lemma_be_bound(s.drop_last());
        let k = (8 * (s.len() - 1)) as nat;
        lemma_pow2_adds(k, 8);
        lemma2_to64();
        assert((8 * s.len()) as nat == k + 8);
        let g = be_value(s.drop_last());
        let p = pow2(k) as int;
        assert(g * 256 + 255 < p * 256) by (nonlinear_arith)
            requires
                0 <= g < p,
        ;
        assert(g * 256 >= 0) by (nonlinear_arith)
            requires
                0 <= g,
        ;
    }
}

/// `128^k`, that is `2^(7k)`.
fn pow128(k: usize) -> (r: u64)
    requires
        k <= 9,
    ensures
        r == pow2((7 * k) as nat),
{
    let mut scale: u64 = 1;
    let mut i: usize = 0;
    proof {
        lemma2_to64();
    }
    while i < k
        invariant
            i <= k <= 9,
            scale == pow2((7 * i) as nat),
        decreases k - i,
    {
        proof {
            lemma2_to64();
            lemma_pow2_adds((7 * i) as nat, 7);
            assert((7 * (i + 1)) as nat == (7 * i) as nat + 7);
            vstd::arithmetic::power2::lemma_pow2_strictly_increases((7 * (i + 1)) as nat, 64);
        }
        scale = scale * 128;
        i = i + 1;
    }
    scale
}

/// Relies on std::str::from_utf8: it succeeds exactly on valid UTF-8, and the
/// string it returns holds the characters that the bytes encode.
#[verifier::external_body]
fn utf8_str<'b>(b: &'b [u8]) -> (r: Option<&'b str>)
    ensures
        r is Some <==> valid_utf8(b@),
        r is Some ==> r->Some_0@ == decode_utf8(b@),
{
    std::str::from_utf8(b).ok()
}

/// Zero-copy cursor over TASTy bytes: reads happen in `[pos, end)` of `data`.
pub struct TastyReader<'a> {
    data: &'a [u8],
    pos: usize,
    end: usize,
}

impl<'a> TastyReader<'a> {
    /// The whole underlying buffer.
    pub closed spec fn buf(&self) -> Seq<u8> {
        self.data@
    }

    /// The current offset into the buffer.
    pub closed spec fn at(&self) -> int {
        self.pos as int
    }

    /// The offset at which reading stops.
    pub closed spec fn limit(&self) -> int {
        self.end as int
    }

    /// The limit lies within the buffer.
    pub open spec fn wf(&self) -> bool {
        self.limit() <= self.buf().len()
    }

    /// A reader over all of `data`.
    pub fn new(data: &'a [u8]) -> (r: Self)
        ensures
            r.wf(),
            r.buf() == data@,
            r.at() == 0,
            r.limit() == data@.len(),
    {
        TastyReader { data, pos: 0, end: data.len() }
    }

    /// A reader over `[start, end)` of the same buffer.
    pub fn sub_reader(&self, start: usize, end: usize) -> (r: Self)
        requires
            end <= self.buf().len(),
        ensures
            r.wf(),
            r.buf() == self.buf(),
            r.at() == start,
            r.limit() == end,
    {
        TastyReader { data: self.data, pos: start, end }
    }

    /// The current offset.
    pub fn pos(&self) -> (r: usize)
        ensures
            r == self.at(),
    {
        self.pos
    }

    /// The number of bytes left before the limit.
    pub fn remaining(&self) -> (r: usize)
        requires
            self.at() <= self.limit(),
        ensures
            r == self.limit() - self.at(),
    {
        self.end - self.pos
    }

    /// Whether no byte is left before the limit.
    pub fn at_end(&self) -> (r: bool)
        ensures
            r == (self.at() >= self.limit()),
    {
        self.pos >= self.end
    }

    /// The offset at which reading stops.
    pub fn end(&self) -> (r: usize)
        ensures
            r == self.limit(),
    {
        self.end
    }

    /// Moves the cursor to `pos`.
    pub fn set_pos(&mut self, pos: usize)
        ensures
            final(self).buf() == old(self).buf(),
            final(self).limit() == old(self).limit(),
            final(self).at() == pos,
    {
        self.pos = pos;
    }

    /// Reads one byte.
    pub fn read_byte(&mut self) -> (r: Result<u8, TastyError>)
        requires
            old(self).wf(),
        ensures
            final(self).wf(),
            final(self).buf() == old(self).buf(),
            final(self).limit() == old(self).limit(),
            old(self).at() < old(self).limit() ==> r == Ok::<u8, TastyError>(
                old(self).buf()[old(self).at()],
            ) && final(self).at() == old(self).at() + 1,
            old(self).at() >= old(self).limit() ==> r == Err::<u8, TastyError>(
                TastyError::UnexpectedEnd { offset: old(self).at() as usize },
            ) && final(self).at() == old(self).at(),
    {
        if self.pos >= self.end {
            return Err(TastyError::UnexpectedEnd { offset: self.pos });
        }
        let b = self.data[self.pos];
        self.pos = self.pos + 1;
        Ok(b)
    }

    /// Reads `n` bytes, returned as a view into the buffer.
    pub fn read_bytes(&mut self, n: usize) -> (r: Result<&'a [u8], TastyError>)
        requires
            old(self).wf(),
        ensures
            final(self).wf(),
            final(self).buf() == old(self).buf(),
            final(self).limit() == old(self).limit(),
            old(self).at() + n <= old(self).limit() ==> r is Ok && r->Ok_0@ == old(
                self,
            ).buf().subrange(old(self).at(), old(self).at() + n) && final(self).at() == old(
                self,
            ).at() + n,
            old(self).at() + n > old(self).limit() ==> r == Err::<&'a [u8], TastyError>(
                TastyError::UnexpectedEnd { offset: old(self).at() as usize },
            ) && final(self).at() == old(self).at(),
    {
        if self.pos > self.end || n > self.end - self.pos {
            return Err(TastyError::UnexpectedEnd { offset: self.pos });
        }
        let slice = slice_subrange(self.data, self.pos, self.pos + n);
        self.pos = self.pos + n;
        Ok(slice)
    }

    /// Reads the 7-bit groups of one variable-length number: their value
    /// kept to 64 bits, and how many bytes it took.
    fn read_groups(&mut self) -> (r: Result<(u64, usize), TastyError>)
        requires
            old(self).wf(),
        ensures
            final(self).wf(),
            final(self).buf() == old(self).buf(),
            final(self).limit() == old(self).limit(),
            match terminal_from(old(self).buf(), old(self).at(), old(self).limit()) {
                Some(t) => r is Ok && r->Ok_0.0 == nat_of(old(self).buf().subrange(old(self).at(), t + 1))
                    && r->Ok_0.1 == t + 1 - old(self).at() && final(self).at() == t + 1,
                None => r is Err && r->Err_0 == (TastyError::UnexpectedEnd {
                    offset: (if old(self).at() >= old(self).limit() { old(self).at() } else { old(self).limit() }) as usize,
                }),
            },
    {
        if self.pos >= self.end {
            return Err(TastyError::UnexpectedEnd { offset: self.pos });
        }
        let ghost start = self.pos as int;
        let ghost s = self.data@;
        let mut acc: u64 = 0;
        let mut count: usize = 0;
        assert(s.subrange(start, start) =~= Seq::<u8>::empty());
        loop
            invariant
                self.wf(),
                s == old(self).buf(),
                start == old(self).at(),
                self.buf() == s,
                self.limit() == old(self).limit(),
                self.limit() <= s.len(),
                start <= self.at() <= self.limit(),
                count == self.at() - start,
                terminal_from(s, start, self.limit()) == terminal_from(s, self.at(), self.limit()),
                acc == groups_value(s.subrange(start, self.at())) % two64(),
            decreases self.limit() - self.at(),
        {
            let ghost p = self.pos as int;
            let b = match self.read_byte() {
                Ok(b) => b,
                Err(e) => {
                    return Err(e);
                },
            };
            assert(self.at() == p + 1 && b == s[p]);
            let low: u64 = (b % 128) as u64;
            let m = acc.wrapping_mul(128);
            let ghost g = groups_value(s.subrange(start, p));
            proof {
                assert(s.subrange(start, p + 1).drop_last() =~= s.subrange(start, p));
                assert(groups_value(s.subrange(start, p + 1)) == g * 128 + low);
                lemma_mul_mod_noop_left(g, 128, two64());
                lemma_add_mod_noop(g * 128, low as int, two64());
                assert(m == (g * 128) % two64());
            }
            acc = m.wrapping_add(low);
            count = count + 1;
            proof {
                assert(acc == (m + low) % two64());
                assert((low as int) % two64() == low);
            }
            if b >= 128 {
                return Ok((acc, count));
            }
        }
    }

    /// Reads a natural number: base-128 big-endian groups, where a byte with
    /// the high bit set is the last one. Bits above 64 are dropped.
    pub fn read_nat(&mut self) -> (r: Result<u64, TastyError>)
        requires
            old(self).wf(),
        ensures
            final(self).wf(),
            final(self).buf() == old(self).buf(),
            final(self).limit() == old(self).limit(),
            terminal_from(old(self).buf(), old(self).at(), old(self).limit()) matches Some(t) ==> old(self).at() <= t < old(self).limit(),
            match terminal_from(old(self).buf(), old(self).at(), old(self).limit()) {
                Some(t) => r == Ok::<u64, TastyError>(nat_of(old(self).buf().subrange(old(self).at(), t + 1)))
                    && final(self).at() == t + 1,
                None => r is Err && r->Err_0 == (TastyError::UnexpectedEnd {
                    offset: (if old(self).at() >= old(self).limit() { old(self).at() } else { old(self).limit() }) as usize,
                }),
            },
    {
        proof {
            lemma_terminal_from_range(old(self).buf(), old(self).at(), old(self).limit());
        }
        match self.read_groups() {
            Ok((v, _)) => Ok(v),
            Err(e) => Err(e),
        }
    }

    /// Reads a signed number: the bytes of a natural number, whose value is
    /// sign-extended from 7 bits per byte to 64 bits.
    pub fn read_int(&mut self) -> (r: Result<i64, TastyError>)
        requires
            old(self).wf(),
        ensures
            final(self).wf(),
            final(self).buf() == old(self).buf(),
            final(self).limit() == old(self).limit(),
            terminal_from(old(self).buf(), old(self).at(), old(self).limit()) matches Some(t) ==> old(self).at() <= t < old(self).limit(),
            match terminal_from(old(self).buf(), old(self).at(), old(self).limit()) {
                Some(t) => r == Ok::<i64, TastyError>(int_of(old(self).buf().subrange(old(self).at(), t + 1)))
                    && final(self).at() == t + 1,
                None => r is Err && r->Err_0 == (TastyError::UnexpectedEnd {
                    offset: (if old(self).at() >= old(self).limit() { old(self).at() } else { old(self).limit() }) as usize,
                }),
            },
    {
        proof {
            lemma_terminal_from_range(old(self).buf(), old(self).at(), old(self).limit());
        }
        let ghost s = self.buf();
        let ghost start = self.at();
        let (acc, count) = match self.read_groups() {
            Ok(v) => v,
            Err(e) => {
                return Err(e);
            },
        };
        let ghost bytes = s.subrange(start, start + count);
        proof {
            lemma_terminal_from_range(s, start, old(self).limit());
            lemma_groups_bound(bytes);
            lemma2_to64();
        }
        if count <= 9 {
            let scale = pow128(count);
            proof {
                lemma2_to64();
                assert(bytes.len() == count);
                vstd::arithmetic::power2::lemma_pow2_strictly_increases((7 * count) as nat, 64);
                vstd::arithmetic::div_mod::lemma_small_mod(groups_value(bytes) as nat, two64() as nat);
                assert(acc == groups_value(bytes));
            }
            if acc >= scale - scale / 2 {
                let neg = (scale - acc) as i64;
                Ok(-neg)
            } else {
                Ok(acc as i64)
            }
        } else {
            if acc >= 0x8000_0000_0000_0000 {
                let low = (acc - 0x8000_0000_0000_0000u64) as i64;
                Ok(low + i64::MIN)
            } else {
                Ok(acc as i64)
            }
        }
    }

    /// Reads `len` bytes of UTF-8 text.
    pub fn read_utf8(&mut self, len: usize) -> (r: Result<&'a str, TastyError>)
        requires
            old(self).wf(),
        ensures
            final(self).wf(),
            final(self).buf() == old(self).buf(),
            final(self).limit() == old(self).limit(),
            old(self).at() + len > old(self).limit() ==> r == Err::<&'a str, TastyError>(
                TastyError::UnexpectedEnd { offset: old(self).at() as usize },
            ),
            old(self).at() + len <= old(self).limit() ==> {
                let b = old(self).buf().subrange(old(self).at(), old(self).at() + len);
                &&& final(self).at() == old(self).at() + len
                &&& valid_utf8(b) ==> r is Ok && r->Ok_0@ == decode_utf8(b)
                &&& !valid_utf8(b) ==> r == Err::<&'a str, TastyError>(
                    TastyError::InvalidUtf8 { offset: (old(self).at() + len) as usize },
                )
            },
    {
        let bytes = self.read_bytes(len)?;
        match utf8_str(bytes) {
            Some(s) => Ok(s),
            None => Err(TastyError::InvalidUtf8 { offset: self.pos }),
        }
    }

    /// Reads eight bytes as a big-endian two's complement number.
    pub fn read_uncompressed_long(&mut self) -> (r: Result<i64, TastyError>)
        requires
            old(self).wf(),
        ensures
            final(self).wf(),
            final(self).buf() == old(self).buf(),
            final(self).limit() == old(self).limit(),
            old(self).at() + 8 <= old(self).limit() ==> r == Ok::<i64, TastyError>(
                be_i64(old(self).buf().subrange(old(self).at(), old(self).at() + 8)),
            ) && final(self).at() == old(self).at() + 8,
            old(self).at() + 8 > old(self).limit() ==> r == Err::<i64, TastyError>(
                TastyError::UnexpectedEnd { offset: old(self).at() as usize },
            ),
    {
        let bytes = self.read_bytes(8)?;
        let mut acc: u64 = 0;
        let mut i: usize = 0;
        proof {
            lemma2_to64();
        }
        while i < 8
            invariant
                bytes@.len() == 8,
                i <= 8,
                acc == be_value(bytes@.subrange(0, i as int)),
            decreases 8 - i,
        {
            proof {
                assert(bytes@.subrange(0, i + 1).drop_last() =~= bytes@.subrange(0, i as int));
                lemma2_to64();
                lemma_be_bound(bytes@.subrange(0, i as int));
                vstd::arithmetic::power2::lemma_pow2_adds((8 * i) as nat, 8);
                if 8 * i + 8 < 64 {
                    vstd::arithmetic::power2::lemma_pow2_strictly_increases((8 * i + 8) as nat, 64);
                }
                let g = acc as int;
                let p = pow2((8 * i) as nat) as int;
                assert(g * 256 + 255 < p * 256) by (nonlinear_arith)
                    requires
                        0 <= g < p,
                ;
            }
            acc = acc * 256 + bytes[i] as u64;
            i = i + 1;
        }
        assert(bytes@.subrange(0, 8) =~= bytes@);
        if acc >= 0x8000_0000_0000_0000 {
            let low = (acc - 0x8000_0000_0000_0000u64) as i64;
            Ok(low + i64::MIN)
        } else {
            Ok(acc as i64)
        }
    }
}

} // verus!
