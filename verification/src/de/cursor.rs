//! A byte cursor with streaming-aware primitive parsers.

use vstd::prelude::*;

mod leaf;
pub use leaf::{cursor_literal_spec, ParseLiteralError};

verus! {

/// How much more input a streaming parser needs before it can decide.
#[derive(Debug, Clone, Copy, PartialEq, Eq, Structural)]
pub enum Needed {
    /// More input is needed, but the amount is not known.
    Unknown,
    /// At least this many more bytes are needed (never zero).
    Size(usize),
}

/// Errors from the streaming parsers: either the input is malformed, or it
/// ends too early to decide.
#[derive(Debug, Clone, Copy, PartialEq, Eq, Structural)]
pub enum CursorError {
    Error,
    Incomplete { needed: Needed },
}

/// The error for a missing `n > 0` bytes.
pub open spec fn needs(n: int) -> CursorError {
    CursorError::Incomplete { needed: Needed::Size(n as usize) }
}

/// The error for input that ends before an unknown amount of bytes.
pub open spec fn needs_unknown() -> CursorError {
    CursorError::Incomplete { needed: Needed::Unknown }
}

/// Whether `b` is an ASCII decimal digit.
pub open spec fn is_digit(b: u8) -> bool {
    0x30 <= b <= 0x39
}

/// The number of leading ASCII digits of `s`.
pub open spec fn leading_digits(s: Seq<u8>) -> nat
    decreases s.len(),
{
    if s.len() == 0 || !is_digit(s[0]) {
        0
    } else {
        1 + leading_digits(s.drop_first())
    }
}

/// The big-endian value of four bytes.
pub open spec fn be_u32(b: Seq<u8>) -> u32 {
    (b[0] as int * 0x1000000 + b[1] as int * 0x10000 + b[2] as int * 0x100 + b[3] as int) as u32
}

/// The big-endian value of eight bytes.
pub open spec fn be_u64(b: Seq<u8>) -> u64 {
    (be_u32(b.subrange(0, 4)) as int * 0x1_0000_0000 + be_u32(b.subrange(4, 8)) as int) as u64
}

/// The leading ASCII digits of a cursor's input.
#[derive(Debug, Clone, Copy)]
pub struct DigitSpan<'digits> {
    pub digits: &'digits [u8],
}

/// A position in some input: the bytes that remain, and how many bytes of
/// the input lie before them.
#[derive(Debug, Clone, Copy)]
pub struct Cursor<'remaining> {
    pub rem: &'remaining [u8],
    pub off: usize,
}

pub type CResult<'rem, T> = Result<(Cursor<'rem>, T), CursorError>;

/// `next` is `cur` moved forward by `n` bytes.
pub open spec fn advanced(cur: Cursor, next: Cursor, n: int) -> bool {
    &&& 0 <= n <= cur.rem@.len()
    &&& next.rem@ == cur.rem@.skip(n)
    &&& next.off == cur.off + n
}

/// The outcome of a cursor parser that consumes `n` bytes and yields `v`
/// when `ok`, and fails with `e` otherwise.
pub open spec fn outcome<T>(cur: Cursor, r: CResult<T>, ok: bool, n: int, v: T, e: CursorError) -> bool {
    if ok {
        r matches Ok((next, w)) && advanced(cur, next, n) && w == v
    } else {
        r == Err::<(Cursor, T), CursorError>(e)
    }
}

impl<'rem> Cursor<'rem> {
    /// The cursor lies within an input that fits in memory: its offset plus
    /// what remains is addressable.
    pub open spec fn inv(self) -> bool {
        self.off + self.rem@.len() <= usize::MAX
    }

    /// A cursor at the start of the input.
    pub fn new(rem: &'rem [u8]) -> (res: Self)
        ensures
            res.rem@ == rem@,
            res.off == 0,
            res.inv(),
    {
        let _len = rem.len();
        Self { rem, off: 0 }
    }

    /// The cursor moved forward by `bytes`, which must remain.
    pub fn advance(&self, bytes: usize) -> (res: Cursor<'rem>)
        requires
            bytes <= self.rem@.len(),
            self.inv(),
        ensures
            advanced(*self, res, bytes as int),
    {
        let (front, rem) = self.rem.split_at(bytes);
        Cursor { rem, off: self.off + front.len() }
    }

    /// The cursor moved forward by `bytes`, or how many more bytes that needs.
    pub fn advance_checked(&self, bytes: usize) -> (res: Result<Cursor<'rem>, CursorError>)
        requires
            self.inv(),
        ensures
            bytes <= self.rem@.len() ==> (res matches Ok(next) && advanced(*self, next, bytes as int)),
            bytes > self.rem@.len() ==> res == Err::<Cursor, CursorError>(
                needs(bytes - self.rem@.len()),
            ),
    {
        if self.rem.len() < bytes {
            Err(CursorError::Incomplete { needed: Needed::Size(bytes - self.rem.len()) })
        } else {
            Ok(self.advance(bytes))
        }
    }

    /// The next byte, without moving.
    pub fn peek_1(&self) -> (res: Result<&u8, CursorError>)
        ensures
            self.rem@.len() == 0 ==> res == Err::<&u8, CursorError>(needs(1)),
            self.rem@.len() > 0 ==> res == Ok::<&u8, CursorError>(&self.rem@[0]),
    {
        if self.rem.len() == 0 {
            Err(CursorError::Incomplete { needed: Needed::Size(1) })
        } else {
            Ok(&self.rem[0])
        }
    }

    /// The bytes between this cursor and a later one over the same input.
    pub fn slice_to(self, next: Self) -> (res: Option<&'rem [u8]>)
        ensures
            (next.off >= self.off && next.off - self.off <= self.rem@.len()) ==> (res matches Some(s)
                && s@ == self.rem@.take(next.off - self.off)),
            !(next.off >= self.off && next.off - self.off <= self.rem@.len()) ==> res is None,
    {
        if next.off < self.off {
            return None;
        }
        let d = next.off - self.off;
        if d > self.rem.len() {
            None
        } else {
            let (front, _) = self.rem.split_at(d);
            Some(front)
        }
    }

    /// Accepts the single byte `pat`.
    pub fn byte(self, pat: u8) -> (res: Result<Self, CursorError>)
        requires
            self.inv(),
        ensures
            self.rem@.len() == 0 ==> res == Err::<Cursor, CursorError>(needs(1)),
            self.rem@.len() > 0 && self.rem@[0] == pat ==> (res matches Ok(next) && advanced(self, next, 1)),
            self.rem@.len() > 0 && self.rem@[0] != pat ==> res == Err::<Cursor, CursorError>(CursorError::Error),
    {
        match self.peek_1() {
            Ok(b) => {
                if *b == pat {
                    Ok(self.advance(1))
                } else {
                    Err(CursorError::Error)
                }
            },
            Err(e) => Err(e),
        }
    }

    /// Accepts one byte that occurs in `chars`.
    pub fn one_of(self, chars: &[u8]) -> (res: Result<Self, CursorError>)
        requires
            self.inv(),
        ensures
            self.rem@.len() == 0 ==> res == Err::<Cursor, CursorError>(needs(1)),
            self.rem@.len() > 0 && chars@.contains(self.rem@[0]) ==> (res matches Ok(next) && advanced(self, next, 1)),
            self.rem@.len() > 0 && !chars@.contains(self.rem@[0]) ==> res == Err::<Cursor, CursorError>(CursorError::Error),
    {
        let b = match self.peek_1() {
            Ok(b) => *b,
            Err(e) => return Err(e),
        };
        let mut i: usize = 0;
        while i < chars.len()
            invariant
                i <= chars@.len(),
                forall|j: int| 0 <= j < i ==> chars@[j] != b,
                self.rem@.len() > 0,
                b == self.rem@[0],
                self.inv(),
            decreases chars@.len() - i,
        {
            if chars[i] == b {
                return Ok(self.advance(1));
            }
            i = i + 1;
        }
        Err(CursorError::Error)
    }

    /// Accept one byte within `start..=end`.
    pub fn in_range(self, start: u8, end: u8) -> (res: Result<Self, CursorError>)
        requires
            self.inv(),
        ensures
            self.rem@.len() == 0 ==> res == Err::<Cursor, CursorError>(needs(1)),
            self.rem@.len() > 0 && start <= self.rem@[0] <= end ==> (res matches Ok(next) && advanced(self, next, 1)),
            self.rem@.len() > 0 && !(start <= self.rem@[0] <= end) ==> res == Err::<Cursor, CursorError>(CursorError::Error),
    {
        let b = match self.peek_1() {
            Ok(b) => *b,
            Err(e) => return Err(e),
        };
        if start <= b && b <= end {
            Ok(self.advance(1))
        } else {
            Err(CursorError::Error)
        }
    }

    /// Accepts the bytes of `tag`.
    pub fn tag(self, tag: &[u8]) -> (res: Result<Self, CursorError>)
        requires
            self.inv(),
        ensures
            tag@.len() > self.rem@.len() ==> res == Err::<Cursor, CursorError>(needs(tag@.len() - self.rem@.len())),
            tag@.len() <= self.rem@.len() && self.rem@.take(tag@.len() as int) == tag@ ==> (res matches Ok(next)
                && advanced(self, next, tag@.len() as int)),
            tag@.len() <= self.rem@.len() && self.rem@.take(tag@.len() as int) != tag@ ==> res == Err::<Cursor, CursorError>(CursorError::Error),
    {
        let res = match self.advance_checked(tag.len()) {
            Ok(r) => r,
            Err(e) => return Err(e),
        };
        let mut i: usize = 0;
        while i < tag.len()
            invariant
                tag@.len() <= self.rem@.len(),
                i <= tag@.len(),
                forall|j: int| 0 <= j < i ==> tag@[j] == self.rem@[j],
            decreases tag@.len() - i,
        {
            if tag[i] != self.rem[i] {
                assert(self.rem@.take(tag@.len() as int)[i as int] != tag@[i as int]);
                return Err(CursorError::Error);
            }
            i = i + 1;
        }
        assert(self.rem@.take(tag@.len() as int) =~= tag@);
        Ok(res)
    }
}

/// Literal parsing.
impl<'rem> Cursor<'rem> {
    /// A boolean: `t` or `f`.
    pub fn bool(self) -> (res: CResult<'rem, bool>)
        requires
            self.inv(),
        ensures
            outcome(
                self,
                res,
                self.rem@.len() > 0 && (self.rem@[0] == 0x74 || self.rem@[0] == 0x66),
                1,
                self.rem@.len() > 0 && self.rem@[0] == 0x74,
                if self.rem@.len() == 0 { needs(1) } else { CursorError::Error },
            ),
    {
        match self.peek_1() {
            Ok(b) => {
                if *b == 0x74u8 {
                    Ok((self.advance(1), true))
                } else if *b == 0x66u8 {
                    Ok((self.advance(1), false))
                } else {
                    Err(CursorError::Error)
                }
            },
            Err(e) => Err(e),
        }
    }

    /// The leading ASCII digits; there must be at least one.
    pub fn digits<'digits>(self) -> (res: CResult<'rem, DigitSpan<'digits>>) where 'rem: 'digits
        requires
            self.inv(),
        ensures
            leading_digits(self.rem@) == 0 && self.rem@.len() == 0 ==> res == Err::<(Cursor, DigitSpan), CursorError>(needs_unknown()),
            leading_digits(self.rem@) == 0 && self.rem@.len() > 0 ==> res == Err::<(Cursor, DigitSpan), CursorError>(CursorError::Error),
            leading_digits(self.rem@) > 0 ==> (res matches Ok((next, span))
                && advanced(self, next, leading_digits(self.rem@) as int)
                && span.digits@ == self.rem@.take(leading_digits(self.rem@) as int)),
    {
        let mut len: usize = 0;
        proof {
            lemma_leading_digits_bound(self.rem@);
            assert(self.rem@.skip(0) =~= self.rem@);
        }
        while len < self.rem.len() && is_ascii_digit(self.rem[len])
            invariant
                len <= self.rem@.len(),
                leading_digits(self.rem@) == len + leading_digits(self.rem@.skip(len as int)),
            decreases self.rem@.len() - len,
        {
            proof {
                assert(self.rem@.skip(len as int).drop_first() =~= self.rem@.skip(len + 1));
            }
            len = len + 1;
        }
        proof {
            if len < self.rem@.len() {
                assert(self.rem@.skip(len as int)[0] == self.rem@[len as int]);
            }
        }
        if len == 0 {
            if self.rem.len() == 0 {
                Err(CursorError::Incomplete { needed: Needed::Unknown })
            } else {
                Err(CursorError::Error)
            }
        } else {
            let res = self.advance(len);
            let (front, _) = self.rem.split_at(len);
            Ok((res, DigitSpan { digits: front }))
        }
    }

    /// An integer: decimal digits, then `+` or `-`; yields the sign and the digits.
    pub fn integer(self) -> (res: CResult<'rem, (bool, &'rem [u8])>)
        requires
            self.inv(),
        ensures
            ({
                let n = leading_digits(self.rem@) as int;
                let rest = self.rem@.skip(n);
                if n == 0 {
                    res == Err::<(Cursor, (bool, &[u8])), CursorError>(
                        if self.rem@.len() == 0 { needs_unknown() } else { CursorError::Error },
                    )
                } else {
                    if rest.len() > 0 && (rest[0] == 0x2b || rest[0] == 0x2d) {
                        res matches Ok((next, (positive, digits)))
                            && advanced(self, next, n + 1)
                            && positive == (rest[0] == 0x2b)
                            && digits@ == self.rem@.take(n)
                    } else {
                        res == Err::<(Cursor, (bool, &[u8])), CursorError>(
                            if rest.len() == 0 { needs(1) } else { CursorError::Error },
                        )
                    }
                }
            }),
    {
        let (rem, digits) = match self.digits() {
            Ok(r) => r,
            Err(e) => return Err(e),
        };
        proof {
            if rem.rem@.len() > 0 {
                assert(rem.rem@.skip(1) =~= self.rem@.skip(leading_digits(self.rem@) as int + 1));
            }
        }
        rem.preparsed_int(digits)
    }

    /// Read the sign that follows an already lexed run of digits.
    pub fn preparsed_int<'int>(self, digits: DigitSpan<'int>) -> (res: CResult<'rem, (bool, &'int [u8])>)
        requires
            self.inv(),
        ensures
            outcome(
                self,
                res,
                self.rem@.len() > 0 && (self.rem@[0] == 0x2b || self.rem@[0] == 0x2d),
                1,
                (self.rem@.len() > 0 && self.rem@[0] == 0x2b, digits.digits),
                if self.rem@.len() == 0 { needs(1) } else { CursorError::Error },
            ),
    {
        match self.peek_1() {
            Ok(b) => {
                if *b == 0x2bu8 {
                    Ok((self.advance(1), (true, digits.digits)))
                } else if *b == 0x2du8 {
                    Ok((self.advance(1), (false, digits.digits)))
                } else {
                    Err(CursorError::Error)
                }
            },
            Err(e) => Err(e),
        }
    }

    fn netstring(self, len: usize, separator: u8) -> (res: CResult<'rem, &'rem [u8]>)
        requires
            self.inv(),
        ensures
            self.rem@.len() == 0 ==> res == Err::<(Cursor, &[u8]), CursorError>(needs(1)),
            self.rem@.len() > 0 && self.rem@[0] != separator ==> res == Err::<(Cursor, &[u8]), CursorError>(CursorError::Error),
            self.rem@.len() > 0 && self.rem@[0] == separator && self.rem@.len() - 1 < len ==> res == Err::<(Cursor, &[u8]), CursorError>(needs(len - (self.rem@.len() - 1))),
            self.rem@.len() > 0 && self.rem@[0] == separator && self.rem@.len() - 1 >= len ==> (res matches Ok((next, s))
                && advanced(self, next, 1 + len) && s@ == self.rem@.subrange(1, 1 + len)),
    {
        let sep = match self.byte(separator) {
            Ok(c) => c,
            Err(e) => return Err(e),
        };
        let rem = match sep.advance_checked(len) {
            Ok(c) => c,
            Err(e) => return Err(e),
        };
        proof {
            assert(rem.rem@ =~= self.rem@.skip(1 + len));
            assert(sep.rem@.take(len as int) =~= self.rem@.subrange(1, 1 + len));
        }
        match sep.slice_to(rem) {
            Some(s) => Ok((rem, s)),
            None => Err(CursorError::Error),
        }
    }

    /// A length-prefixed byte string body: `:` then `len` bytes.
    pub fn bytes(self, len: usize) -> (res: CResult<'rem, &'rem [u8]>)
        requires
            self.inv(),
        ensures
            self.rem@.len() == 0 ==> res == Err::<(Cursor, &[u8]), CursorError>(needs(1)),
            self.rem@.len() > 0 && self.rem@[0] != 0x3a ==> res == Err::<(Cursor, &[u8]), CursorError>(CursorError::Error),
            self.rem@.len() > 0 && self.rem@[0] == 0x3a && self.rem@.len() - 1 < len ==> res == Err::<(Cursor, &[u8]), CursorError>(needs(len - (self.rem@.len() - 1))),
            self.rem@.len() > 0 && self.rem@[0] == 0x3a && self.rem@.len() - 1 >= len ==> (res matches Ok((next, s))
                && advanced(self, next, 1 + len) && s@ == self.rem@.subrange(1, 1 + len)),
    {
        self.netstring(len, 0x3au8)
    }

    /// A length-prefixed string body: `"` then `len` bytes.
    pub fn string(self, len: usize) -> (res: CResult<'rem, &'rem [u8]>)
        requires
            self.inv(),
        ensures
            self.rem@.len() == 0 ==> res == Err::<(Cursor, &[u8]), CursorError>(needs(1)),
            self.rem@.len() > 0 && self.rem@[0] != 0x22 ==> res == Err::<(Cursor, &[u8]), CursorError>(CursorError::Error),
            self.rem@.len() > 0 && self.rem@[0] == 0x22 && self.rem@.len() - 1 < len ==> res == Err::<(Cursor, &[u8]), CursorError>(needs(len - (self.rem@.len() - 1))),
            self.rem@.len() > 0 && self.rem@[0] == 0x22 && self.rem@.len() - 1 >= len ==> (res matches Ok((next, s))
                && advanced(self, next, 1 + len) && s@ == self.rem@.subrange(1, 1 + len)),
    {
        self.netstring(len, 0x22u8)
    }

    /// A length-prefixed symbol body: `'` then `len` bytes.
    pub fn symbol(self, len: usize) -> (res: CResult<'rem, &'rem [u8]>)
        requires
            self.inv(),
        ensures
            self.rem@.len() == 0 ==> res == Err::<(Cursor, &[u8]), CursorError>(needs(1)),
            self.rem@.len() > 0 && self.rem@[0] != 0x27 ==> res == Err::<(Cursor, &[u8]), CursorError>(CursorError::Error),
            self.rem@.len() > 0 && self.rem@[0] == 0x27 && self.rem@.len() - 1 < len ==> res == Err::<(Cursor, &[u8]), CursorError>(needs(len - (self.rem@.len() - 1))),
            self.rem@.len() > 0 && self.rem@[0] == 0x27 && self.rem@.len() - 1 >= len ==> (res matches Ok((next, s))
                && advanced(self, next, 1 + len) && s@ == self.rem@.subrange(1, 1 + len)),
    {
        self.netstring(len, 0x27u8)
    }

    /// A single-precision float: `F` then four big-endian bytes, yielded as
    /// the float's bit pattern.
    pub fn float32(self) -> (res: CResult<'rem, u32>)
        requires
            self.inv(),
        ensures
            self.rem@.len() == 0 ==> res == Err::<(Cursor, u32), CursorError>(needs(1)),
            self.rem@.len() > 0 && self.rem@[0] != 0x46 ==> res == Err::<(Cursor, u32), CursorError>(CursorError::Error),
            self.rem@.len() > 0 && self.rem@[0] == 0x46 && self.rem@.len() < 5 ==> res == Err::<(Cursor, u32), CursorError>(needs(5 - self.rem@.len())),
            self.rem@.len() >= 5 && self.rem@[0] == 0x46 ==> (res matches Ok((next, v))
                && advanced(self, next, 5) && v == be_u32(self.rem@.subrange(1, 5))),
    {
        let prefix = match self.byte(0x46u8) {
            Ok(c) => c,
            Err(e) => return Err(e),
        };
        let rem = match prefix.advance_checked(4) {
            Ok(c) => c,
            Err(e) => return Err(e),
        };
        let b = prefix.rem;
        let v = (b[0] as u32) * 0x1000000 + (b[1] as u32) * 0x10000 + (b[2] as u32) * 0x100 + (b[3] as u32);
        proof {
            assert(rem.rem@ =~= self.rem@.skip(5));
            let w = self.rem@.subrange(1, 5);
            assert(w[0] == b@[0] && w[1] == b@[1] && w[2] == b@[2] && w[3] == b@[3]);
        }
        Ok((rem, v))
    }

    /// A double-precision float: `D` then eight big-endian bytes, yielded as
    /// the float's bit pattern.
    pub fn float64(self) -> (res: CResult<'rem, u64>)
        requires
            self.inv(),
        ensures
            self.rem@.len() == 0 ==> res == Err::<(Cursor, u64), CursorError>(needs(1)),
            self.rem@.len() > 0 && self.rem@[0] != 0x44 ==> res == Err::<(Cursor, u64), CursorError>(CursorError::Error),
            self.rem@.len() > 0 && self.rem@[0] == 0x44 && self.rem@.len() < 9 ==> res == Err::<(Cursor, u64), CursorError>(needs(9 - self.rem@.len())),
            self.rem@.len() >= 9 && self.rem@[0] == 0x44 ==> (res matches Ok((next, v))
                && advanced(self, next, 9) && v == be_u64(self.rem@.subrange(1, 9))),
    {
        let prefix = match self.byte(0x44u8) {
            Ok(c) => c,
            Err(e) => return Err(e),
        };
        let rem = match prefix.advance_checked(8) {
            Ok(c) => c,
            Err(e) => return Err(e),
        };
        let b = prefix.rem;
        let hi = (b[0] as u32) * 0x1000000 + (b[1] as u32) * 0x10000 + (b[2] as u32) * 0x100 + (b[3] as u32);
        let lo = (b[4] as u32) * 0x1000000 + (b[5] as u32) * 0x10000 + (b[6] as u32) * 0x100 + (b[7] as u32);
        proof {
            assert(self.rem@.subrange(1, 9).subrange(0, 4) =~= self.rem@.subrange(1, 5));
            assert(self.rem@.subrange(1, 9).subrange(4, 8) =~= self.rem@.subrange(5, 9));
            assert(rem.rem@ =~= self.rem@.skip(9));
            let w = self.rem@.subrange(1, 5);
            assert(w[0] == b@[0] && w[1] == b@[1] && w[2] == b@[2] && w[3] == b@[3]);
            let x = self.rem@.subrange(5, 9);
            assert(x[0] == b@[4] && x[1] == b@[5] && x[2] == b@[6] && x[3] == b@[7]);
        }
        Ok((rem, (hi as u64) * 0x1_0000_0000 + (lo as u64)))
    }
}

/// An owned copy of some bytes.
pub fn copy_bytes(s: &[u8]) -> (res: Vec<u8>)
    ensures
        res@ == s@,
{
    let mut res: Vec<u8> = Vec::with_capacity(s.len());
    let mut i: usize = 0;
    while i < s.len()
        invariant
            i <= s@.len(),
            res@ == s@.take(i as int),
        decreases s@.len() - i,
    {
        res.push(s[i]);
        i = i + 1;
        proof {
            assert(res@ =~= s@.take(i as int));
        }
    }
    proof {
        assert(s@.take(i as int) =~= s@);
    }
    res
}

/// The deep model of owned bytes is their model.
pub broadcast proof fn lemma_bytes_deep_view(v: Vec<u8>)
    ensures
        #[trigger] v.deep_view() == v@,
{
    assert(v.deep_view() =~= v@);
}

/// Whether `b` is an ASCII decimal digit.
pub fn is_ascii_digit(b: u8) -> (res: bool)
    ensures
        res == is_digit(b),
{
    0x30u8 <= b && b <= 0x39u8
}

/// The leading digits lie within the input, are digits, and are followed by a non-digit if anything.
pub proof fn lemma_leading_digits_bound(s: Seq<u8>)
    ensures
        leading_digits(s) <= s.len(),
        forall|i: int| 0 <= i < leading_digits(s) ==> is_digit(#[trigger] s[i]),
        leading_digits(s) < s.len() ==> !is_digit(s[leading_digits(s) as int]),
    decreases s.len(),
{
    if s.len() > 0 && is_digit(s[0]) {
        lemma_leading_digits_bound(s.drop_first());
        assert forall|i: int| 0 <= i < leading_digits(s) implies is_digit(#[trigger] s[i]) by {
            if i > 0 {
                assert(s[i] == s.drop_first()[i - 1]);
            }
        }
    }
}

} // verus!
