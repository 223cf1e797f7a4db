//! Whole literal tokens read through a cursor.

use vstd::prelude::*;

use crate::de::cursor::{
    advanced, be_u32, be_u64, copy_bytes, is_digit, leading_digits, lemma_leading_digits_bound,
    needs, Cursor, CursorError,
};
use crate::de::lex::collection::{lemma_tree_view, SpecTree, TokenTree};
use crate::de::lex::integer::{decimal_value, parse_decimal, Int, IntErrorKind, SpecInt};
use crate::de::lex::literal::{Literal, SpecLiteral};

verus! {

broadcast use lemma_tree_view;

/// Why a cursor could not read a literal.
#[derive(Debug, Clone, Copy, PartialEq, Eq, Structural)]
pub enum ParseLiteralError {
    /// The input is malformed or ends too early.
    Cursor(CursorError),
    /// A length prefix does not fit in `usize`.
    ParseLen(IntErrorKind),
}

impl From<CursorError> for ParseLiteralError {
    fn from(e: CursorError) -> (res: Self) {
        ParseLiteralError::Cursor(e)
    }
}

impl vstd::std_specs::convert::FromSpecImpl<CursorError> for ParseLiteralError {
    open spec fn obeys_from_spec() -> bool {
        true
    }

    open spec fn from_spec(e: CursorError) -> ParseLiteralError {
        ParseLiteralError::Cursor(e)
    }
}

impl From<IntErrorKind> for ParseLiteralError {
    fn from(e: IntErrorKind) -> (res: Self) {
        ParseLiteralError::ParseLen(e)
    }
}

impl vstd::std_specs::convert::FromSpecImpl<IntErrorKind> for ParseLiteralError {
    open spec fn obeys_from_spec() -> bool {
        true
    }

    open spec fn from_spec(e: IntErrorKind) -> ParseLiteralError {
        ParseLiteralError::ParseLen(e)
    }
}

/// The literal at the front of `s` and how many bytes it takes. The first
/// byte picks a boolean, a float or a run of digits; after the digits, a
/// sign makes an integer, and `'`, `:` or `"` make a symbol, byte string or
/// string of that many bytes.
pub open spec fn cursor_literal_spec(s: Seq<u8>) -> Result<(int, SpecLiteral), ParseLiteralError> {
    if s.len() == 0 {
        Err(ParseLiteralError::Cursor(needs(1)))
    } else if s[0] == 0x74 || s[0] == 0x66 {
        Ok((1, SpecLiteral::Bool(s[0] == 0x74)))
    } else if s[0] == 0x46 {
        if s.len() < 5 {
            Err(ParseLiteralError::Cursor(needs(5 - s.len())))
        } else {
            Ok((5, SpecLiteral::F32(be_u32(s.subrange(1, 5)))))
        }
    } else if s[0] == 0x44 {
        if s.len() < 9 {
            Err(ParseLiteralError::Cursor(needs(9 - s.len())))
        } else {
            Ok((9, SpecLiteral::F64(be_u64(s.subrange(1, 9)))))
        }
    } else {
        let k = leading_digits(s) as int;
        let digits = s.take(k);
        let rest = s.skip(k);
        if k == 0 {
            Err(ParseLiteralError::Cursor(CursorError::Error))
        } else if rest.len() == 0 {
            Err(ParseLiteralError::Cursor(needs(1)))
        } else if rest[0] == 0x2b || rest[0] == 0x2d {
            Ok((k + 1, SpecLiteral::Int(SpecInt { positive: rest[0] == 0x2b, digits })))
        } else if decimal_value(digits) > usize::MAX {
            Err(ParseLiteralError::ParseLen(IntErrorKind::PosOverflow))
        } else if rest[0] == 0x27 || rest[0] == 0x3a || rest[0] == 0x22 {
            let n = decimal_value(digits) as int;
            if rest.len() - 1 < n {
                Err(ParseLiteralError::Cursor(needs(n - (rest.len() - 1))))
            } else {
                let body = rest.subrange(1, 1 + n);
                Ok((
                    k + 1 + n,
                    if rest[0] == 0x27 {
                        SpecLiteral::Symbol(body)
                    } else if rest[0] == 0x3a {
                        SpecLiteral::Bytes(body)
                    } else {
                        SpecLiteral::String(body)
                    },
                ))
            }
        } else {
            Err(ParseLiteralError::Cursor(CursorError::Error))
        }
    }
}

/// Reading `F` and four bytes through a cursor gives the float whose bit
/// pattern those bytes write, most significant first, and takes five bytes.
pub proof fn lemma_cursor_f32(s: Seq<u8>)
    requires
        s.len() >= 5,
        s[0] == 0x46,
    ensures
        cursor_literal_spec(s) == Ok::<(int, SpecLiteral), ParseLiteralError>((
            5,
            SpecLiteral::F32((s[1] as int * 0x100_0000 + s[2] as int * 0x1_0000 + s[3] as int * 0x100 + s[4] as int) as u32),
        )),
{
    let b = s.subrange(1, 5);
    assert(b[0] == s[1] && b[1] == s[2] && b[2] == s[3] && b[3] == s[4]);
}

/// Reading `D` and eight bytes through a cursor gives the float whose bit
/// pattern those bytes write, most significant first, and takes nine bytes.
pub proof fn lemma_cursor_f64(s: Seq<u8>)
    requires
        s.len() >= 9,
        s[0] == 0x44,
    ensures
        cursor_literal_spec(s) == Ok::<(int, SpecLiteral), ParseLiteralError>((
            9,
            SpecLiteral::F64((s[1] as int * 0x100_0000_0000_0000 + s[2] as int * 0x1_0000_0000_0000
                + s[3] as int * 0x100_0000_0000 + s[4] as int * 0x1_0000_0000 + s[5] as int * 0x100_0000
                + s[6] as int * 0x1_0000 + s[7] as int * 0x100 + s[8] as int) as u64),
        )),
{
    let b = s.subrange(1, 9);
    let h = b.subrange(0, 4);
    let l = b.subrange(4, 8);
    assert(h[0] == s[1] && h[1] == s[2] && h[2] == s[3] && h[3] == s[4]);
    assert(l[0] == s[5] && l[1] == s[6] && l[2] == s[7] && l[3] == s[8]);
}

/// A cursor's literal result agrees with `cursor_literal_spec`.
pub open spec fn literal_outcome(cur: Cursor, res: Result<(Cursor, Literal), ParseLiteralError>) -> bool {
    match cursor_literal_spec(cur.rem@) {
        Ok((n, l)) => res matches Ok((next, lit)) && advanced(cur, next, n) && lit@ == l,
        Err(e) => res == Err::<(Cursor, Literal), ParseLiteralError>(e),
    }
}

/// Skipping twice is skipping once by the sum.
proof fn lemma_skip_skip(s: Seq<u8>, a: int, b: int)
    requires
        0 <= a,
        0 <= b,
        a + b <= s.len(),
    ensures
        s.skip(a).skip(b) == s.skip(a + b),
{
    assert(s.skip(a).skip(b) =~= s.skip(a + b));
}

impl<'rem> Cursor<'rem> {
    /// Reads one literal.
    pub fn literal(self) -> (res: Result<(Cursor<'rem>, Literal), ParseLiteralError>)
        requires
            self.inv(),
        ensures
            literal_outcome(self, res),
    {
        match self.bool() {
            Ok((r, v)) => return Ok((r, Literal::Bool(v))),
            Err(CursorError::Incomplete { needed }) => return Err(ParseLiteralError::Cursor(CursorError::Incomplete { needed })),
            Err(CursorError::Error) => {},
        }
        match self.float32() {
            Ok((r, v)) => return Ok((r, Literal::F32(v))),
            Err(CursorError::Incomplete { needed }) => return Err(ParseLiteralError::Cursor(CursorError::Incomplete { needed })),
            Err(CursorError::Error) => {},
        }
        match self.float64() {
            Ok((r, v)) => return Ok((r, Literal::F64(v))),
            Err(CursorError::Incomplete { needed }) => return Err(ParseLiteralError::Cursor(CursorError::Incomplete { needed })),
            Err(CursorError::Error) => {},
        }
        let (rem, digits) = match self.digits() {
            Ok(r) => r,
            Err(e) => return Err(ParseLiteralError::Cursor(e)),
        };
        proof {
            lemma_leading_digits_bound(self.rem@);
            assert forall|j: int| 0 <= j < digits.digits@.len() implies is_digit(#[trigger] digits.digits@[j]) by {
                assert(digits.digits@[j] == self.rem@[j]);
            }
        }
        match rem.preparsed_int(digits) {
            Ok((r, (positive, d))) => {
                proof {
                    lemma_skip_skip(self.rem@, leading_digits(self.rem@) as int, 1);
                }
                return Ok((r, Literal::Int(Int::new(positive, copy_bytes(d)))));
            },
            Err(CursorError::Incomplete { needed }) => return Err(ParseLiteralError::Cursor(CursorError::Incomplete { needed })),
            Err(CursorError::Error) => {},
        }
        let len = match parse_decimal(digits.digits, usize::MAX as u128) {
            Ok(v) => v as usize,
            Err(e) => return Err(ParseLiteralError::ParseLen(e)),
        };
        match rem.symbol(len) {
            Ok((r, b)) => {
                proof {
                    lemma_skip_skip(self.rem@, leading_digits(self.rem@) as int, 1 + len);
                }
                return Ok((r, Literal::Symbol(copy_bytes(b))));
            },
            Err(CursorError::Incomplete { needed }) => return Err(ParseLiteralError::Cursor(CursorError::Incomplete { needed })),
            Err(CursorError::Error) => {},
        }
        match rem.bytes(len) {
            Ok((r, b)) => {
                proof {
                    lemma_skip_skip(self.rem@, leading_digits(self.rem@) as int, 1 + len);
                }
                return Ok((r, Literal::Bytes(copy_bytes(b))));
            },
            Err(CursorError::Incomplete { needed }) => return Err(ParseLiteralError::Cursor(CursorError::Incomplete { needed })),
            Err(CursorError::Error) => {},
        }
        match rem.string(len) {
            Ok((r, b)) => {
                proof {
                    lemma_skip_skip(self.rem@, leading_digits(self.rem@) as int, 1 + len);
                }
                return Ok((r, Literal::String(copy_bytes(b))));
            },
            Err(CursorError::Incomplete { needed }) => return Err(ParseLiteralError::Cursor(CursorError::Incomplete { needed })),
            Err(CursorError::Error) => {},
        }
        Err(ParseLiteralError::Cursor(CursorError::Error))
    }

    /// Reads one literal into owned storage; literals here always own their
    /// bytes, so this is `literal`.
    pub fn literal_static(self) -> (res: Result<(Cursor<'rem>, Literal), ParseLiteralError>)
        requires
            self.inv(),
        ensures
            literal_outcome(self, res),
    {
        self.literal()
    }

    /// Reads one literal as a leaf of a token tree.
    pub fn leaf_token(self) -> (res: Result<(Cursor<'rem>, TokenTree), ParseLiteralError>)
        requires
            self.inv(),
        ensures
            match cursor_literal_spec(self.rem@) {
                Ok((n, l)) => res matches Ok((next, t)) && advanced(self, next, n) && t@ == SpecTree::Literal(l),
                Err(e) => res == Err::<(Cursor, TokenTree), ParseLiteralError>(e),
            },
    {
        match self.literal() {
            Ok((r, lit)) => Ok((r, TokenTree::Literal(lit))),
            Err(e) => Err(e),
        }
    }

    /// Reads one literal as an owned leaf of a token tree.
    pub fn leaf_token_static(self) -> (res: Result<(Cursor<'rem>, TokenTree), ParseLiteralError>)
        requires
            self.inv(),
        ensures
            match cursor_literal_spec(self.rem@) {
                Ok((n, l)) => res matches Ok((next, t)) && advanced(self, next, n) && t@ == SpecTree::Literal(l),
                Err(e) => res == Err::<(Cursor, TokenTree), ParseLiteralError>(e),
            },
    {
        self.leaf_token()
    }
}

} // verus!
