//! Literal tokens: booleans, floats, integers and length-prefixed byte
//! strings, strings and symbols.

use vstd::prelude::*;

use crate::de::cursor::{
    is_digit, leading_digits, lemma_leading_digits_bound, be_u32, be_u64, needs, needs_unknown,
    copy_bytes, CursorError, Needed,
};
use crate::de::error::SyrupKind;
use crate::de::lex::integer::{
    all_digits, decimal, decimal_value, encode_int, lemma_decimal, parse_decimal, to_decimal, Int,
    SpecInt,
};

verus! {

/// A streaming parse result in the model: the rest of the input and a value.
pub type PRes<T> = Result<(Seq<u8>, T), CursorError>;

/// A streaming parse result: the rest of the input and a value.
pub type IResult<'i, T> = Result<(&'i [u8], T), CursorError>;

/// The model of an executable parse result.
pub open spec fn res_view<T: View>(r: IResult<T>) -> PRes<T::V> {
    match r {
        Ok((rest, v)) => Ok((rest@, v@)),
        Err(e) => Err(e),
    }
}

/// Accepting the single byte `b`.
pub open spec fn byte_spec(s: Seq<u8>, b: u8) -> PRes<()> {
    if s.len() == 0 {
        Err(needs(1))
    } else if s[0] == b {
        Ok((s.drop_first(), ()))
    } else {
        Err(CursorError::Error)
    }
}

/// Taking `n` bytes, or how many more that needs.
pub open spec fn take_spec(s: Seq<u8>, n: nat) -> PRes<Seq<u8>> {
    if s.len() < n {
        Err(needs(n - s.len()))
    } else {
        Ok((s.skip(n as int), s.take(n as int)))
    }
}

/// A boolean: `t` or `f`.
pub open spec fn bool_spec(s: Seq<u8>) -> PRes<bool> {
    if s.len() == 0 {
        Err(needs(1))
    } else if s[0] == 0x74 {
        Ok((s.drop_first(), true))
    } else if s[0] == 0x66 {
        Ok((s.drop_first(), false))
    } else {
        Err(CursorError::Error)
    }
}

/// A prefix byte then `n` raw bytes.
pub open spec fn prefixed_spec(s: Seq<u8>, prefix: u8, n: nat) -> PRes<Seq<u8>> {
    match byte_spec(s, prefix) {
        Err(e) => Err(e),
        Ok((rest, _)) => take_spec(rest, n),
    }
}

/// A single-precision float: `F` then four big-endian bytes.
pub open spec fn float32_spec(s: Seq<u8>) -> PRes<u32> {
    match prefixed_spec(s, 0x46, 4) {
        Err(e) => Err(e),
        Ok((rest, b)) => Ok((rest, be_u32(b))),
    }
}

/// A double-precision float: `D` then eight big-endian bytes.
pub open spec fn float64_spec(s: Seq<u8>) -> PRes<u64> {
    match prefixed_spec(s, 0x44, 8) {
        Err(e) => Err(e),
        Ok((rest, b)) => Ok((rest, be_u64(b))),
    }
}

/// One or more decimal digits, in streaming mode: a run of digits that
/// reaches the end of the input may continue, so it needs more input.
pub open spec fn digits_spec(s: Seq<u8>) -> PRes<Seq<u8>> {
    let k = leading_digits(s);
    if k == 0 {
        if s.len() == 0 {
            Err(needs_unknown())
        } else {
            Err(CursorError::Error)
        }
    } else if k == s.len() {
        Err(needs_unknown())
    } else {
        Ok((s.skip(k as int), s.take(k as int)))
    }
}

/// One of `+` (true) or `-` (false).
pub open spec fn sign_spec(s: Seq<u8>) -> PRes<bool> {
    if s.len() == 0 {
        Err(needs_unknown())
    } else if s[0] == 0x2b {
        Ok((s.drop_first(), true))
    } else if s[0] == 0x2d {
        Ok((s.drop_first(), false))
    } else {
        Err(CursorError::Error)
    }
}

/// An integer: digits, then its sign.
pub open spec fn int_spec(s: Seq<u8>) -> PRes<SpecInt> {
    match digits_spec(s) {
        Err(e) => Err(e),
        Ok((rest, digits)) => match sign_spec(rest) {
            Err(e) => Err(e),
            Ok((rest2, positive)) => Ok((rest2, SpecInt { positive, digits })),
        },
    }
}

/// The length prefix of a byte string, string or symbol.
pub open spec fn len_spec(s: Seq<u8>) -> PRes<nat> {
    match digits_spec(s) {
        Err(e) => Err(e),
        Ok((rest, digits)) => if decimal_value(digits) <= usize::MAX {
            Ok((rest, decimal_value(digits)))
        } else {
            Err(CursorError::Error)
        },
    }
}

/// A length prefix, the separator `sep`, then that many bytes.
pub open spec fn sized_spec(s: Seq<u8>, sep: u8) -> PRes<Seq<u8>> {
    match len_spec(s) {
        Err(e) => Err(e),
        Ok((rest, n)) => match byte_spec(rest, sep) {
            Err(e) => Err(e),
            Ok((rest2, _)) => take_spec(rest2, n),
        },
    }
}

/// The model of a literal.
pub enum SpecLiteral {
    Bool(bool),
    F32(u32),
    F64(u64),
    Int(SpecInt),
    Bytes(Seq<u8>),
    String(Seq<u8>),
    Symbol(Seq<u8>),
}

/// Literal alternatives are tried in order; an alternative that fails with
/// `Error` passes the input on to the next, any other outcome is final.
pub open spec fn literal_spec(s: Seq<u8>) -> PRes<SpecLiteral> {
    match bool_spec(s) {
        Ok((r, v)) => Ok((r, SpecLiteral::Bool(v))),
        Err(CursorError::Incomplete { needed }) => Err(CursorError::Incomplete { needed }),
        Err(CursorError::Error) => match float32_spec(s) {
            Ok((r, v)) => Ok((r, SpecLiteral::F32(v))),
            Err(CursorError::Incomplete { needed }) => Err(CursorError::Incomplete { needed }),
            Err(CursorError::Error) => match float64_spec(s) {
                Ok((r, v)) => Ok((r, SpecLiteral::F64(v))),
                Err(CursorError::Incomplete { needed }) => Err(CursorError::Incomplete { needed }),
                Err(CursorError::Error) => match int_spec(s) {
                    Ok((r, v)) => Ok((r, SpecLiteral::Int(v))),
                    Err(CursorError::Incomplete { needed }) => Err(CursorError::Incomplete { needed }),
                    Err(CursorError::Error) => match sized_spec(s, 0x3a) {
                        Ok((r, v)) => Ok((r, SpecLiteral::Bytes(v))),
                        Err(CursorError::Incomplete { needed }) => Err(CursorError::Incomplete { needed }),
                        Err(CursorError::Error) => match sized_spec(s, 0x22) {
                            Ok((r, v)) => Ok((r, SpecLiteral::String(v))),
                            Err(CursorError::Incomplete { needed }) => Err(CursorError::Incomplete { needed }),
                            Err(CursorError::Error) => match sized_spec(s, 0x27) {
                                Ok((r, v)) => Ok((r, SpecLiteral::Symbol(v))),
                                Err(e) => Err(e),
                            },
                        },
                    },
                },
            },
        },
    }
}

/// The four big-endian bytes of `x`.
pub open spec fn be_bytes_u32(x: u32) -> Seq<u8> {
    seq![(x / 0x1000000) as u8, (x / 0x10000 % 0x100) as u8, (x / 0x100 % 0x100) as u8, (x % 0x100) as u8]
}

/// The eight big-endian bytes of `x`.
pub open spec fn be_bytes_u64(x: u64) -> Seq<u8> {
    be_bytes_u32((x / 0x1_0000_0000) as u32) + be_bytes_u32((x % 0x1_0000_0000) as u32)
}

/// A length prefix, a separator, then the bytes.
pub open spec fn encode_sized(b: Seq<u8>, sep: u8) -> Seq<u8> {
    decimal(b.len()) + seq![sep] + b
}

/// The bytes of a literal.
pub open spec fn encode_literal(l: SpecLiteral) -> Seq<u8> {
    match l {
        SpecLiteral::Bool(b) => seq![if b { 0x74u8 } else { 0x66u8 }],
        SpecLiteral::F32(x) => seq![0x46u8] + be_bytes_u32(x),
        SpecLiteral::F64(x) => seq![0x44u8] + be_bytes_u64(x),
        SpecLiteral::Int(i) => encode_int(i),
        SpecLiteral::Bytes(b) => encode_sized(b, 0x3a),
        SpecLiteral::String(b) => encode_sized(b, 0x22),
        SpecLiteral::Symbol(b) => encode_sized(b, 0x27),
    }
}

/// A literal token.
#[derive(Debug, PartialEq, Eq)]
pub enum Literal {
    Bool(bool),
    /// The bit pattern of a single-precision float.
    F32(u32),
    /// The bit pattern of a double-precision float.
    F64(u64),
    Int(Int),
    /// A string of raw bytes.
    Bytes(Vec<u8>),
    /// A UTF-8 string, not yet known to be valid UTF-8.
    String(Vec<u8>),
    /// A UTF-8 string marked as a symbol, not yet known to be valid UTF-8.
    Symbol(Vec<u8>),
}

impl Clone for Literal {
    fn clone(&self) -> (res: Self)
        ensures
            res@ == self@,
    {
        match self {
            Literal::Bool(b) => Literal::Bool(*b),
            Literal::F32(x) => Literal::F32(*x),
            Literal::F64(x) => Literal::F64(*x),
            Literal::Int(i) => Literal::Int(i.clone()),
            Literal::Bytes(b) => Literal::Bytes(copy_bytes(b.as_slice())),
            Literal::String(b) => Literal::String(copy_bytes(b.as_slice())),
            Literal::Symbol(b) => Literal::Symbol(copy_bytes(b.as_slice())),
        }
    }
}

impl DeepView for Literal {
    type V = SpecLiteral;

    open spec fn deep_view(&self) -> SpecLiteral {
        self@
    }
}

impl View for Literal {
    type V = SpecLiteral;

    open spec fn view(&self) -> SpecLiteral {
        match self {
            Literal::Bool(b) => SpecLiteral::Bool(*b),
            Literal::F32(x) => SpecLiteral::F32(*x),
            Literal::F64(x) => SpecLiteral::F64(*x),
            Literal::Int(i) => SpecLiteral::Int(i@),
            Literal::Bytes(b) => SpecLiteral::Bytes(b@),
            Literal::String(b) => SpecLiteral::String(b@),
            Literal::Symbol(b) => SpecLiteral::Symbol(b@),
        }
    }
}

/// Accept the single byte `b`.
pub fn byte<'i>(i: &'i [u8], b: u8) -> (res: IResult<'i, ()>)
    ensures
        res_view(res) == byte_spec(i@, b),
{
    if i.len() == 0 {
        Err(CursorError::Incomplete { needed: Needed::Size(1) })
    } else if i[0] == b {
        let (_, rest) = i.split_at(1);
        proof {
            assert(rest@ =~= i@.drop_first());
        }
        Ok((rest, ()))
    } else {
        Err(CursorError::Error)
    }
}

/// Take exactly `n` bytes.
pub fn take<'i>(i: &'i [u8], n: usize) -> (res: IResult<'i, &'i [u8]>)
    ensures
        res_view(res) == take_spec(i@, n as nat),
{
    if i.len() < n {
        Err(CursorError::Incomplete { needed: Needed::Size(n - i.len()) })
    } else {
        let (front, rest) = i.split_at(n);
        Ok((rest, front))
    }
}

/// Lexes a boolean literal.
pub fn bool_literal<'i>(i: &'i [u8]) -> (res: IResult<'i, bool>)
    ensures
        res_view(res) == bool_spec(i@),
{
    if i.len() == 0 {
        return Err(CursorError::Incomplete { needed: Needed::Size(1) });
    }
    let c = i[0];
    let (_, rest) = i.split_at(1);
    proof {
        assert(rest@ =~= i@.drop_first());
    }
    if c == 0x74u8 {
        Ok((rest, true))
    } else if c == 0x66u8 {
        Ok((rest, false))
    } else {
        Err(CursorError::Error)
    }
}

fn prefixed<'i>(i: &'i [u8], prefix: u8, n: usize) -> (res: IResult<'i, &'i [u8]>)
    ensures
        res_view(res) == prefixed_spec(i@, prefix, n as nat),
{
    let (rest, _) = match byte(i, prefix) {
        Ok(r) => r,
        Err(e) => return Err(e),
    };
    take(rest, n)
}

/// `F` then four big-endian bytes, yielded as a float's bit pattern.
pub fn float32_literal<'i>(i: &'i [u8]) -> (res: IResult<'i, u32>)
    ensures
        res_view(res) == float32_spec(i@),
{
    let (rest, b) = match prefixed(i, 0x46u8, 4) {
        Ok(r) => r,
        Err(e) => return Err(e),
    };
    let v = (b[0] as u32) * 0x1000000 + (b[1] as u32) * 0x10000 + (b[2] as u32) * 0x100 + (b[3] as u32);
    Ok((rest, v))
}

/// `D` then eight big-endian bytes, yielded as a float's bit pattern.
pub fn float64_literal<'i>(i: &'i [u8]) -> (res: IResult<'i, u64>)
    ensures
        res_view(res) == float64_spec(i@),
{
    let (rest, b) = match prefixed(i, 0x44u8, 8) {
        Ok(r) => r,
        Err(e) => return Err(e),
    };
    let hi = (b[0] as u32) * 0x1000000 + (b[1] as u32) * 0x10000 + (b[2] as u32) * 0x100 + (b[3] as u32);
    let lo = (b[4] as u32) * 0x1000000 + (b[5] as u32) * 0x10000 + (b[6] as u32) * 0x100 + (b[7] as u32);
    proof {
        let w = b@.subrange(0, 4);
        assert(w[0] == b@[0] && w[1] == b@[1] && w[2] == b@[2] && w[3] == b@[3]);
        let x = b@.subrange(4, 8);
        assert(x[0] == b@[4] && x[1] == b@[5] && x[2] == b@[6] && x[3] == b@[7]);
    }
    Ok((rest, (hi as u64) * 0x1_0000_0000 + (lo as u64)))
}

/// One or more decimal digits.
pub fn digits_dec<'i>(i: &'i [u8]) -> (res: IResult<'i, &'i [u8]>)
    ensures
        res_view(res) == digits_spec(i@),
{
    let mut k: usize = 0;
    proof {
        lemma_leading_digits_bound(i@);
        assert(i@.skip(0) =~= i@);
    }
    while k < i.len() && crate::de::cursor::is_ascii_digit(i[k])
        invariant
            k <= i@.len(),
            leading_digits(i@) == k + leading_digits(i@.skip(k as int)),
        decreases i@.len() - k,
    {
        proof {
            assert(i@.skip(k as int).drop_first() =~= i@.skip(k + 1));
        }
        k = k + 1;
    }
    proof {
        if k < i@.len() {
            assert(i@.skip(k as int)[0] == i@[k as int]);
        }
    }
    if k == 0 {
        if i.len() == 0 {
            Err(CursorError::Incomplete { needed: Needed::Unknown })
        } else {
            Err(CursorError::Error)
        }
    } else if k == i.len() {
        Err(CursorError::Incomplete { needed: Needed::Unknown })
    } else {
        let (front, rest) = i.split_at(k);
        Ok((rest, front))
    }
}

fn sign<'i>(i: &'i [u8]) -> (res: IResult<'i, bool>)
    ensures
        res_view(res) == sign_spec(i@),
{
    if i.len() == 0 {
        return Err(CursorError::Incomplete { needed: Needed::Unknown });
    }
    let c = i[0];
    let (_, rest) = i.split_at(1);
    proof {
        assert(rest@ =~= i@.drop_first());
    }
    if c == 0x2bu8 {
        Ok((rest, true))
    } else if c == 0x2du8 {
        Ok((rest, false))
    } else {
        Err(CursorError::Error)
    }
}

/// Decimal digits followed by `+` or `-`.
pub fn int_literal<'i>(i: &'i [u8]) -> (res: IResult<'i, Int>)
    ensures
        res_view(res) == int_spec(i@),
{
    let (rest, digits) = match digits_dec(i) {
        Ok(r) => r,
        Err(e) => return Err(e),
    };
    let (rest2, positive) = match sign(rest) {
        Ok(r) => r,
        Err(e) => return Err(e),
    };
    proof {
        lemma_leading_digits_bound(i@);
        assert forall|j: int| 0 <= j < digits@.len() implies is_digit(#[trigger] digits@[j]) by {
            assert(digits@[j] == i@[j]);
        }
    }
    Ok((rest2, Int::new(positive, copy_bytes(digits))))
}

fn literal_len<'i>(i: &'i [u8]) -> (res: IResult<'i, usize>)
    ensures
        match (res, len_spec(i@)) {
            (Ok((rest, n)), Ok((srest, sn))) => rest@ == srest && n == sn,
            (Err(e), Err(se)) => e == se,
            _ => false,
        },
{
    let (rest, digits) = match digits_dec(i) {
        Ok(r) => r,
        Err(e) => return Err(e),
    };
    proof {
        lemma_leading_digits_bound(i@);
        assert forall|j: int| 0 <= j < digits@.len() implies is_digit(#[trigger] digits@[j]) by {
            assert(digits@[j] == i@[j]);
        }
    }
    match parse_decimal(digits, usize::MAX as u128) {
        Ok(v) => Ok((rest, v as usize)),
        Err(_) => Err(CursorError::Error),
    }
}

fn sized_literal<'i>(i: &'i [u8], sep: u8) -> (res: IResult<'i, &'i [u8]>)
    ensures
        res_view(res) == sized_spec(i@, sep),
{
    let (rest, n) = match literal_len(i) {
        Ok(r) => r,
        Err(e) => return Err(e),
    };
    let (rest2, _) = match byte(rest, sep) {
        Ok(r) => r,
        Err(e) => return Err(e),
    };
    take(rest2, n)
}

/// A length-prefixed byte string: digits, `:`, then that many bytes.
pub fn bytes_literal<'i>(i: &'i [u8]) -> (res: IResult<'i, Vec<u8>>)
    ensures
        res_view(res) == sized_spec(i@, 0x3a),
{
    match sized_literal(i, 0x3au8) {
        Ok((rest, b)) => Ok((rest, copy_bytes(b))),
        Err(e) => Err(e),
    }
}

/// A length-prefixed string: digits, `"`, then that many bytes.
pub fn string_literal<'i>(i: &'i [u8]) -> (res: IResult<'i, Vec<u8>>)
    ensures
        res_view(res) == sized_spec(i@, 0x22),
{
    match sized_literal(i, 0x22u8) {
        Ok((rest, b)) => Ok((rest, copy_bytes(b))),
        Err(e) => Err(e),
    }
}

/// A length-prefixed symbol: digits, `'`, then that many bytes.
pub fn symbol_literal<'i>(i: &'i [u8]) -> (res: IResult<'i, Vec<u8>>)
    ensures
        res_view(res) == sized_spec(i@, 0x27),
{
    match sized_literal(i, 0x27u8) {
        Ok((rest, b)) => Ok((rest, copy_bytes(b))),
        Err(e) => Err(e),
    }
}


/// Appends bytes to `w`.
pub fn write_all(w: &mut Vec<u8>, bytes: &[u8])
    ensures
        final(w)@ == old(w)@ + bytes@,
{
    let mut i: usize = 0;
    while i < bytes.len()
        invariant
            i <= bytes@.len(),
            w@ == old(w)@ + bytes@.take(i as int),
        decreases bytes@.len() - i,
    {
        w.push(bytes[i]);
        i = i + 1;
        proof {
            assert(w@ =~= old(w)@ + bytes@.take(i as int));
        }
    }
    proof {
        assert(bytes@.take(i as int) =~= bytes@);
    }
}

fn write_be_u32(w: &mut Vec<u8>, x: u32)
    ensures
        final(w)@ == old(w)@ + be_bytes_u32(x),
{
    w.push((x / 0x1000000) as u8);
    w.push(((x / 0x10000) % 0x100) as u8);
    w.push(((x / 0x100) % 0x100) as u8);
    w.push((x % 0x100) as u8);
    proof {
        assert(w@ =~= old(w)@ + be_bytes_u32(x));
    }
}

fn write_sized(w: &mut Vec<u8>, bytes: &[u8], sep: u8)
    ensures
        final(w)@ == old(w)@ + encode_sized(bytes@, sep),
{
    crate::de::lex::integer::write_decimal(bytes.len() as u128, w);
    w.push(sep);
    write_all(w, bytes);
    proof {
        assert(w@ =~= old(w)@ + encode_sized(bytes@, sep));
    }
}

/// The kind of a literal.
pub open spec fn literal_kind(l: SpecLiteral) -> SyrupKind {
    match l {
        SpecLiteral::Bool(_) => SyrupKind::Bool,
        SpecLiteral::F32(_) => SyrupKind::F32,
        SpecLiteral::F64(_) => SyrupKind::F64,
        SpecLiteral::Int(_) => SyrupKind::Int { desc: None },
        SpecLiteral::Bytes(b) => SyrupKind::Bytes { length: Some(b.len() as usize) },
        SpecLiteral::String(_) => SyrupKind::String,
        SpecLiteral::Symbol(_) => SyrupKind::Symbol(None),
    }
}

impl Literal {
    /// The literal's kind.
    pub fn kind(&self) -> (res: SyrupKind)
        ensures
            res == literal_kind(self@),
    {
        match self {
            Literal::Bool(_) => SyrupKind::Bool,
            Literal::F32(_) => SyrupKind::F32,
            Literal::F64(_) => SyrupKind::F64,
            Literal::Int(_) => SyrupKind::Int { desc: None },
            Literal::Bytes(b) => SyrupKind::Bytes { length: Some(b.len()) },
            Literal::String(_) => SyrupKind::String,
            Literal::Symbol(_) => SyrupKind::Symbol(None),
        }
    }

    /// Lex one literal.
    pub fn parse<'i>(i: &'i [u8]) -> (res: IResult<'i, Literal>)
        ensures
            res_view(res) == literal_spec(i@),
    {
        match bool_literal(i) {
            Ok((r, v)) => return Ok((r, Literal::Bool(v))),
            Err(CursorError::Incomplete { needed }) => return Err(CursorError::Incomplete { needed }),
            Err(CursorError::Error) => {},
        }
        match float32_literal(i) {
            Ok((r, v)) => return Ok((r, Literal::F32(v))),
            Err(CursorError::Incomplete { needed }) => return Err(CursorError::Incomplete { needed }),
            Err(CursorError::Error) => {},
        }
        match float64_literal(i) {
            Ok((r, v)) => return Ok((r, Literal::F64(v))),
            Err(CursorError::Incomplete { needed }) => return Err(CursorError::Incomplete { needed }),
            Err(CursorError::Error) => {},
        }
        match int_literal(i) {
            Ok((r, v)) => return Ok((r, Literal::Int(v))),
            Err(CursorError::Incomplete { needed }) => return Err(CursorError::Incomplete { needed }),
            Err(CursorError::Error) => {},
        }
        match bytes_literal(i) {
            Ok((r, v)) => return Ok((r, Literal::Bytes(v))),
            Err(CursorError::Incomplete { needed }) => return Err(CursorError::Incomplete { needed }),
            Err(CursorError::Error) => {},
        }
        match string_literal(i) {
            Ok((r, v)) => return Ok((r, Literal::String(v))),
            Err(CursorError::Incomplete { needed }) => return Err(CursorError::Incomplete { needed }),
            Err(CursorError::Error) => {},
        }
        match symbol_literal(i) {
            Ok((r, v)) => Ok((r, Literal::Symbol(v))),
            Err(e) => Err(e),
        }
    }

    /// The literal's bytes.
    pub fn encode(&self) -> (res: Vec<u8>)
        ensures
            res@ == encode_literal(self@),
    {
        let mut res: Vec<u8> = Vec::new();
        self.encode_into(&mut res);
        proof {
            assert(res@ =~= encode_literal(self@));
        }
        res
    }

    /// Appends the literal's bytes to `w` and returns how many were written.
    pub fn encode_into(&self, w: &mut Vec<u8>) -> (res: usize)
        ensures
            final(w)@ == old(w)@ + encode_literal(self@),
            res == encode_literal(self@).len(),
    {
        let start = w.len();
        match self {
            Literal::Bool(b) => {
                w.push(if *b { 0x74u8 } else { 0x66u8 });
            },
            Literal::F32(x) => {
                w.push(0x46u8);
                write_be_u32(w, *x);
            },
            Literal::F64(x) => {
                w.push(0x44u8);
                write_be_u32(w, (*x / 0x1_0000_0000) as u32);
                write_be_u32(w, (*x % 0x1_0000_0000) as u32);
            },
            Literal::Int(i) => {
                i.encode_into(w);
            },
            Literal::Bytes(b) => {
                write_sized(w, b.as_slice(), 0x3au8);
            },
            Literal::String(b) => {
                write_sized(w, b.as_slice(), 0x22u8);
            },
            Literal::Symbol(b) => {
                write_sized(w, b.as_slice(), 0x27u8);
            },
        }
        proof {
            assert(w@ =~= old(w)@ + encode_literal(self@));
        }
        w.len() - start
    }
}

/// A literal that lexes consumes at least one byte.
pub proof fn lemma_literal_consumes(s: Seq<u8>)
    ensures
        literal_spec(s) matches Ok((r, _)) ==> r.len() < s.len(),
{
    lemma_leading_digits_bound(s);
}

/// A literal that its encoding can carry: integers have at least one digit
/// and only digits; byte strings fit a length of type `usize`.
pub open spec fn literal_wf(l: SpecLiteral) -> bool {
    match l {
        SpecLiteral::Int(i) => all_digits(i.digits) && i.digits.len() > 0,
        SpecLiteral::Bytes(b) => b.len() <= usize::MAX,
        SpecLiteral::String(b) => b.len() <= usize::MAX,
        SpecLiteral::Symbol(b) => b.len() <= usize::MAX,
        _ => true,
    }
}

/// The leading digits of a run of digits followed by a non-digit.
pub proof fn lemma_leading_digits_of(d: Seq<u8>, rest: Seq<u8>)
    requires
        all_digits(d),
        rest.len() > 0,
        !is_digit(rest[0]),
    ensures
        leading_digits(d + rest) == d.len(),
    decreases d.len(),
{
    if d.len() == 0 {
        assert(d + rest =~= rest);
    } else {
        assert((d + rest).drop_first() =~= d.drop_first() + rest);
        assert(is_digit(d[0]));
        lemma_leading_digits_of(d.drop_first(), rest);
    }
}

proof fn lemma_be_u32(x: u32)
    ensures
        be_u32(be_bytes_u32(x)) == x,
{
    let b = be_bytes_u32(x);
    assert(b[0] == (x / 0x1000000) as u8);
    assert(b[1] == (x / 0x10000 % 0x100) as u8);
    assert(b[2] == (x / 0x100 % 0x100) as u8);
    assert(b[3] == (x % 0x100) as u8);
    assert((x / 0x1000000) * 0x1000000 + (x / 0x10000 % 0x100) * 0x10000 + (x / 0x100 % 0x100) * 0x100 + x % 0x100 == x) by (nonlinear_arith);
}

proof fn lemma_be_u64(x: u64)
    ensures
        be_u64(be_bytes_u64(x)) == x,
{
    let hi = (x / 0x1_0000_0000) as u32;
    let lo = (x % 0x1_0000_0000) as u32;
    lemma_be_u32(hi);
    lemma_be_u32(lo);
    let b = be_bytes_u64(x);
    assert(b.subrange(0, 4) =~= be_bytes_u32(hi));
    assert(b.subrange(4, 8) =~= be_bytes_u32(lo));
    assert((x / 0x1_0000_0000) * 0x1_0000_0000 + x % 0x1_0000_0000 == x) by (nonlinear_arith);
}

/// A single-precision float is written as `F` and the four bytes of its
/// bit pattern, most significant first.
pub proof fn lemma_f32_encoding(x: u32)
    ensures
        encode_literal(SpecLiteral::F32(x)).len() == 5,
        encode_literal(SpecLiteral::F32(x))[0] == 0x46,
        encode_literal(SpecLiteral::F32(x))[1] == ((x / 0x100_0000) % 0x100) as u8,
        encode_literal(SpecLiteral::F32(x))[2] == ((x / 0x1_0000) % 0x100) as u8,
        encode_literal(SpecLiteral::F32(x))[3] == ((x / 0x100) % 0x100) as u8,
        encode_literal(SpecLiteral::F32(x))[4] == (x % 0x100) as u8,
{
}

/// A double-precision float is written as `D` and the eight bytes of its
/// bit pattern, most significant first.
pub proof fn lemma_f64_encoding(x: u64)
    ensures
        encode_literal(SpecLiteral::F64(x)).len() == 9,
        encode_literal(SpecLiteral::F64(x))[0] == 0x44,
        encode_literal(SpecLiteral::F64(x))[1] == ((x / 0x100_0000_0000_0000) % 0x100) as u8,
        encode_literal(SpecLiteral::F64(x))[2] == ((x / 0x1_0000_0000_0000) % 0x100) as u8,
        encode_literal(SpecLiteral::F64(x))[3] == ((x / 0x100_0000_0000) % 0x100) as u8,
        encode_literal(SpecLiteral::F64(x))[4] == ((x / 0x1_0000_0000) % 0x100) as u8,
        encode_literal(SpecLiteral::F64(x))[5] == ((x / 0x100_0000) % 0x100) as u8,
        encode_literal(SpecLiteral::F64(x))[6] == ((x / 0x1_0000) % 0x100) as u8,
        encode_literal(SpecLiteral::F64(x))[7] == ((x / 0x100) % 0x100) as u8,
        encode_literal(SpecLiteral::F64(x))[8] == (x % 0x100) as u8,
{
    assert(
        (x / 0x1_0000_0000) / 0x100_0000 == (x / 0x100_0000_0000_0000) % 0x100
        && ((x / 0x1_0000_0000) / 0x1_0000) % 0x100 == (x / 0x1_0000_0000_0000) % 0x100
        && ((x / 0x1_0000_0000) / 0x100) % 0x100 == (x / 0x100_0000_0000) % 0x100
        && (x % 0x1_0000_0000) / 0x100_0000 == (x / 0x100_0000) % 0x100
        && ((x % 0x1_0000_0000) / 0x1_0000) % 0x100 == (x / 0x1_0000) % 0x100
        && ((x % 0x1_0000_0000) / 0x100) % 0x100 == (x / 0x100) % 0x100
        && (x % 0x1_0000_0000) % 0x100 == x % 0x100
    ) by (bit_vector);
}

/// Lexing `F` and four bytes gives the float whose bit pattern those bytes
/// write, most significant first.
pub proof fn lemma_f32_lexing(s: Seq<u8>)
    requires
        s.len() >= 5,
        s[0] == 0x46,
    ensures
        literal_spec(s) == Ok::<(Seq<u8>, SpecLiteral), CursorError>((
            s.skip(5),
            SpecLiteral::F32((s[1] as int * 0x100_0000 + s[2] as int * 0x1_0000 + s[3] as int * 0x100 + s[4] as int) as u32),
        )),
{
    let b = s.drop_first().take(4);
    assert(b[0] == s[1] && b[1] == s[2] && b[2] == s[3] && b[3] == s[4]);
    assert(s.drop_first().skip(4) =~= s.skip(5));
}

/// Lexing `D` and eight bytes gives the float whose bit pattern those bytes
/// write, most significant first.
pub proof fn lemma_f64_lexing(s: Seq<u8>)
    requires
        s.len() >= 9,
        s[0] == 0x44,
    ensures
        literal_spec(s) == Ok::<(Seq<u8>, SpecLiteral), CursorError>((
            s.skip(9),
            SpecLiteral::F64((s[1] as int * 0x100_0000_0000_0000 + s[2] as int * 0x1_0000_0000_0000
                + s[3] as int * 0x100_0000_0000 + s[4] as int * 0x1_0000_0000 + s[5] as int * 0x100_0000
                + s[6] as int * 0x1_0000 + s[7] as int * 0x100 + s[8] as int) as u64),
        )),
{
    let b = s.drop_first().take(8);
    let h = b.subrange(0, 4);
    let l = b.subrange(4, 8);
    assert(h[0] == s[1] && h[1] == s[2] && h[2] == s[3] && h[3] == s[4]);
    assert(l[0] == s[5] && l[1] == s[6] && l[2] == s[7] && l[3] == s[8]);
    assert(s.drop_first().skip(8) =~= s.skip(9));
}

/// A length-prefixed byte string lexes back from its encoding.
proof fn lemma_sized_roundtrip(b: Seq<u8>, sep: u8, s: Seq<u8>)
    requires
        b.len() <= usize::MAX,
        !is_digit(sep),
    ensures
        sized_spec(encode_sized(b, sep) + s, sep) == Ok::<(Seq<u8>, Seq<u8>), CursorError>((s, b)),
        digits_spec(encode_sized(b, sep) + s) == Ok::<(Seq<u8>, Seq<u8>), CursorError>((seq![sep] + b + s, decimal(b.len()))),
{
    let d = decimal(b.len());
    lemma_decimal(b.len());
    let e = encode_sized(b, sep) + s;
    let rest = seq![sep] + b + s;
    assert(e =~= d + rest);
    lemma_leading_digits_of(d, rest);
    assert(e.skip(d.len() as int) =~= rest);
    assert(e.take(d.len() as int) =~= d);
    assert(rest.drop_first() =~= b + s);
    assert((b + s).skip(b.len() as int) =~= s);
    assert((b + s).take(b.len() as int) =~= b);
}

/// A literal lexes back from its encoding, whatever follows it.
pub proof fn lemma_literal_roundtrip(l: SpecLiteral, s: Seq<u8>)
    requires
        literal_wf(l),
    ensures
        literal_spec(encode_literal(l) + s) == Ok::<(Seq<u8>, SpecLiteral), CursorError>((s, l)),
{
    let e = encode_literal(l) + s;
    match l {
        SpecLiteral::Bool(b) => {
            assert(e.drop_first() =~= s);
        },
        SpecLiteral::F32(x) => {
            lemma_be_u32(x);
            assert(e.drop_first().skip(4) =~= s);
            assert(e.drop_first().take(4) =~= be_bytes_u32(x));
        },
        SpecLiteral::F64(x) => {
            lemma_be_u64(x);
            assert(e.drop_first().skip(8) =~= s);
            assert(e.drop_first().take(8) =~= be_bytes_u64(x));
        },
        SpecLiteral::Int(i) => {
            let sign: u8 = if i.positive { 0x2bu8 } else { 0x2du8 };
            let rest = seq![sign] + s;
            assert(e =~= i.digits + rest);
            lemma_leading_digits_of(i.digits, rest);
            assert(is_digit(e[0]));
            assert(e.skip(i.digits.len() as int) =~= rest);
            assert(e.take(i.digits.len() as int) =~= i.digits);
            assert(rest.drop_first() =~= s);
        },
        SpecLiteral::Bytes(b) => {
            lemma_sized_roundtrip(b, 0x3a, s);
            lemma_decimal(b.len());
            assert(is_digit(e[0]));
        },
        SpecLiteral::String(b) => {
            lemma_sized_roundtrip(b, 0x22, s);
            lemma_decimal(b.len());
            assert(is_digit(e[0]));
        },
        SpecLiteral::Symbol(b) => {
            lemma_sized_roundtrip(b, 0x27, s);
            lemma_decimal(b.len());
            assert(is_digit(e[0]));
        },
    }
}

/// Input that starts with a byte that begins no literal is an `Error`.
pub proof fn lemma_literal_rejects(s: Seq<u8>)
    requires
        s.len() > 0,
        !is_digit(s[0]),
        s[0] != 0x74,
        s[0] != 0x66,
        s[0] != 0x46,
        s[0] != 0x44,
    ensures
        literal_spec(s) == Err::<(Seq<u8>, SpecLiteral), CursorError>(CursorError::Error),
{
}

/// Every proper prefix of a literal's encoding needs more input.
pub proof fn lemma_literal_prefix(l: SpecLiteral, k: int)
    requires
        literal_wf(l),
        0 <= k < encode_literal(l).len(),
    ensures
        literal_spec(encode_literal(l).take(k)) is Err,
        literal_spec(encode_literal(l).take(k))->Err_0 is Incomplete,
{
    let e = encode_literal(l);
    let p = e.take(k);
    if k == 0 {
        return;
    }
    match l {
        SpecLiteral::Bool(_) => {},
        SpecLiteral::F32(x) => {
            assert(p.drop_first().len() < 4);
        },
        SpecLiteral::F64(x) => {
            assert(p.drop_first().len() < 8);
        },
        SpecLiteral::Int(i) => {
            assert(p =~= i.digits.take(k));
            assert(is_digit(p[0]));
            lemma_leading_digits_all(p);
        },
        SpecLiteral::Bytes(b) => {
            lemma_sized_prefix(b, 0x3a, k);
        },
        SpecLiteral::String(b) => {
            lemma_sized_prefix(b, 0x22, k);
        },
        SpecLiteral::Symbol(b) => {
            lemma_sized_prefix(b, 0x27, k);
        },
    }
}

/// A run of digits is all leading digits.
proof fn lemma_leading_digits_all(s: Seq<u8>)
    requires
        all_digits(s),
    ensures
        leading_digits(s) == s.len(),
    decreases s.len(),
{
    if s.len() > 0 {
        assert(is_digit(s[0]));
        lemma_leading_digits_all(s.drop_first());
    }
}

/// Every non-empty proper prefix of a length-prefixed byte string needs more
/// input, both as an integer and as a byte string of any separator.
proof fn lemma_sized_prefix(b: Seq<u8>, sep: u8, k: int)
    requires
        b.len() <= usize::MAX,
        sep == 0x3a || sep == 0x22 || sep == 0x27,
        0 < k < encode_sized(b, sep).len(),
    ensures
        literal_spec(encode_sized(b, sep).take(k)) is Err,
        literal_spec(encode_sized(b, sep).take(k))->Err_0 is Incomplete,
{
    let d = decimal(b.len());
    lemma_decimal(b.len());
    let e = encode_sized(b, sep);
    let p = e.take(k);
    assert(is_digit(p[0])) by {
        assert(p[0] == d[0]);
    }
    if k <= d.len() {
        assert(p =~= d.take(k));
        assert(all_digits(p));
        lemma_leading_digits_all(p);
        assert(digits_spec(p) == Err::<(Seq<u8>, Seq<u8>), CursorError>(needs_unknown()));
    } else {
        let m = k - d.len() - 1;
        let rest = seq![sep] + b.take(m);
        assert(p =~= d + rest);
        lemma_leading_digits_of(d, rest);
        assert(p.skip(d.len() as int) =~= rest);
        assert(p.take(d.len() as int) =~= d);
        assert(rest.drop_first() =~= b.take(m));
        assert(digits_spec(p) == Ok::<(Seq<u8>, Seq<u8>), CursorError>((rest, d)));
        assert(len_spec(p) == Ok::<(Seq<u8>, nat), CursorError>((rest, b.len())));
        assert(take_spec(b.take(m), b.len()) is Err);
        assert(sized_spec(p, sep) is Err);
    }
}

} // verus!
