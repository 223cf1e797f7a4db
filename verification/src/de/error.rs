//! What went wrong while decoding a value from a tree or from bytes.

use vstd::prelude::*;

use crate::de::cursor::CursorError;
use crate::de::lex::collection::{tree_kind, TokenTree};
use crate::de::lex::integer::IntErrorKind;
use crate::text::{decimal_text, push_str, write_decimal_text};

verus! {

/// An integer type: whether it is signed, and its width in bytes.
#[derive(Debug, Clone, Copy, PartialEq, Eq, Structural)]
pub struct IntDescription {
    pub signed: bool,
    pub width: usize,
}

/// An integer type that can describe itself.
pub trait IsSigned {
    /// Whether the type is signed.
    spec fn is_signed() -> bool;

    /// The type's width in bytes.
    spec fn byte_width() -> nat;

    fn signed() -> (res: bool)
        ensures
            res == Self::is_signed(),
    ;

    fn width() -> (res: usize)
        ensures
            res == Self::byte_width(),
    ;
}

impl IsSigned for u8 {
    open spec fn is_signed() -> bool {
        false
    }

    open spec fn byte_width() -> nat {
        1
    }

    fn signed() -> (res: bool) {
        false
    }

    fn width() -> (res: usize) {
        1
    }
}

impl IsSigned for u16 {
    open spec fn is_signed() -> bool {
        false
    }

    open spec fn byte_width() -> nat {
        2
    }

    fn signed() -> (res: bool) {
        false
    }

    fn width() -> (res: usize) {
        2
    }
}

impl IsSigned for u32 {
    open spec fn is_signed() -> bool {
        false
    }

    open spec fn byte_width() -> nat {
        4
    }

    fn signed() -> (res: bool) {
        false
    }

    fn width() -> (res: usize) {
        4
    }
}

impl IsSigned for u64 {
    open spec fn is_signed() -> bool {
        false
    }

    open spec fn byte_width() -> nat {
        8
    }

    fn signed() -> (res: bool) {
        false
    }

    fn width() -> (res: usize) {
        8
    }
}

impl IsSigned for u128 {
    open spec fn is_signed() -> bool {
        false
    }

    open spec fn byte_width() -> nat {
        16
    }

    fn signed() -> (res: bool) {
        false
    }

    fn width() -> (res: usize) {
        16
    }
}

impl IsSigned for usize {
    open spec fn is_signed() -> bool {
        false
    }

    open spec fn byte_width() -> nat {
        (usize::BITS / 8) as nat
    }

    fn signed() -> (res: bool) {
        false
    }

    fn width() -> (res: usize) {
        (usize::BITS / 8) as usize
    }
}

impl IsSigned for i8 {
    open spec fn is_signed() -> bool {
        true
    }

    open spec fn byte_width() -> nat {
        1
    }

    fn signed() -> (res: bool) {
        true
    }

    fn width() -> (res: usize) {
        1
    }
}

impl IsSigned for i16 {
    open spec fn is_signed() -> bool {
        true
    }

    open spec fn byte_width() -> nat {
        2
    }

    fn signed() -> (res: bool) {
        true
    }

    fn width() -> (res: usize) {
        2
    }
}

impl IsSigned for i32 {
    open spec fn is_signed() -> bool {
        true
    }

    open spec fn byte_width() -> nat {
        4
    }

    fn signed() -> (res: bool) {
        true
    }

    fn width() -> (res: usize) {
        4
    }
}

impl IsSigned for i64 {
    open spec fn is_signed() -> bool {
        true
    }

    open spec fn byte_width() -> nat {
        8
    }

    fn signed() -> (res: bool) {
        true
    }

    fn width() -> (res: usize) {
        8
    }
}

impl IsSigned for i128 {
    open spec fn is_signed() -> bool {
        true
    }

    open spec fn byte_width() -> nat {
        16
    }

    fn signed() -> (res: bool) {
        true
    }

    fn width() -> (res: usize) {
        16
    }
}

impl IsSigned for isize {
    open spec fn is_signed() -> bool {
        true
    }

    open spec fn byte_width() -> nat {
        (usize::BITS / 8) as nat
    }

    fn signed() -> (res: bool) {
        true
    }

    fn width() -> (res: usize) {
        (usize::BITS / 8) as usize
    }
}

impl IntDescription {
    /// The description of the integer type `I`.
    pub fn describe<I: IsSigned>() -> (res: Self)
        ensures
            res.signed == I::is_signed(),
            res.width == I::byte_width(),
    {
        Self { signed: I::signed(), width: I::width() }
    }

    /// The description of an integer type with the given sign and width.
    pub fn new(signed: bool, width: usize) -> (res: Self)
        ensures
            res.signed == signed,
            res.width == width,
    {
        Self { signed, width }
    }

    /// The description as text: `i` or `u`, then the width.
    pub fn text(&self) -> (res: String)
        ensures
            res@ == int_description_text(*self),
    {
        let mut s = if self.signed { "i".to_owned() } else { "u".to_owned() };
        write_decimal_text(self.width, &mut s);
        s
    }
}

/// The text of an integer description.
pub open spec fn int_description_text(d: IntDescription) -> Seq<char> {
    (if d.signed { "i"@ } else { "u"@ }) + decimal_text(d.width as nat)
}

/// The kind of a tree, as an error names what it expected or found.
#[derive(Debug, Clone, Copy)]
pub enum SyrupKind {
    Unknown(&'static str),
    Bool,
    F32,
    F64,
    Int { desc: Option<IntDescription> },
    Bytes { length: Option<usize> },
    String,
    Symbol(Option<&'static str>),
    List { length: Option<usize> },
    Record { label: Option<&'static str> },
    SetOf,
    Dictionary,
}

/// The text of a kind, as error messages show it.
pub open spec fn kind_text(k: SyrupKind) -> Seq<char> {
    match k {
        SyrupKind::Unknown(msg) => "Unknown("@ + msg@ + ")"@,
        SyrupKind::Bool => "bool"@,
        SyrupKind::F32 => "f32"@,
        SyrupKind::F64 => "f64"@,
        SyrupKind::Int { desc } => match desc {
            Some(d) => int_description_text(d),
            None => "int"@,
        },
        SyrupKind::Bytes { length } => match length {
            Some(n) => "[u8; "@ + decimal_text(n as nat) + "]"@,
            None => "[u8]"@,
        },
        SyrupKind::String => "string"@,
        SyrupKind::Symbol(sym) => match sym {
            Some(sym) => "Symbol("@ + sym@ + ")"@,
            None => "Symbol"@,
        },
        SyrupKind::List { length } => match length {
            Some(n) => "list("@ + decimal_text(n as nat) + ")"@,
            None => "list"@,
        },
        SyrupKind::Record { label } => match label {
            Some(l) => "record<'"@ + l@ + ">"@,
            None => "record"@,
        },
        SyrupKind::SetOf => "set"@,
        SyrupKind::Dictionary => "dictionary"@,
    }
}

impl SyrupKind {
    /// The kind as text.
    pub fn text(&self) -> (res: String)
        ensures
            res@ == kind_text(*self),
    {
        match self {
            SyrupKind::Unknown(msg) => {
                let mut s = "Unknown(".to_owned();
                push_str(&mut s, msg);
                push_str(&mut s, ")");
                s
            },
            SyrupKind::Bool => "bool".to_owned(),
            SyrupKind::F32 => "f32".to_owned(),
            SyrupKind::F64 => "f64".to_owned(),
            SyrupKind::Int { desc } => match desc {
                Some(d) => d.text(),
                None => "int".to_owned(),
            },
            SyrupKind::Bytes { length } => match length {
                Some(n) => {
                    let mut s = "[u8; ".to_owned();
                    write_decimal_text(*n, &mut s);
                    push_str(&mut s, "]");
                    s
                },
                None => "[u8]".to_owned(),
            },
            SyrupKind::String => "string".to_owned(),
            SyrupKind::Symbol(sym) => match sym {
                Some(sym) => {
                    let mut s = "Symbol(".to_owned();
                    push_str(&mut s, sym);
                    push_str(&mut s, ")");
                    s
                },
                None => "Symbol".to_owned(),
            },
            SyrupKind::List { length } => match length {
                Some(n) => {
                    let mut s = "list(".to_owned();
                    write_decimal_text(*n, &mut s);
                    push_str(&mut s, ")");
                    s
                },
                None => "list".to_owned(),
            },
            SyrupKind::Record { label } => match label {
                Some(l) => {
                    let mut s = "record<'".to_owned();
                    push_str(&mut s, l);
                    push_str(&mut s, ">");
                    s
                },
                None => "record".to_owned(),
            },
            SyrupKind::SetOf => "set".to_owned(),
            SyrupKind::Dictionary => "dictionary".to_owned(),
        }
    }

    /// The kind of the integer type `I`.
    pub fn int_kind<I: IsSigned>() -> (res: Self)
        ensures
            res matches SyrupKind::Int { desc: Some(d) } && d.signed == I::is_signed() && d.width == I::byte_width(),
    {
        SyrupKind::Int { desc: Some(IntDescription::describe::<I>()) }
    }
}

/// Why a tree did not decode to a value.
#[derive(Debug, Clone, Copy)]
pub enum DecodeError {
    /// A string or symbol is not valid UTF-8.
    InvalidUtf8,
    /// An integer did not fit the integer type.
    ParseInt(IntDescription, IntErrorKind),
    /// The tree is of another kind than the value needs.
    Unexpected { expected: SyrupKind, found: SyrupKind },
    /// A part that the value needs is absent.
    Missing(SyrupKind),
}

impl DecodeError {
    /// An integer that did not fit the integer type `I`.
    pub fn int_error<I: IsSigned>(error: IntErrorKind) -> (res: Self)
        ensures
            res matches DecodeError::ParseInt(d, k) && d.signed == I::is_signed() && d.width == I::byte_width() && k == error,
    {
        Self::ParseInt(IntDescription::describe::<I>(), error)
    }

    /// A tree of another kind than `expected`.
    pub fn unexpected(expected: SyrupKind, input: &TokenTree) -> (res: Self)
        ensures
            res == (DecodeError::Unexpected { expected, found: tree_kind(input@) }),
    {
        Self::Unexpected { expected, found: input.kind() }
    }
}

/// Why bytes did not decode to a value: they did not lex to a tree, or the
/// tree did not decode.
#[derive(Debug, Clone, Copy)]
pub enum DecodeBytesError {
    Lex(CursorError),
    Decode(DecodeError),
}

} // verus!
