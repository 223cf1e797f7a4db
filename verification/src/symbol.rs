//! Decoding and encoding symbol literals.

use vstd::prelude::*;

use crate::de::cursor::copy_bytes;
use crate::de::error::{DecodeBytesError, DecodeError, SyrupKind};
use crate::de::impl_decode::{decode_view, str_from_utf8, utf8_spec, Decode};
use crate::de::lex::collection::{encode_tree, lemma_tree_view, tree_kind, tree_spec, SpecTree, TokenTree};
use crate::de::lex::literal::{Literal, SpecLiteral};
use crate::ser::{Encode, EncodeInto};
use vstd::utf8::encode_utf8;

verus! {

broadcast use lemma_tree_view;

/// A string that encodes as a symbol literal.
#[derive(Debug, Clone, PartialEq, Eq)]
pub struct Symbol<S>(pub S);

impl<S: DeepView> DeepView for Symbol<S> {
    type V = S::V;

    open spec fn deep_view(&self) -> S::V {
        self.0.deep_view()
    }
}

impl Symbol<String> {
    /// A borrowing symbol of the same text.
    pub fn as_symbol_ref(&self) -> (res: Symbol<&str>)
        ensures
            res.0@ == self.0@,
    {
        Symbol(self.0.as_str())
    }

    /// The symbol's text.
    pub fn as_str(&self) -> (res: &str)
        ensures
            res@ == self.0@,
    {
        self.0.as_str()
    }
}

impl<'s> Symbol<&'s str> {
    /// A borrowing symbol of the same text.
    pub fn as_symbol_ref(&self) -> (res: Symbol<&'s str>)
        ensures
            res.0@ == self.0@,
    {
        Symbol(self.0)
    }

    /// The symbol's text.
    pub fn as_str(&self) -> (res: &'s str)
        ensures
            res@ == self.0@,
    {
        self.0
    }
}

/// Something that encodes as a symbol literal.
pub trait EncodeAsSymbol {
    /// The text that the symbol holds.
    spec fn symbol_text(&self) -> Seq<char>;

    /// Encodes the value as a symbol.
    fn encode_as_symbol(&self) -> (res: TokenTree)
        ensures
            res@ == SpecTree::Literal(SpecLiteral::Symbol(encode_utf8(self.symbol_text()))),
    ;
}

impl EncodeAsSymbol for str {
    open spec fn symbol_text(&self) -> Seq<char> {
        self@
    }

    fn encode_as_symbol(&self) -> (res: TokenTree) {
        encode(self)
    }
}

/// The symbol literal of a string.
pub fn encode(s: &str) -> (res: TokenTree)
    ensures
        res@ == SpecTree::Literal(SpecLiteral::Symbol(encode_utf8(s@))),
{
    TokenTree::Literal(Literal::Symbol(copy_bytes(s.as_bytes())))
}

/// What decoding a tree as a symbol gives.
pub open spec fn symbol_spec(t: SpecTree) -> Result<Seq<char>, DecodeError> {
    match t {
        SpecTree::Literal(SpecLiteral::Symbol(b)) => utf8_spec(b),
        _ => Err(DecodeError::Unexpected { expected: SyrupKind::Symbol(None), found: tree_kind(t) }),
    }
}

/// Lexing a tree, then decoding it as a symbol.
pub open spec fn symbol_from_bytes_spec(s: Seq<u8>) -> Result<(Seq<u8>, Seq<char>), DecodeBytesError> {
    match tree_spec(s) {
        Err(e) => Err(DecodeBytesError::Lex(e)),
        Ok((r, t)) => match symbol_spec(t) {
            Ok(v) => Ok((r, v)),
            Err(e) => Err(DecodeBytesError::Decode(e)),
        },
    }
}

/// The text of a symbol literal, which must be valid UTF-8.
pub fn decode(input: &TokenTree) -> (res: Result<String, DecodeError>)
    ensures
        decode_view(res) == symbol_spec(input@),
{
    match input {
        TokenTree::Literal(Literal::Symbol(s)) => match str_from_utf8(s.as_slice()) {
            Some(text) => Ok(text.to_owned()),
            None => Err(DecodeError::InvalidUtf8),
        },
        _ => Err(DecodeError::unexpected(SyrupKind::Symbol(None), input)),
    }
}

/// Lexes a tree from the input and decodes it as a symbol; yields the
/// unconsumed input and the text.
pub fn decode_bytes<'i>(input: &'i [u8]) -> (res: Result<(&'i [u8], String), DecodeBytesError>)
    ensures
        match res {
            Ok((r, v)) => symbol_from_bytes_spec(input@) == Ok::<(Seq<u8>, Seq<char>), DecodeBytesError>((r@, v@)),
            Err(e) => symbol_from_bytes_spec(input@) == Err::<(Seq<u8>, Seq<char>), DecodeBytesError>(e),
        },
{
    let (rem, tree) = match TokenTree::parse(input) {
        Ok(x) => x,
        Err(e) => return Err(DecodeBytesError::Lex(e)),
    };
    match decode(&tree) {
        Ok(v) => Ok((rem, v)),
        Err(e) => Err(DecodeBytesError::Decode(e)),
    }
}

impl Decode for Symbol<String> {
    open spec fn decode_spec(t: SpecTree) -> Result<Seq<char>, DecodeError> {
        symbol_spec(t)
    }

    fn decode(input: &TokenTree) -> (res: Result<Symbol<String>, DecodeError>) {
        match decode(input) {
            Ok(v) => Ok(Symbol(v)),
            Err(e) => Err(e),
        }
    }
}

impl Encode for Symbol<String> {
    open spec fn encode_spec(v: Seq<char>) -> SpecTree {
        SpecTree::Literal(SpecLiteral::Symbol(encode_utf8(v)))
    }

    fn encode(&self) -> (res: TokenTree) {
        encode(self.0.as_str())
    }
}

impl<'s> Encode for Symbol<&'s str> {
    open spec fn encode_spec(v: Seq<char>) -> SpecTree {
        SpecTree::Literal(SpecLiteral::Symbol(encode_utf8(v)))
    }

    fn encode(&self) -> (res: TokenTree) {
        encode(self.0)
    }
}

impl EncodeInto for Symbol<String> {
    open spec fn encoding_spec(v: Seq<char>) -> Seq<u8> {
        encode_tree(SpecTree::Literal(SpecLiteral::Symbol(encode_utf8(v))))
    }

    fn encode_into(&self, w: &mut Vec<u8>) -> (res: usize) {
        encode(self.0.as_str()).write_bytes(w)
    }
}

} // verus!
