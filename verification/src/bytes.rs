//! Decoding and encoding byte-string literals.

use vstd::prelude::*;

/// Decoding byte strings of a fixed length.
pub mod array;

use crate::de::cursor::{copy_bytes, lemma_bytes_deep_view};
use crate::de::error::{DecodeBytesError, DecodeError, SyrupKind};
use crate::de::impl_decode::{decode_view, Decode};
use crate::de::lex::collection::{encode_tree, lemma_tree_view, tree_kind, tree_spec, SpecTree, TokenTree};
use crate::de::lex::literal::{encode_literal, lemma_literal_roundtrip, Literal, SpecLiteral};
use crate::ser::{Encode, EncodeInto};

verus! {

broadcast use lemma_tree_view, lemma_bytes_deep_view;

/// Bytes that encode as a byte-string literal.
#[derive(Debug, Clone, PartialEq, Eq)]
pub struct Bytes<B>(pub B);

impl<B: DeepView> DeepView for Bytes<B> {
    type V = B::V;

    open spec fn deep_view(&self) -> B::V {
        self.0.deep_view()
    }
}

/// What decoding a tree as a byte string gives.
pub open spec fn bytes_spec(t: SpecTree) -> Result<Seq<u8>, DecodeError> {
    match t {
        SpecTree::Literal(SpecLiteral::Bytes(b)) => Ok(b),
        _ => Err(DecodeError::Unexpected { expected: SyrupKind::Bytes { length: None }, found: tree_kind(t) }),
    }
}

/// Lexing a tree, then decoding it as a byte string.
pub open spec fn bytes_from_bytes_spec(s: Seq<u8>) -> Result<(Seq<u8>, Seq<u8>), DecodeBytesError> {
    match tree_spec(s) {
        Err(e) => Err(DecodeBytesError::Lex(e)),
        Ok((r, t)) => match bytes_spec(t) {
            Ok(v) => Ok((r, v)),
            Err(e) => Err(DecodeBytesError::Decode(e)),
        },
    }
}

/// The bytes of a byte-string literal.
pub fn decode(input: &TokenTree) -> (res: Result<Vec<u8>, DecodeError>)
    ensures
        decode_view(res) == bytes_spec(input@),
{
    match input {
        TokenTree::Literal(Literal::Bytes(b)) => Ok(copy_bytes(b.as_slice())),
        _ => Err(DecodeError::unexpected(SyrupKind::Bytes { length: None }, input)),
    }
}

/// Lexes a tree from the input and decodes it as a byte string; yields the
/// unconsumed input and the bytes.
pub fn decode_bytes<'i>(input: &'i [u8]) -> (res: Result<(&'i [u8], Vec<u8>), DecodeBytesError>)
    ensures
        match res {
            Ok((r, v)) => bytes_from_bytes_spec(input@) == Ok::<(Seq<u8>, Seq<u8>), DecodeBytesError>((r@, v@)),
            Err(e) => bytes_from_bytes_spec(input@) == Err::<(Seq<u8>, Seq<u8>), DecodeBytesError>(e),
        },
{
    let (rem, tree) = match TokenTree::parse(input) {
        Ok(x) => x,
        Err(e) => return Err(DecodeBytesError::Lex(e)),
    };
    match decode(&tree) {
        Ok(v) => Ok((rem, v)),
        Err(e) => Err(DecodeBytesError::Decode(e)),
    }
}

/// The byte-string literal of the bytes.
pub fn encode(bytes: Vec<u8>) -> (res: TokenTree)
    ensures
        res@ == SpecTree::Literal(SpecLiteral::Bytes(bytes@)),
{
    TokenTree::Literal(Literal::Bytes(bytes))
}

/// The bytes as a byte-string literal: length, `:`, then the bytes.
pub fn encode_bytes(bytes: &[u8]) -> (res: Vec<u8>)
    ensures
        res@ == encode_literal(SpecLiteral::Bytes(bytes@)),
{
    encode(copy_bytes(bytes)).to_bytes()
}

/// Appends the bytes as a byte-string literal to `w` and returns how many
/// bytes were written.
pub fn encode_into(bytes: &[u8], w: &mut Vec<u8>) -> (res: usize)
    ensures
        final(w)@ == old(w)@ + encode_literal(SpecLiteral::Bytes(bytes@)),
        res == encode_literal(SpecLiteral::Bytes(bytes@)).len(),
{
    encode(copy_bytes(bytes)).write_bytes(w)
}

/// Bytes decode back from their encoding followed by any bytes, which are
/// left.
pub proof fn lemma_bytes_roundtrip(b: Seq<u8>, s: Seq<u8>)
    requires
        b.len() <= usize::MAX,
    ensures
        bytes_from_bytes_spec(encode_literal(SpecLiteral::Bytes(b)) + s) == Ok::<(Seq<u8>, Seq<u8>), DecodeBytesError>((s, b)),
{
    lemma_literal_roundtrip(SpecLiteral::Bytes(b), s);
}

impl Decode for Bytes<Vec<u8>> {
    open spec fn decode_spec(t: SpecTree) -> Result<Seq<u8>, DecodeError> {
        bytes_spec(t)
    }

    fn decode(input: &TokenTree) -> (res: Result<Bytes<Vec<u8>>, DecodeError>) {
        match decode(input) {
            Ok(v) => Ok(Bytes(v)),
            Err(e) => Err(e),
        }
    }
}

impl Encode for Bytes<Vec<u8>> {
    open spec fn encode_spec(v: Seq<u8>) -> SpecTree {
        SpecTree::Literal(SpecLiteral::Bytes(v))
    }

    fn encode(&self) -> (res: TokenTree) {
        encode(copy_bytes(self.0.as_slice()))
    }
}

impl EncodeInto for Bytes<Vec<u8>> {
    open spec fn encoding_spec(v: Seq<u8>) -> Seq<u8> {
        encode_tree(SpecTree::Literal(SpecLiteral::Bytes(v)))
    }

    fn encode_into(&self, w: &mut Vec<u8>) -> (res: usize) {
        encode_into(self.0.as_slice(), w)
    }
}

} // verus!
