//! Sturdy references: a node locator and the swiss number of an object at
//! that node.

use vstd::prelude::*;

use super::{
    keys_distinct, lemma_locator_roundtrip, locator_decode_spec, locator_spec, locator_tree,
    locator_uri_text, parse_uri_parts, parsed_uri, NodeLocator, ParseUriError, SpecLocator,
    SpecParseUriError, SpecUriParts, UriParts,
};
use crate::bytes::{self, bytes_spec};
use crate::captp::msg::{named_fields, record_tree};
use crate::de::cursor::{copy_bytes, lemma_bytes_deep_view};
use crate::de::error::{DecodeError, SyrupKind};
use crate::de::lex::collection::{lemma_trees_view, lemma_tree_view, trees_view, Record, SpecTree, TokenTree};
use crate::de::lex::literal::{Literal, SpecLiteral};
use super::percent::{percent_encode, path_keeps};
use crate::symbol;
use crate::text::push_str;

verus! {

broadcast use lemma_tree_view, lemma_bytes_deep_view;

/// The percent-encoding of bytes for a URI path.
pub open spec fn path_encoded(b: Seq<u8>) -> Seq<char> {
    percent_encode(|x: u8| path_keeps(x), b)
}

/// `EString::<Path>::encode::<Path>` on an empty string: each byte that the
/// path table allows is kept, each other byte written as `%` and two
/// uppercase hexadecimal digits.
#[verifier::external_body]
fn encode_path(b: &[u8]) -> (res: String)
    ensures
        res@ == path_encoded(b@),
{
    let mut e = fluent_uri::encoding::EString::<fluent_uri::encoding::encoder::Path>::new();
    e.encode::<fluent_uri::encoding::encoder::Path>(b);
    e.into_string()
}

/// An object at a node, named by its swiss number.
#[derive(Debug, Clone)]
pub struct SturdyRefLocator {
    pub node_locator: NodeLocator,
    pub swiss_num: Vec<u8>,
}

/// The model of a sturdy reference.
pub struct SpecSturdyRef {
    pub node: SpecLocator,
    pub swiss_num: Seq<u8>,
}

impl View for SturdyRefLocator {
    type V = SpecSturdyRef;

    open spec fn view(&self) -> SpecSturdyRef {
        SpecSturdyRef { node: self.node_locator@, swiss_num: self.swiss_num@ }
    }
}

/// Why a URI does not give a sturdy reference.
#[derive(Debug, Clone)]
pub enum ParseSturdyRefUriError {
    /// The URI does not give a node locator.
    Locator(ParseUriError),
    /// The path is empty.
    MissingPath,
    /// The path does not start with `/s/`.
    InvalidPath,
}

/// The model of a sturdy reference parse error.
pub enum SpecParseSturdyRefUriError {
    Locator(SpecParseUriError),
    MissingPath,
    InvalidPath,
}

impl View for ParseSturdyRefUriError {
    type V = SpecParseSturdyRefUriError;

    open spec fn view(&self) -> SpecParseSturdyRefUriError {
        match self {
            ParseSturdyRefUriError::Locator(e) => SpecParseSturdyRefUriError::Locator(e@),
            ParseSturdyRefUriError::MissingPath => SpecParseSturdyRefUriError::MissingPath,
            ParseSturdyRefUriError::InvalidPath => SpecParseSturdyRefUriError::InvalidPath,
        }
    }
}

/// The model of a sturdy reference result.
pub open spec fn sturdy_result_view(r: Result<SturdyRefLocator, ParseSturdyRefUriError>) -> Result<SpecSturdyRef, SpecParseSturdyRefUriError> {
    match r {
        Ok(l) => Ok(l@),
        Err(e) => Err(e@),
    }
}

/// The bytes `/s/` that start the path of a sturdy reference.
pub open spec fn swiss_prefix() -> Seq<u8> {
    seq![0x2fu8, 0x73u8, 0x2fu8]
}

/// A sturdy reference from URI components: the node locator they give,
/// and the decoded path after `/s/` as the swiss number.
pub open spec fn sturdyref_spec(p: SpecUriParts) -> Result<SpecSturdyRef, SpecParseSturdyRefUriError> {
    match locator_spec(p) {
        Err(e) => Err(SpecParseSturdyRefUriError::Locator(e)),
        Ok(l) => if p.path.len() == 0 {
            Err(SpecParseSturdyRefUriError::MissingPath)
        } else if p.path.len() < 3 || p.path.take(3) != swiss_prefix() {
            Err(SpecParseSturdyRefUriError::InvalidPath)
        } else {
            Ok(SpecSturdyRef { node: l, swiss_num: p.path.skip(3) })
        },
    }
}

/// The tree of a sturdy reference: a record `ocapn-sturdyref` of the node
/// locator and the swiss number as a byte string.
pub open spec fn sturdyref_tree(r: SpecSturdyRef) -> SpecTree {
    record_tree("ocapn-sturdyref"@, seq![locator_tree(r.node), SpecTree::Literal(SpecLiteral::Bytes(r.swiss_num))])
}

/// Decoding a sturdy reference: a record `ocapn-sturdyref` whose fields
/// are read in order; the first failure, or the first missing field, is
/// the result.
pub open spec fn sturdyref_decode_spec(t: SpecTree) -> Result<SpecSturdyRef, DecodeError> {
    match named_fields(t, "ocapn-sturdyref") {
        Err(e) => Err(e),
        Ok(f) => if f.len() < 1 {
            Err(DecodeError::Missing(SyrupKind::Record { label: Some("ocapn-node") }))
        } else {
            match locator_decode_spec(f[0]) {
                Err(e) => Err(e),
                Ok(node) => if f.len() < 2 {
                    Err(DecodeError::Missing(SyrupKind::Bytes { length: None }))
                } else {
                    match bytes_spec(f[1]) {
                        Err(e) => Err(e),
                        Ok(swiss_num) => Ok(SpecSturdyRef { node, swiss_num }),
                    }
                },
            }
        },
    }
}

/// The model of a decoded sturdy reference.
pub open spec fn sturdy_decode_view(r: Result<SturdyRefLocator, DecodeError>) -> Result<SpecSturdyRef, DecodeError> {
    match r {
        Ok(l) => Ok(l@),
        Err(e) => Err(e),
    }
}

impl SturdyRefLocator {
    /// A sturdy reference to the object with the swiss number at the node.
    pub fn new(node_locator: NodeLocator, swiss_num: Vec<u8>) -> (res: Self)
        ensures
            res@ == (SpecSturdyRef { node: node_locator@, swiss_num: swiss_num@ }),
    {
        SturdyRefLocator { node_locator, swiss_num }
    }

    /// The URI path: `/s/`, then the encoded swiss number.
    pub fn encoded_path(&self) -> (res: String)
        ensures
            res@ == "/s/"@ + path_encoded(self@.swiss_num),
    {
        let mut path = "/s/".to_owned();
        let e = encode_path(self.swiss_num.as_slice());
        push_str(&mut path, e.as_str());
        path
    }

    /// The sturdy reference that URI components give.
    pub fn try_from_parts(parts: UriParts) -> (res: Result<SturdyRefLocator, ParseSturdyRefUriError>)
        ensures
            sturdy_result_view(res) == sturdyref_spec(parts@),
    {
        let path = copy_bytes(parts.path.as_slice());
        let ghost p = parts@;
        let node_locator = match NodeLocator::try_from_parts(parts) {
            Ok(l) => l,
            Err(e) => return Err(ParseSturdyRefUriError::Locator(e)),
        };
        if path.len() == 0 {
            return Err(ParseSturdyRefUriError::MissingPath);
        }
        if path.len() < 3 || path[0] != 0x2fu8 || path[1] != 0x73u8 || path[2] != 0x2fu8 {
            proof {
                if path@.len() >= 3 {
                    assert(path@.take(3)[0] == path@[0] && path@.take(3)[1] == path@[1] && path@.take(3)[2] == path@[2]);
                }
            }
            return Err(ParseSturdyRefUriError::InvalidPath);
        }
        proof {
            assert(path@.take(3) =~= swiss_prefix());
        }
        let (_, rest) = path.as_slice().split_at(3);
        Ok(SturdyRefLocator { node_locator, swiss_num: copy_bytes(rest) })
    }

    /// The sturdy reference that a URI gives.
    pub fn parse(s: &str) -> (res: Result<SturdyRefLocator, ParseSturdyRefUriError>)
        ensures
            match parsed_uri(s@) {
                None => res matches Err(ParseSturdyRefUriError::Locator(ParseUriError::Uri)),
                Some(p) => sturdy_result_view(res) == sturdyref_spec(p),
            },
    {
        match parse_uri_parts(s) {
            None => Err(ParseSturdyRefUriError::Locator(ParseUriError::Uri)),
            Some(parts) => Self::try_from_parts(parts),
        }
    }

    /// The sturdy reference as an `ocapn` URI.
    pub fn to_uri_string(&self) -> (res: String)
        ensures
            res@ == locator_uri_text(self@.node, "/s/"@ + path_encoded(self@.swiss_num)),
    {
        let path = self.encoded_path();
        self.node_locator.build_uri(path.as_str())
    }

    /// The sturdy reference's tree.
    pub fn encode(&self) -> (res: TokenTree)
        ensures
            res@ == sturdyref_tree(self@),
    {
        let mut fields: Vec<TokenTree> = Vec::new();
        fields.push(self.node_locator.encode());
        fields.push(bytes::encode(copy_bytes(self.swiss_num.as_slice())));
        proof {
            lemma_trees_view(fields@);
            assert(trees_view(fields@) =~= seq![locator_tree(self@.node), SpecTree::Literal(SpecLiteral::Bytes(self@.swiss_num))]);
        }
        TokenTree::Record(Box::new(Record::new(symbol::encode("ocapn-sturdyref"), fields)))
    }

    /// Reads a sturdy reference from a tree.
    pub fn decode(input: &TokenTree) -> (res: Result<SturdyRefLocator, DecodeError>)
        ensures
            sturdy_decode_view(res) == sturdyref_decode_spec(input@),
    {
        let f = match input {
            TokenTree::Record(r) => {
                let matches = match &r.label {
                    TokenTree::Literal(Literal::Symbol(b)) => crate::de::lex::order::bytes_equal(b.as_slice(), "ocapn-sturdyref".as_bytes()),
                    _ => false,
                };
                if !matches {
                    return Err(DecodeError::unexpected(SyrupKind::Record { label: Some("ocapn-sturdyref") }, input));
                }
                &r.elements
            },
            _ => return Err(DecodeError::unexpected(SyrupKind::Record { label: Some("ocapn-sturdyref") }, input)),
        };
        proof {
            lemma_trees_view(f@);
        }
        if f.len() < 1 {
            return Err(DecodeError::Missing(SyrupKind::Record { label: Some("ocapn-node") }));
        }
        let node_locator = match NodeLocator::decode(&f[0]) {
            Ok(v) => v,
            Err(e) => return Err(e),
        };
        if f.len() < 2 {
            return Err(DecodeError::Missing(SyrupKind::Bytes { length: None }));
        }
        let swiss_num = match bytes::decode(&f[1]) {
            Ok(v) => v,
            Err(e) => return Err(e),
        };
        Ok(SturdyRefLocator { node_locator, swiss_num })
    }
}

impl std::str::FromStr for SturdyRefLocator {
    type Err = ParseSturdyRefUriError;

    fn from_str(s: &str) -> (res: Result<Self, Self::Err>)
        ensures
            match parsed_uri(s@) {
                None => res matches Err(ParseSturdyRefUriError::Locator(ParseUriError::Uri)),
                Some(p) => sturdy_result_view(res) == sturdyref_spec(p),
            },
    {
        Self::parse(s)
    }
}

/// A sturdy reference whose locator's hint keys are distinct reads back
/// from its tree.
pub proof fn lemma_sturdyref_roundtrip(r: SpecSturdyRef)
    requires
        keys_distinct(r.node.hints),
    ensures
        sturdyref_decode_spec(sturdyref_tree(r)) == Ok::<SpecSturdyRef, DecodeError>(r),
{
    lemma_locator_roundtrip(r.node);
}

} // verus!
