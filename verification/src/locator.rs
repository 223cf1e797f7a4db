//! Node locators: where a CapTP node can be reached, read from `ocapn:`
//! URIs and written back as their components.

use vstd::prelude::*;

use vstd::string::StringSliceAdditionalSpecFns;
use vstd::utf8::*;
use vstd::std_specs::cmp::PartialEqSpecImpl;

use crate::captp::msg::{named_fields, record_tree};
use crate::de::error::{DecodeError, SyrupKind};
use crate::de::impl_decode::{decode_view, utf8_spec, Decode};
use crate::de::lex::collection::{
    encode_tree, encodings, hash_bytes, lemma_encodings, lemma_pair_encodings, pair_encodings, lemma_pairs_view, lemma_tree_view, lemma_trees_view, pairs_view, tree_kind, trees_view,
    Dictionary, Record, SpecTree, TokenTree,
};
use crate::de::cursor::is_digit;
use crate::de::lex::integer::{decimal, lemma_decimal};
use crate::de::lex::literal::{encode_sized, lemma_leading_digits_of, Literal, SpecLiteral};
use crate::de::lex::order::{entry_keys_distinct, lemma_sorted_entries_any_order, Entry};
use crate::ser::Encode;
use crate::symbol::{self, symbol_spec};
use crate::text::push_str;
use percent::{percent_encode, query_table, query_text_decoded, reg_name_keeps, userinfo_keeps};

pub mod percent;
mod sturdy;
pub use sturdy::{
    lemma_sturdyref_roundtrip, path_encoded, sturdyref_decode_spec, sturdyref_spec, sturdyref_tree,
    ParseSturdyRefUriError, SpecParseSturdyRefUriError, SpecSturdyRef, SturdyRefLocator,
};

verus! {

broadcast use lemma_tree_view;

/// The raw components of a URI reference, still percent-encoded.
#[derive(Debug)]
pub struct UriParts {
    pub scheme: Option<String>,
    pub userinfo: Option<String>,
    /// The host; present exactly when the reference has an authority.
    pub host: Option<String>,
    pub port: Option<String>,
    /// The path, percent-decoded.
    pub path: Vec<u8>,
    pub query: Option<String>,
}

/// The model of URI components.
pub struct SpecUriParts {
    pub scheme: Option<Seq<char>>,
    pub userinfo: Option<Seq<char>>,
    pub host: Option<Seq<char>>,
    pub port: Option<Seq<char>>,
    pub path: Seq<u8>,
    pub query: Option<Seq<char>>,
}

/// The model of an optional string.
pub open spec fn opt_view(o: Option<String>) -> Option<Seq<char>> {
    match o {
        Some(s) => Some(s@),
        None => None,
    }
}

impl View for UriParts {
    type V = SpecUriParts;

    open spec fn view(&self) -> SpecUriParts {
        SpecUriParts {
            scheme: opt_view(self.scheme),
            userinfo: opt_view(self.userinfo),
            host: opt_view(self.host),
            port: opt_view(self.port),
            path: self.path@,
            query: opt_view(self.query),
        }
    }
}

/// The components that `fluent_uri` reads from a string, or `None` where
/// the string is not a URI reference.
pub uninterp spec fn parsed_uri(s: Seq<char>) -> Option<SpecUriParts>;

/// `fluent_uri::UriRef::parse` on a string slice, then its scheme, the
/// authority's userinfo, host and port, and its query, each as raw text,
/// and its path decoded to bytes (`EStr::decode`, `Decode::into_bytes`).
/// The contract only names the result.
#[verifier::external_body]
pub(crate) fn parse_uri_parts(s: &str) -> (res: Option<UriParts>)
    ensures
        match res {
            Some(p) => parsed_uri(s@) == Some(p@),
            None => parsed_uri(s@) is None,
        },
{
    let uri = match fluent_uri::UriRef::parse(s) {
        Ok(u) => u,
        Err(_) => return None,
    };
    let auth = uri.authority();
    Some(UriParts {
        scheme: uri.scheme().map(|x| x.as_str().to_owned()),
        userinfo: auth.and_then(|a| a.userinfo()).map(|u| u.as_str().to_owned()),
        host: auth.map(|a| a.host().to_owned()),
        port: auth.and_then(|a| a.port()).map(|p| p.as_str().to_owned()),
        path: uri.path().decode().into_bytes().into_owned(),
        query: uri.query().map(|q| q.as_str().to_owned()),
    })
}

/// The text that a percent-encoded component encodes, or `None` where it is
/// not properly encoded for a query or what it encodes is not UTF-8.
pub open spec fn percent_decoded(s: Seq<char>) -> Option<Seq<char>> {
    query_text_decoded(s)
}

/// `EStr::<Query>::new`, then `EStr::decode` and `Decode::into_string`: the
/// string is accepted where each of its bytes is one the query table
/// allows or a `%` with two hexadecimal digits, and decodes, where the
/// decoded bytes are UTF-8, to the text they encode.
#[verifier::external_body]
fn percent_decode(s: &str) -> (res: Option<String>)
    ensures
        match res {
            Some(d) => percent_decoded(s@) == Some(d@),
            None => percent_decoded(s@) is None,
        },
{
    match fluent_uri::encoding::EStr::<fluent_uri::encoding::encoder::Query>::new(s) {
        None => None,
        Some(e) => match e.decode().into_string() {
            Ok(c) => Some(c.into_owned()),
            Err(_) => None,
        },
    }
}

/// The percent-encoding of a text's UTF-8 bytes for a registered name.
pub open spec fn reg_name_encoded(s: Seq<char>) -> Seq<char> {
    percent_encode(|b: u8| reg_name_keeps(b), encode_utf8(s))
}

/// The percent-encoding of a text's UTF-8 bytes for a userinfo.
pub open spec fn userinfo_encoded(s: Seq<char>) -> Seq<char> {
    percent_encode(|b: u8| userinfo_keeps(b), encode_utf8(s))
}

/// The percent-encoding of a text's UTF-8 bytes for a query.
pub open spec fn query_encoded(s: Seq<char>) -> Seq<char> {
    percent_encode(query_table(), encode_utf8(s))
}

/// A query pair is split at its first `=`: the key is the text before it
/// and the value everything after it, `=` included, each percent-decoded
/// and then inserted; where either does not decode, the query is refused.
pub proof fn lemma_query_pair_splits_at_first_eq(h: Seq<Hint>, piece: Seq<u8>, e: int)
    requires
        0 <= e < piece.len(),
        piece[e] == 0x3d,
        forall|j: int| 0 <= j < e ==> piece[j] != 0x3d,
        forall|j: int| 0 <= j < piece.len() ==> piece[j] != 0x26,
    ensures
        query_hints(h, piece) == match (percent_decoded(chars(piece.take(e))), percent_decoded(chars(piece.skip(e + 1)))) {
            (Some(k), Some(v)) => Some(hint_insert(h, k, v)),
            _ => None::<Seq<Hint>>,
        },
{
    lemma_first_index(piece, 0x26, piece.len() as int);
    lemma_first_index(piece.take(piece.len() as int), 0x3d, e);
    assert(piece.take(piece.len() as int) =~= piece);
    assert(piece.take(piece.len() as int).take(e) =~= piece.take(e));
}

/// A query pair without `=` adds no hint.
pub proof fn lemma_query_pair_without_eq(h: Seq<Hint>, piece: Seq<u8>)
    requires
        forall|j: int| 0 <= j < piece.len() ==> piece[j] != 0x3d && piece[j] != 0x26,
    ensures
        query_hints(h, piece) == Some(h),
{
    lemma_first_index(piece, 0x26, piece.len() as int);
    assert(piece.take(piece.len() as int) =~= piece);
    lemma_first_index(piece, 0x3d, piece.len() as int);
}

/// Pairs are separated by `&` and read in order: the hints after a first
/// pair and the rest are those of the rest, read after the first pair.
pub proof fn lemma_query_pairs_in_order(h: Seq<Hint>, first: Seq<u8>, rest: Seq<u8>)
    requires
        forall|j: int| 0 <= j < first.len() ==> first[j] != 0x26,
    ensures
        query_hints(h, first + seq![0x26u8] + rest) == match query_hints(h, first) {
            Some(h2) => query_hints(h2, rest),
            None => None,
        },
{
    let q = first + seq![0x26u8] + rest;
    assert forall|j: int| 0 <= j < first.len() implies q[j] != 0x26 by {
        assert(q[j] == first[j]);
    }
    assert(q[first.len() as int] == 0x26);
    lemma_first_index(q, 0x26, first.len() as int);
    lemma_first_index(first, 0x26, first.len() as int);
    assert(q.take(first.len() as int) =~= first);
    assert(first.take(first.len() as int) =~= first);
    assert(q.skip(first.len() as int + 1) =~= rest);
}

/// A hint's key or value, percent-encoded as it is written into a URI's
/// query, decodes back to itself.
pub proof fn lemma_hint_text_roundtrip(s: Seq<char>)
    ensures
        percent_decoded(query_encoded(s)) == Some(s),
{
    percent::lemma_query_text_roundtrip(s);
}

/// `EString::<RegName>::encode::<RegName>` on an empty string: each byte of
/// the text that the registered-name table allows is kept, each other byte
/// written as `%` and two uppercase hexadecimal digits.
#[verifier::external_body]
fn encode_reg_name(s: &str) -> (res: String)
    ensures
        res@ == reg_name_encoded(s@),
{
    let mut e = fluent_uri::encoding::EString::<fluent_uri::encoding::encoder::RegName>::new();
    e.encode::<fluent_uri::encoding::encoder::RegName>(s);
    e.into_string()
}

/// `EString::<Userinfo>::encode::<Userinfo>` on an empty string: each byte
/// of the text that the userinfo table allows is kept, each other byte
/// written as `%` and two uppercase hexadecimal digits.
#[verifier::external_body]
fn encode_userinfo(s: &str) -> (res: String)
    ensures
        res@ == userinfo_encoded(s@),
{
    let mut e = fluent_uri::encoding::EString::<fluent_uri::encoding::encoder::Userinfo>::new();
    e.encode::<fluent_uri::encoding::encoder::Userinfo>(s);
    e.into_string()
}

/// `EString::<Query>::encode::<Query>` on an empty string: each byte of the
/// text that the query table allows is kept, each other byte written as `%`
/// and two uppercase hexadecimal digits.
#[verifier::external_body]
fn encode_query(s: &str) -> (res: String)
    ensures
        res@ == query_encoded(s@),
{
    let mut e = fluent_uri::encoding::EString::<fluent_uri::encoding::encoder::Query>::new();
    e.encode::<fluent_uri::encoding::encoder::Query>(s);
    e.into_string()
}

/// A hint: a key and a value.
pub type Hint = (Seq<char>, Seq<char>);

/// Inserting a hint: the value of an existing key is replaced in place,
/// a new key goes last.
pub open spec fn hint_insert(h: Seq<Hint>, k: Seq<char>, v: Seq<char>) -> Seq<Hint>
    decreases h.len(),
{
    if h.len() == 0 {
        seq![(k, v)]
    } else if h[0].0 == k {
        seq![(k, v)] + h.drop_first()
    } else {
        seq![h[0]] + hint_insert(h.drop_first(), k, v)
    }
}

/// The position of the first `c` in `b`.
pub open spec fn first_index(b: Seq<u8>, c: u8) -> Option<int>
    decreases b.len(),
{
    if b.len() == 0 {
        None
    } else if b[0] == c {
        Some(0)
    } else {
        match first_index(b.drop_first(), c) {
            Some(i) => Some(i + 1),
            None => None,
        }
    }
}

/// The position of the last `c` in `b`.
pub open spec fn last_index(b: Seq<u8>, c: u8) -> Option<int>
    decreases b.len(),
{
    if b.len() == 0 {
        None
    } else if b.last() == c {
        Some(b.len() - 1)
    } else {
        last_index(b.drop_last(), c)
    }
}

/// The text that UTF-8 bytes encode.
pub open spec fn chars(b: Seq<u8>) -> Seq<char> {
    decode_utf8(b)
}

/// A query's `key=value` pairs, `&`-separated, decoded and inserted in
/// order; pairs without `=` are skipped; `None` where a key or a value does
/// not decode.
pub open spec fn query_hints(h: Seq<Hint>, rest: Seq<u8>) -> Option<Seq<Hint>>
    decreases rest.len(),
{
    let end = match first_index(rest, 0x26) {
        Some(i) => i,
        None => rest.len() as int,
    };
    let piece = rest.take(end);
    let h2 = match first_index(piece, 0x3d) {
        None => Some(h),
        Some(e) => match percent_decoded(chars(piece.take(e))) {
            None => None,
            Some(k) => match percent_decoded(chars(piece.skip(e + 1))) {
                None => None,
                Some(v) => Some(hint_insert(h, k, v)),
            },
        },
    };
    match h2 {
        None => None,
        Some(h2) => if end < rest.len() && 0 <= end {
            query_hints(h2, rest.skip(end + 1))
        } else {
            Some(h2)
        },
    }
}

/// An ASCII letter in lower case; other bytes unchanged.
pub open spec fn ascii_lower(b: u8) -> u8 {
    if 0x41 <= b <= 0x5a {
        (b + 0x20) as u8
    } else {
        b
    }
}

/// The text is `ocapn`, ignoring ASCII case.
pub open spec fn is_ocapn(s: Seq<char>) -> bool {
    let b = encode_utf8(s);
    &&& b.len() == 5
    &&& ascii_lower(b[0]) == 0x6f
    &&& ascii_lower(b[1]) == 0x63
    &&& ascii_lower(b[2]) == 0x61
    &&& ascii_lower(b[3]) == 0x70
    &&& ascii_lower(b[4]) == 0x6e
}

/// Where a node is, and hints for reaching it.
#[derive(Debug, Clone)]
pub struct NodeLocator {
    pub designator: String,
    pub transport: String,
    /// Keys occur once each.
    pub hints: Vec<(String, String)>,
}

/// The model of a node locator.
pub struct SpecLocator {
    pub designator: Seq<char>,
    pub transport: Seq<char>,
    pub hints: Seq<Hint>,
}

/// The model of hints.
pub open spec fn hints_view(h: Seq<(String, String)>) -> Seq<Hint> {
    h.map_values(|p: (String, String)| (p.0@, p.1@))
}

impl View for NodeLocator {
    type V = SpecLocator;

    open spec fn view(&self) -> SpecLocator {
        SpecLocator { designator: self.designator@, transport: self.transport@, hints: hints_view(self.hints@) }
    }
}

/// Why a URI does not give a node locator.
#[derive(Debug, Clone)]
pub enum ParseUriError {
    /// The text is not a URI reference.
    Uri,
    /// A port is not a number.
    Port,
    /// A hint does not decode.
    DecodeHint,
    /// The scheme is not `ocapn`.
    UnrecognizedScheme(String),
    /// There is no authority.
    MissingAuthority,
    /// The host has no `.` before a transport.
    MissingTransport,
}

/// The model of a parse error.
pub enum SpecParseUriError {
    Uri,
    Port,
    DecodeHint,
    UnrecognizedScheme(Seq<char>),
    MissingAuthority,
    MissingTransport,
}

impl View for ParseUriError {
    type V = SpecParseUriError;

    open spec fn view(&self) -> SpecParseUriError {
        match self {
            ParseUriError::Uri => SpecParseUriError::Uri,
            ParseUriError::Port => SpecParseUriError::Port,
            ParseUriError::DecodeHint => SpecParseUriError::DecodeHint,
            ParseUriError::UnrecognizedScheme(s) => SpecParseUriError::UnrecognizedScheme(s@),
            ParseUriError::MissingAuthority => SpecParseUriError::MissingAuthority,
            ParseUriError::MissingTransport => SpecParseUriError::MissingTransport,
        }
    }
}

/// The model of a locator result.
pub open spec fn locator_result_view(r: Result<NodeLocator, ParseUriError>) -> Result<SpecLocator, SpecParseUriError> {
    match r {
        Ok(l) => Ok(l@),
        Err(e) => Err(e@),
    }
}

/// A node locator from URI components: the scheme, if any, must be `ocapn`
/// in any case; the authority's host splits at its last `.` into the
/// designator and the transport; the decoded userinfo, the port and the
/// decoded query pairs become hints, in that order.
pub open spec fn locator_spec(p: SpecUriParts) -> Result<SpecLocator, SpecParseUriError> {
    if p.scheme is Some && !is_ocapn(p.scheme->0) {
        Err(SpecParseUriError::UnrecognizedScheme(p.scheme->0))
    } else if p.host is None {
        Err(SpecParseUriError::MissingAuthority)
    } else {
        let hb = encode_utf8(p.host->0);
        match last_index(hb, 0x2e) {
            None => Err(SpecParseUriError::MissingTransport),
            Some(i) => {
                let h1 = match p.userinfo {
                    None => Some(Seq::<Hint>::empty()),
                    Some(u) => match percent_decoded(u) {
                        None => None,
                        Some(d) => Some(hint_insert(Seq::<Hint>::empty(), "userinfo"@, d)),
                    },
                };
                match h1 {
                    None => Err(SpecParseUriError::DecodeHint),
                    Some(h1) => {
                        let h2 = match p.port {
                            None => h1,
                            Some(pt) => hint_insert(h1, "port"@, pt),
                        };
                        let h3 = match p.query {
                            None => Some(h2),
                            Some(q) => query_hints(h2, encode_utf8(q)),
                        };
                        match h3 {
                            None => Err(SpecParseUriError::DecodeHint),
                            Some(h) => Ok(SpecLocator {
                                designator: chars(hb.take(i)),
                                transport: chars(hb.skip(i + 1)),
                                hints: h,
                            }),
                        }
                    },
                }
            },
        }
    }
}

/// What `first_index` finds.
proof fn lemma_first_index_found(b: Seq<u8>, c: u8)
    ensures
        match first_index(b, c) {
            Some(i) => 0 <= i < b.len() && b[i] == c && forall|j: int| 0 <= j < i ==> b[j] != c,
            None => forall|j: int| 0 <= j < b.len() ==> b[j] != c,
        },
    decreases b.len(),
{
    if b.len() > 0 {
        lemma_first_index_found(b.drop_first(), c);
        assert forall|j: int| 1 <= j < b.len() implies b[j] == b.drop_first()[j - 1] by {}
    }
}

/// What `last_index` finds.
proof fn lemma_last_index_found(b: Seq<u8>, c: u8)
    ensures
        match last_index(b, c) {
            Some(i) => 0 <= i < b.len() && b[i] == c,
            None => forall|j: int| 0 <= j < b.len() ==> b[j] != c,
        },
    decreases b.len(),
{
    if b.len() > 0 {
        lemma_last_index_found(b.drop_last(), c);
        assert forall|j: int| 0 <= j < b.len() - 1 implies b[j] == b.drop_last()[j] by {}
    }
}

proof fn lemma_first_index(b: Seq<u8>, c: u8, i: int)
    requires
        0 <= i <= b.len(),
        forall|j: int| 0 <= j < i ==> b[j] != c,
        i < b.len() ==> b[i] == c,
    ensures
        first_index(b, c) == if i < b.len() { Some(i) } else { None::<int> },
    decreases b.len(),
{
    if b.len() > 0 && i > 0 {
        assert forall|j: int| 0 <= j < i - 1 implies b.drop_first()[j] != c by {
            assert(b.drop_first()[j] == b[j + 1]);
        }
        lemma_first_index(b.drop_first(), c, i - 1);
    }
}

proof fn lemma_last_index(b: Seq<u8>, c: u8, i: int)
    requires
        -1 <= i < b.len(),
        forall|j: int| i < j < b.len() ==> b[j] != c,
        i >= 0 ==> b[i] == c,
    ensures
        last_index(b, c) == if i >= 0 { Some(i) } else { None::<int> },
    decreases b.len(),
{
    if b.len() > 0 && i < b.len() - 1 {
        assert forall|j: int| i < j < b.len() - 1 implies b.drop_last()[j] != c by {
            assert(b.drop_last()[j] == b[j]);
        }
        lemma_last_index(b.drop_last(), c, i);
    }
}

/// The first position of `c` in `b`.
fn find_first(b: &[u8], c: u8) -> (res: Option<usize>)
    ensures
        match first_index(b@, c) {
            Some(i) => res == Some(i as usize),
            None => res is None,
        },
        res matches Some(i) ==> i < b@.len() && b@[i as int] == c,
{
    let mut i: usize = 0;
    while i < b.len()
        invariant
            i <= b@.len(),
            forall|j: int| 0 <= j < i ==> b@[j] != c,
        decreases b@.len() - i,
    {
        if b[i] == c {
            proof {
                lemma_first_index(b@, c, i as int);
            }
            return Some(i);
        }
        i = i + 1;
    }
    proof {
        lemma_first_index(b@, c, i as int);
    }
    None
}

/// The last position of `c` in `b`.
fn find_last(b: &[u8], c: u8) -> (res: Option<usize>)
    ensures
        match last_index(b@, c) {
            Some(i) => res == Some(i as usize),
            None => res is None,
        },
        res matches Some(i) ==> i < b@.len() && b@[i as int] == c && last_index(b@, c) == Some(i as int),
{
    let mut i: usize = b.len();
    while i > 0
        invariant
            i <= b@.len(),
            forall|j: int| i <= j < b@.len() ==> b@[j] != c,
        decreases i,
    {
        if b[i - 1] == c {
            proof {
                lemma_last_index(b@, c, i - 1);
            }
            return Some(i - 1);
        }
        i = i - 1;
    }
    proof {
        lemma_last_index(b@, c, -1);
    }
    None
}

/// The text before and after an ASCII byte at position `i`.
fn split_around(s: &str, i: usize) -> (res: (&str, &str))
    requires
        i < encode_utf8(s@).len(),
        encode_utf8(s@)[i as int] < 0x80,
    ensures
        encode_utf8(res.0@) == encode_utf8(s@).take(i as int),
        encode_utf8(res.1@) == encode_utf8(s@).skip(i + 1),
{
    let ghost b = encode_utf8(s@);
    proof {
        encode_utf8_valid_utf8(s@);
        is_char_boundary_iff_is_leading_byte(b, i as int);
    }
    let (front, rest) = s.split_at(i);
    let ghost r = b.subrange(i as int, b.len() as int);
    proof {
        valid_utf8_split(b, i as int);
        assert(rest.spec_bytes() =~= r);
        assert(r[0] == b[i as int]);
        if r.len() > 1 {
            is_char_boundary_iff_is_leading_byte(r, 0);
            assert(length_of_first_scalar(r) == 1);
            assert(is_char_boundary(r, 1)) by {
                reveal_with_fuel(is_char_boundary, 2);
            }
        } else {
            is_char_boundary_start_end_of_seq(r);
        }
    }
    let (_, back) = rest.split_at(1);
    proof {
        assert(back.spec_bytes() =~= b.skip(i + 1));
        assert(front.spec_bytes() =~= b.take(i as int));
    }
    (front, back)
}

/// Inserting a hint replaces, where it stands, the value of the first hint
/// with that key (at index `i`); where no hint has the key (`i` is the
/// length) the hint goes last.
pub proof fn lemma_hint_insert(h: Seq<Hint>, k: Seq<char>, v: Seq<char>, i: int)
    requires
        0 <= i <= h.len(),
        forall|j: int| 0 <= j < i ==> h[j].0 != k,
        i < h.len() ==> h[i].0 == k,
    ensures
        hint_insert(h, k, v) == if i < h.len() { h.update(i, (k, v)) } else { h.push((k, v)) },
    decreases h.len(),
{
    if h.len() > 0 {
        if i == 0 {
            assert(seq![(k, v)] + h.drop_first() =~= h.update(0, (k, v)));
        } else {
            assert forall|j: int| 0 <= j < i - 1 implies h.drop_first()[j].0 != k by {
                assert(h.drop_first()[j] == h[j + 1]);
            }
            lemma_hint_insert(h.drop_first(), k, v, i - 1);
            if i < h.len() {
                assert(seq![h[0]] + h.drop_first().update(i - 1, (k, v)) =~= h.update(i, (k, v)));
            } else {
                assert(seq![h[0]] + h.drop_first().push((k, v)) =~= h.push((k, v)));
            }
        }
    }
}

/// Inserts a hint: replaces the value of an existing key in place, or adds
/// the key last.
fn insert_hint(h: &mut Vec<(String, String)>, k: String, v: String)
    ensures
        hints_view(final(h)@) == hint_insert(hints_view(old(h)@), k@, v@),
{
    let ghost hv = hints_view(h@);
    let mut i: usize = 0;
    while i < h.len()
        invariant
            i <= h@.len(),
            h@ == old(h)@,
            hv == hints_view(h@),
            forall|j: int| 0 <= j < i ==> #[trigger] hv[j].0 != k@,
        decreases h@.len() - i,
    {
        if h[i].0 == k {
            proof {
                assert(hv[i as int].0 == k@);
                lemma_hint_insert(hv, k@, v@, i as int);
            }
            let _ = h.remove(i);
            h.insert(i, (k, v));
            proof {
                assert(hints_view(h@) =~= hv.update(i as int, (k@, v@)));
            }
            return;
        }
        i = i + 1;
    }
    proof {
        lemma_hint_insert(hv, k@, v@, i as int);
    }
    h.push((k, v));
    proof {
        assert(hints_view(h@) =~= hv.push((k@, v@)));
    }
}

/// Whether the text is `ocapn`, ignoring ASCII case.
fn eq_ocapn(s: &str) -> (res: bool)
    ensures
        res == is_ocapn(s@),
{
    let b = s.as_bytes();
    if b.len() != 5 {
        return false;
    }
    let l0 = if 0x41u8 <= b[0] && b[0] <= 0x5au8 { b[0] + 0x20 } else { b[0] };
    let l1 = if 0x41u8 <= b[1] && b[1] <= 0x5au8 { b[1] + 0x20 } else { b[1] };
    let l2 = if 0x41u8 <= b[2] && b[2] <= 0x5au8 { b[2] + 0x20 } else { b[2] };
    let l3 = if 0x41u8 <= b[3] && b[3] <= 0x5au8 { b[3] + 0x20 } else { b[3] };
    let l4 = if 0x41u8 <= b[4] && b[4] <= 0x5au8 { b[4] + 0x20 } else { b[4] };
    l0 == 0x6fu8 && l1 == 0x63u8 && l2 == 0x61u8 && l3 == 0x70u8 && l4 == 0x6eu8
}

/// Decodes a query's `key=value` pairs into hints; `false` where a key or a
/// value does not decode.
fn add_query_hints(h: &mut Vec<(String, String)>, q: &str) -> (ok: bool)
    ensures
        match query_hints(hints_view(old(h)@), encode_utf8(q@)) {
            Some(r) => ok && hints_view(final(h)@) == r,
            None => !ok,
        },
{
    broadcast use encode_utf8_decode_utf8;

    let mut cur: &str = q;
    loop
        invariant
            query_hints(hints_view(old(h)@), encode_utf8(q@)) == query_hints(hints_view(h@), encode_utf8(cur@)),
        decreases encode_utf8(cur@).len(),
    {
        let ghost cb = encode_utf8(cur@);
        proof {
            lemma_first_index_found(cb, 0x26);
        }
        let b = cur.as_bytes();
        let amp = find_first(b, 0x26u8);
        let (piece, rest, last) = match amp {
            Some(i) => {
                let (p, r) = split_around(cur, i);
                (p, r, false)
            },
            None => {
                proof {
                    assert(cb.take(cb.len() as int) =~= cb);
                }
                (cur, cur, true)
            },
        };
        let ghost pb = encode_utf8(piece@);
        let ghost end: int = match first_index(cb, 0x26) {
            Some(i) => i,
            None => cb.len() as int,
        };
        proof {
            assert(pb == cb.take(end));
        }
        let ghost h0 = hints_view(h@);
        match find_first(piece.as_bytes(), 0x3du8) {
            None => {},
            Some(e) => {
                proof {
                    lemma_first_index_found(pb, 0x3d);
                }
                let (ks, vs) = split_around(piece, e);
                proof {
                    encode_utf8_valid_utf8(ks@);
                    encode_utf8_decode_utf8(ks@);
                    encode_utf8_valid_utf8(vs@);
                    encode_utf8_decode_utf8(vs@);
                    assert(chars(pb.take(e as int)) == ks@);
                    assert(chars(pb.skip(e + 1)) == vs@);
                }
                let kd = match percent_decode(ks) {
                    Some(d) => d,
                    None => {
                        proof {
                            assert(query_hints(h0, cb) is None);
                        }
                        return false;
                    },
                };
                let vd = match percent_decode(vs) {
                    Some(d) => d,
                    None => {
                        proof {
                            assert(query_hints(h0, cb) is None);
                        }
                        return false;
                    },
                };
                insert_hint(h, kd, vd);
            },
        }
        if last {
            return true;
        }
        cur = rest;
    }
}

impl NodeLocator {
    /// A locator without hints.
    pub fn new(designator: String, transport: String) -> (res: Self)
        ensures
            res@ == (SpecLocator { designator: designator@, transport: transport@, hints: Seq::empty() }),
    {
        let hints: Vec<(String, String)> = Vec::new();
        proof {
            assert(hints_view(hints@) =~= Seq::<Hint>::empty());
        }
        NodeLocator { designator, transport, hints }
    }

    /// The locator that URI components give.
    pub fn try_from_parts(parts: UriParts) -> (res: Result<NodeLocator, ParseUriError>)
        ensures
            locator_result_view(res) == locator_spec(parts@),
    {
        broadcast use encode_utf8_decode_utf8;

        if let Some(scheme) = &parts.scheme {
            if !eq_ocapn(scheme.as_str()) {
                return Err(ParseUriError::UnrecognizedScheme(scheme.clone()));
            }
        }
        let host = match &parts.host {
            None => return Err(ParseUriError::MissingAuthority),
            Some(h) => h.as_str(),
        };
        let host_bytes = host.as_bytes();
        proof {
            assert(host_bytes@ == encode_utf8(parts@.host->0));
            lemma_last_index_found(host_bytes@, 0x2e);
        }
        let dot = match find_last(host_bytes, 0x2eu8) {
            None => return Err(ParseUriError::MissingTransport),
            Some(i) => i,
        };
        let (designator, transport) = split_around(host, dot);
        proof {
            let hb = encode_utf8(parts@.host->0);
            assert(host@ == parts@.host->0);
            lemma_last_index_found(hb, 0x2e);
            assert(last_index(hb, 0x2e) == Some(dot as int));
            encode_utf8_valid_utf8(designator@);
            encode_utf8_decode_utf8(designator@);
            encode_utf8_valid_utf8(transport@);
            encode_utf8_decode_utf8(transport@);
            assert(chars(hb.take(dot as int)) == designator@);
            assert(chars(hb.skip(dot + 1)) == transport@);
        }
        let mut hints: Vec<(String, String)> = Vec::new();
        proof {
            assert(hints_view(hints@) =~= Seq::<Hint>::empty());
        }
        if let Some(u) = &parts.userinfo {
            match percent_decode(u.as_str()) {
                None => return Err(ParseUriError::DecodeHint),
                Some(d) => insert_hint(&mut hints, "userinfo".to_owned(), d),
            }
        }
        if let Some(pt) = &parts.port {
            insert_hint(&mut hints, "port".to_owned(), pt.clone());
        }
        if let Some(q) = &parts.query {
            if !add_query_hints(&mut hints, q.as_str()) {
                return Err(ParseUriError::DecodeHint);
            }
        }
        Ok(NodeLocator { designator: designator.to_owned(), transport: transport.to_owned(), hints })
    }

    /// The locator that a URI gives.
    pub fn parse(s: &str) -> (res: Result<NodeLocator, ParseUriError>)
        ensures
            match parsed_uri(s@) {
                None => res matches Err(ParseUriError::Uri),
                Some(p) => locator_result_view(res) == locator_spec(p),
            },
    {
        match parse_uri_parts(s) {
            None => Err(ParseUriError::Uri),
            Some(parts) => Self::try_from_parts(parts),
        }
    }
}

/// The value of the first hint with the key.
pub open spec fn hint_lookup(h: Seq<Hint>, k: Seq<char>) -> Option<Seq<char>>
    decreases h.len(),
{
    if h.len() == 0 {
        None
    } else if h[0].0 == k {
        Some(h[0].1)
    } else {
        hint_lookup(h.drop_first(), k)
    }
}

proof fn lemma_hint_lookup(h: Seq<Hint>, k: Seq<char>, i: int)
    requires
        0 <= i <= h.len(),
        forall|j: int| 0 <= j < i ==> h[j].0 != k,
        i < h.len() ==> h[i].0 == k,
    ensures
        hint_lookup(h, k) == if i < h.len() { Some(h[i].1) } else { None::<Seq<char>> },
    decreases h.len(),
{
    if h.len() > 0 && i > 0 {
        assert forall|j: int| 0 <= j < i - 1 implies h.drop_first()[j].0 != k by {
            assert(h.drop_first()[j] == h[j + 1]);
        }
        lemma_hint_lookup(h.drop_first(), k, i - 1);
    }
}

/// The query text of hints other than `port` and `userinfo`: each as its
/// encoded key, `=` and its encoded value, `&` between them.
pub open spec fn query_text(h: Seq<Hint>) -> Seq<char>
    decreases h.len(),
{
    if h.len() == 0 {
        Seq::empty()
    } else {
        let prev = query_text(h.drop_last());
        let k = h.last().0;
        let v = h.last().1;
        if k == "port"@ || k == "userinfo"@ {
            prev
        } else {
            (if prev.len() == 0 { prev } else { prev + "&"@ }) + query_encoded(k) + "="@ + query_encoded(v)
        }
    }
}

/// The encoding of a locator.
pub open spec fn locator_bytes(l: SpecLocator) -> Seq<u8> {
    encode_tree(locator_tree(l))
}

/// Locators are equal when they encode to the same bytes, so the order of
/// their hints does not matter.
impl PartialEq for NodeLocator {
    fn eq(&self, other: &Self) -> (res: bool) {
        let a = self.encode().to_bytes();
        let b = other.encode().to_bytes();
        crate::de::lex::order::bytes_equal(a.as_slice(), b.as_slice())
    }
}

impl PartialEqSpecImpl for NodeLocator {
    open spec fn obeys_eq_spec() -> bool {
        true
    }

    open spec fn eq_spec(&self, other: &Self) -> bool {
        locator_bytes(self@) == locator_bytes(other@)
    }
}

impl Eq for NodeLocator {
}

/// A locator hashes its encoding, so that equal locators hash alike.
impl std::hash::Hash for NodeLocator {
    fn hash<H: std::hash::Hasher>(&self, state: &mut H) {
        let b = self.encode().to_bytes();
        hash_bytes(b.as_slice(), state);
    }
}

/// A length-prefixed literal gives back its bytes: equal encodings come
/// from equal bytes.
proof fn lemma_encode_sized_injective(b1: Seq<u8>, b2: Seq<u8>, sep: u8)
    requires
        !is_digit(sep),
        encode_sized(b1, sep) == encode_sized(b2, sep),
    ensures
        b1 == b2,
{
    let d1 = decimal(b1.len());
    let d2 = decimal(b2.len());
    lemma_decimal(b1.len());
    lemma_decimal(b2.len());
    let r1 = seq![sep] + b1;
    let r2 = seq![sep] + b2;
    assert(encode_sized(b1, sep) =~= d1 + r1);
    assert(encode_sized(b2, sep) =~= d2 + r2);
    lemma_leading_digits_of(d1, r1);
    lemma_leading_digits_of(d2, r2);
    assert(d1 =~= (d1 + r1).take(d1.len() as int));
    assert(d2 =~= (d2 + r2).take(d2.len() as int));
    assert(d1 == d2);
    assert(b1.len() == b2.len());
    assert(b1 =~= (d1 + r1).skip(d1.len() as int + 1));
    assert(b2 =~= (d2 + r2).skip(d2.len() as int + 1));
}

/// The encoded key and value of a hint.
pub open spec fn hint_entry(p: Hint) -> Entry {
    (encode_sized(encode_utf8(p.0), 0x27), encode_sized(encode_utf8(p.1), 0x22))
}

/// The encoded entries of hints, in their order.
proof fn lemma_hint_entries(h: Seq<Hint>)
    ensures
        pair_encodings(hints_tree_pairs(h)) == h.map_values(|p: Hint| hint_entry(p)),
{
    let ps = hints_tree_pairs(h);
    lemma_pair_encodings(ps);
    assert(pair_encodings(ps) =~= h.map_values(|p: Hint| hint_entry(p)));
}

/// Hints with distinct keys have distinct encoded keys.
proof fn lemma_hint_entry_keys(h: Seq<Hint>)
    requires
        keys_distinct(h),
    ensures
        entry_keys_distinct(h.map_values(|p: Hint| hint_entry(p))),
{
    let es = h.map_values(|p: Hint| hint_entry(p));
    assert forall|i: int, j: int| 0 <= i < j < es.len() implies es[i].0 != es[j].0 by {
        if es[i].0 == es[j].0 {
            lemma_encode_sized_injective(encode_utf8(h[i].0), encode_utf8(h[j].0), 0x27);
            encode_utf8_decode_utf8(h[i].0);
            encode_utf8_decode_utf8(h[j].0);
        }
    }
}

/// Locators that differ only in the order of their hints encode alike,
/// so they are equal: hints are a map from distinct keys to values.
pub proof fn lemma_locator_bytes_ignore_hint_order(l1: SpecLocator, l2: SpecLocator)
    requires
        l1.designator == l2.designator,
        l1.transport == l2.transport,
        keys_distinct(l1.hints),
        keys_distinct(l2.hints),
        forall|e: Hint| l1.hints.contains(e) <==> l2.hints.contains(e),
    ensures
        locator_bytes(l1) == locator_bytes(l2),
{
    let h1 = l1.hints;
    let h2 = l2.hints;
    if h1.len() == 0 || h2.len() == 0 {
        if h1.len() > 0 {
            assert(h1.contains(h1[0]));
        }
        if h2.len() > 0 {
            assert(h2.contains(h2[0]));
        }
        assert(h1 =~= h2);
    } else {
        let e1 = h1.map_values(|p: Hint| hint_entry(p));
        let e2 = h2.map_values(|p: Hint| hint_entry(p));
        lemma_hint_entries(h1);
        lemma_hint_entries(h2);
        lemma_hint_entry_keys(h1);
        lemma_hint_entry_keys(h2);
        assert forall|x: Entry| e1.contains(x) <==> e2.contains(x) by {
            if e1.contains(x) {
                let i = choose|i: int| 0 <= i < e1.len() && e1[i] == x;
                assert(h1.contains(h1[i]));
                let j = choose|j: int| 0 <= j < h2.len() && h2[j] == h1[i];
                assert(e2[j] == x);
            }
            if e2.contains(x) {
                let i = choose|i: int| 0 <= i < e2.len() && e2[i] == x;
                assert(h2.contains(h2[i]));
                let j = choose|j: int| 0 <= j < h1.len() && h1[j] == h2[i];
                assert(e1[j] == x);
            }
        }
        lemma_sorted_entries_any_order(e1, e2);
        assert(hints_tree(h1) == SpecTree::Dictionary(hints_tree_pairs(h1)));
        assert(hints_tree(h2) == SpecTree::Dictionary(hints_tree_pairs(h2)));
        assert(encode_tree(hints_tree(h1)) == encode_tree(hints_tree(h2)));
        let f1 = seq![
            SpecTree::Literal(SpecLiteral::String(encode_utf8(l1.designator))),
            SpecTree::Literal(SpecLiteral::Symbol(encode_utf8(l1.transport))),
            hints_tree(h1),
        ];
        let f2 = seq![
            SpecTree::Literal(SpecLiteral::String(encode_utf8(l2.designator))),
            SpecTree::Literal(SpecLiteral::Symbol(encode_utf8(l2.transport))),
            hints_tree(h2),
        ];
        lemma_encodings(f1);
        lemma_encodings(f2);
        assert(encodings(f1) =~= encodings(f2));
    }
}

impl std::str::FromStr for NodeLocator {
    type Err = ParseUriError;

    fn from_str(s: &str) -> (res: Result<Self, Self::Err>)
        ensures
            match parsed_uri(s@) {
                None => res matches Err(ParseUriError::Uri),
                Some(p) => locator_result_view(res) == locator_spec(p),
            },
    {
        Self::parse(s)
    }
}

impl NodeLocator {
    /// The value of the hint with the key.
    pub fn hint(&self, key: &str) -> (res: Option<&String>)
        ensures
            match hint_lookup(self@.hints, key@) {
                Some(v) => res matches Some(r) && r@ == v,
                None => res is None,
            },
    {
        let k = key.to_owned();
        let ghost hv = self@.hints;
        let mut i: usize = 0;
        while i < self.hints.len()
            invariant
                i <= self.hints@.len(),
                k@ == key@,
                hv == hints_view(self.hints@),
                forall|j: int| 0 <= j < i ==> #[trigger] hv[j].0 != key@,
            decreases self.hints@.len() - i,
        {
            if self.hints[i].0 == k {
                proof {
                    lemma_hint_lookup(hv, key@, i as int);
                }
                return Some(&self.hints[i].1);
            }
            i = i + 1;
        }
        proof {
            lemma_hint_lookup(hv, key@, i as int);
        }
        None
    }

    /// The host as URI text: the encoded designator, `.`, the encoded
    /// transport.
    pub fn encoded_host(&self) -> (res: String)
        ensures
            res@ == reg_name_encoded(self.designator@) + "."@ + reg_name_encoded(self.transport@),
    {
        let mut out = encode_reg_name(self.designator.as_str());
        push_str(&mut out, ".");
        let t = encode_reg_name(self.transport.as_str());
        push_str(&mut out, t.as_str());
        out
    }

    /// The `userinfo` hint as URI text, if there is one.
    pub fn encoded_userinfo(&self) -> (res: Option<String>)
        ensures
            match hint_lookup(self@.hints, "userinfo"@) {
                Some(u) => res matches Some(r) && r@ == userinfo_encoded(u),
                None => res is None,
            },
    {
        match self.hint("userinfo") {
            Some(info) => Some(encode_userinfo(info.as_str())),
            None => None,
        }
    }

    /// The hints other than `port` and `userinfo` as a URI query, if there
    /// are any.
    pub fn encoded_query(&self) -> (res: Option<String>)
        ensures
            self@.hints.len() == 0 || query_text(self@.hints).len() == 0 ==> res is None,
            self@.hints.len() > 0 && query_text(self@.hints).len() > 0 ==> (res matches Some(q) && q@ == query_text(self@.hints)),
    {
        if self.hints.len() == 0 {
            return None;
        }
        let ghost hv = self@.hints;
        let port = "port".to_owned();
        let userinfo = "userinfo".to_owned();
        let mut query = String::new();
        let mut started = false;
        let mut i: usize = 0;
        proof {
            reveal_strlit("=");
        }
        while i < self.hints.len()
            invariant
                i <= self.hints@.len(),
                hv == hints_view(self.hints@),
                port@ == "port"@,
                userinfo@ == "userinfo"@,
                query@ == query_text(hv.take(i as int)),
                started == (query@.len() > 0),
                "="@.len() == 1,
            decreases self.hints@.len() - i,
        {
            proof {
                assert(hv.take(i + 1).drop_last() =~= hv.take(i as int));
            }
            let k = &self.hints[i].0;
            if !(*k == port) && !(*k == userinfo) {
                if started {
                    push_str(&mut query, "&");
                }
                let ke = encode_query(k.as_str());
                push_str(&mut query, ke.as_str());
                push_str(&mut query, "=");
                let ve = encode_query(self.hints[i].1.as_str());
                push_str(&mut query, ve.as_str());
                started = true;
            }
            i = i + 1;
        }
        proof {
            assert(hv.take(i as int) =~= hv);
        }
        if started {
            Some(query)
        } else {
            None
        }
    }
}

/// The query of hints, where they give a nonempty one.
pub open spec fn query_opt(h: Seq<Hint>) -> Option<Seq<char>> {
    if h.len() == 0 || query_text(h).len() == 0 {
        None
    } else {
        Some(query_text(h))
    }
}

/// An `ocapn` URI from encoded parts: `ocapn://`, the userinfo and `@` if
/// any, the host, `:` and the port if any, the path, then `?` and the query
/// if any.
pub open spec fn uri_text(
    userinfo: Option<Seq<char>>,
    host: Seq<char>,
    port: Option<Seq<char>>,
    path: Seq<char>,
    query: Option<Seq<char>>,
) -> Seq<char> {
    "ocapn://"@ + match userinfo {
        Some(u) => u + "@"@,
        None => Seq::empty(),
    } + host + match port {
        Some(p) => ":"@ + p,
        None => Seq::empty(),
    } + path + match query {
        Some(q) => "?"@ + q,
        None => Seq::empty(),
    }
}

/// The URI of a locator with an encoded path.
pub open spec fn locator_uri_text(l: SpecLocator, path: Seq<char>) -> Seq<char> {
    uri_text(
        match hint_lookup(l.hints, "userinfo"@) {
            Some(u) => Some(userinfo_encoded(u)),
            None => None,
        },
        reg_name_encoded(l.designator) + "."@ + reg_name_encoded(l.transport),
        hint_lookup(l.hints, "port"@),
        path,
        query_opt(l.hints),
    )
}

impl NodeLocator {
    /// Writes the locator's URI with an encoded path. The host is always
    /// written as a registered name, so that it carries the transport.
    pub(crate) fn build_uri(&self, path: &str) -> (res: String)
        ensures
            res@ == locator_uri_text(self@, path@),
    {
        let mut out = "ocapn://".to_owned();
        match self.encoded_userinfo() {
            Some(u) => {
                push_str(&mut out, u.as_str());
                push_str(&mut out, "@");
            },
            None => {},
        }
        let host = self.encoded_host();
        push_str(&mut out, host.as_str());
        match self.hint("port") {
            Some(p) => {
                push_str(&mut out, ":");
                push_str(&mut out, p.as_str());
            },
            None => {},
        }
        push_str(&mut out, path);
        match self.encoded_query() {
            Some(q) => {
                push_str(&mut out, "?");
                push_str(&mut out, q.as_str());
            },
            None => {},
        }
        out
    }

    /// The locator as an `ocapn` URI.
    pub fn to_uri_string(&self) -> (res: String)
        ensures
            res@ == locator_uri_text(self@, Seq::empty()),
    {
        proof {
            reveal_strlit("");
        }
        self.build_uri("")
    }
}

/// The tree of hints: `false` when there are none, else a dictionary from
/// each key as a symbol to its value as a string.
pub open spec fn hints_tree(h: Seq<Hint>) -> SpecTree {
    if h.len() == 0 {
        SpecTree::Literal(SpecLiteral::Bool(false))
    } else {
        SpecTree::Dictionary(h.map_values(|p: Hint| (
            SpecTree::Literal(SpecLiteral::Symbol(encode_utf8(p.0))),
            SpecTree::Literal(SpecLiteral::String(encode_utf8(p.1))),
        )))
    }
}

/// The tree of a locator: a record `ocapn-node` of the designator as a
/// string, the transport as a symbol, and the hints.
pub open spec fn locator_tree(l: SpecLocator) -> SpecTree {
    record_tree("ocapn-node"@, seq![
        SpecTree::Literal(SpecLiteral::String(encode_utf8(l.designator))),
        SpecTree::Literal(SpecLiteral::Symbol(encode_utf8(l.transport))),
        hints_tree(l.hints),
    ])
}

/// Decoding dictionary pairs as hints, each key as a symbol and each value
/// as a string, inserted in order; the first failure is the result.
pub open spec fn decode_hints(h: Seq<Hint>, ps: Seq<(SpecTree, SpecTree)>) -> Result<Seq<Hint>, DecodeError>
    decreases ps.len(),
{
    if ps.len() == 0 {
        Ok(h)
    } else {
        match symbol_spec(ps[0].0) {
            Err(e) => Err(e),
            Ok(k) => match <String as Decode>::decode_spec(ps[0].1) {
                Err(e) => Err(e),
                Ok(v) => decode_hints(hint_insert(h, k, v), ps.drop_first()),
            },
        }
    }
}

/// Decoding hints: `false` is none, a dictionary is decoded pair by pair.
pub open spec fn hints_spec(t: SpecTree) -> Result<Seq<Hint>, DecodeError> {
    match t {
        SpecTree::Literal(SpecLiteral::Bool(false)) => Ok(Seq::empty()),
        SpecTree::Dictionary(ps) => decode_hints(Seq::empty(), ps),
        _ => Err(DecodeError::Unexpected { expected: SyrupKind::Dictionary, found: tree_kind(t) }),
    }
}

/// Decoding a locator: a record `ocapn-node` whose fields are read in
/// order; the first failure, or the first missing field, is the result.
pub open spec fn locator_decode_spec(t: SpecTree) -> Result<SpecLocator, DecodeError> {
    match named_fields(t, "ocapn-node") {
        Err(e) => Err(e),
        Ok(f) => if f.len() < 1 {
            Err(DecodeError::Missing(SyrupKind::String))
        } else {
            match <String as Decode>::decode_spec(f[0]) {
                Err(e) => Err(e),
                Ok(designator) => if f.len() < 2 {
                    Err(DecodeError::Missing(SyrupKind::Symbol(None)))
                } else {
                    match symbol_spec(f[1]) {
                        Err(e) => Err(e),
                        Ok(transport) => if f.len() < 3 {
                            Err(DecodeError::Missing(SyrupKind::Dictionary))
                        } else {
                            match hints_spec(f[2]) {
                                Err(e) => Err(e),
                                Ok(hints) => Ok(SpecLocator { designator, transport, hints }),
                            }
                        },
                    }
                },
            }
        },
    }
}

/// The model of a decoded locator.
pub open spec fn locator_decode_view(r: Result<NodeLocator, DecodeError>) -> Result<SpecLocator, DecodeError> {
    match r {
        Ok(l) => Ok(l@),
        Err(e) => Err(e),
    }
}

proof fn lemma_decode_hints_step(h: Seq<Hint>, ps: Seq<(SpecTree, SpecTree)>, i: int, k: Seq<char>, v: Seq<char>)
    requires
        0 <= i < ps.len(),
        symbol_spec(ps[i].0) == Ok::<Seq<char>, DecodeError>(k),
        <String as Decode>::decode_spec(ps[i].1) == Ok::<Seq<char>, DecodeError>(v),
    ensures
        decode_hints(h, ps.skip(i)) == decode_hints(hint_insert(h, k, v), ps.skip(i + 1)),
{
    assert(ps.skip(i)[0] == ps[i]);
    assert(ps.skip(i).drop_first() =~= ps.skip(i + 1));
}

impl NodeLocator {
    /// The locator's tree.
    pub fn encode(&self) -> (res: TokenTree)
        ensures
            res@ == locator_tree(self@),
    {
        let mut fields: Vec<TokenTree> = Vec::new();
        fields.push(self.designator.encode());
        fields.push(symbol::encode(self.transport.as_str()));
        let ghost hv = self@.hints;
        let hints = if self.hints.len() == 0 {
            TokenTree::Literal(Literal::Bool(false))
        } else {
            let mut pairs: Vec<(TokenTree, TokenTree)> = Vec::new();
            let mut i: usize = 0;
            while i < self.hints.len()
                invariant
                    i <= self.hints@.len(),
                    hv == hints_view(self.hints@),
                    pairs@.len() == i,
                    forall|j: int| #![trigger pairs@[j]] 0 <= j < i ==> pairs@[j].0@ == SpecTree::Literal(SpecLiteral::Symbol(encode_utf8(hv[j].0)))
                        && pairs@[j].1@ == SpecTree::Literal(SpecLiteral::String(encode_utf8(hv[j].1))),
                decreases self.hints@.len() - i,
            {
                let k = symbol::encode(self.hints[i].0.as_str());
                let v = self.hints[i].1.encode();
                pairs.push((k, v));
                i = i + 1;
            }
            proof {
                lemma_pairs_view(pairs@);
                assert(pairs_view(pairs@) =~= hv.map_values(|p: Hint| (
                    SpecTree::Literal(SpecLiteral::Symbol(encode_utf8(p.0))),
                    SpecTree::Literal(SpecLiteral::String(encode_utf8(p.1))),
                )));
            }
            TokenTree::Dictionary(Dictionary::new(pairs))
        };
        fields.push(hints);
        proof {
            lemma_trees_view(fields@);
            assert(trees_view(fields@) =~= seq![
                SpecTree::Literal(SpecLiteral::String(encode_utf8(self@.designator))),
                SpecTree::Literal(SpecLiteral::Symbol(encode_utf8(self@.transport))),
                hints_tree(self@.hints),
            ]);
        }
        TokenTree::Record(Box::new(Record::new(symbol::encode("ocapn-node"), fields)))
    }

    /// Reads a locator from a tree.
    pub fn decode(input: &TokenTree) -> (res: Result<NodeLocator, DecodeError>)
        ensures
            locator_decode_view(res) == locator_decode_spec(input@),
    {
        let f = match input {
            TokenTree::Record(r) => {
                let matches = match &r.label {
                    TokenTree::Literal(Literal::Symbol(b)) => crate::de::lex::order::bytes_equal(b.as_slice(), "ocapn-node".as_bytes()),
                    _ => false,
                };
                if !matches {
                    return Err(DecodeError::unexpected(SyrupKind::Record { label: Some("ocapn-node") }, input));
                }
                &r.elements
            },
            _ => return Err(DecodeError::unexpected(SyrupKind::Record { label: Some("ocapn-node") }, input)),
        };
        proof {
            lemma_trees_view(f@);
        }
        if f.len() < 1 {
            return Err(DecodeError::Missing(SyrupKind::String));
        }
        let designator = match String::decode(&f[0]) {
            Ok(v) => v,
            Err(e) => return Err(e),
        };
        if f.len() < 2 {
            return Err(DecodeError::Missing(SyrupKind::Symbol(None)));
        }
        let transport = match symbol::decode(&f[1]) {
            Ok(v) => v,
            Err(e) => return Err(e),
        };
        if f.len() < 3 {
            return Err(DecodeError::Missing(SyrupKind::Dictionary));
        }
        let hints = match Self::decode_hints_tree(&f[2]) {
            Ok(h) => h,
            Err(e) => return Err(e),
        };
        Ok(NodeLocator { designator, transport, hints })
    }

    /// Reads hints from a tree.
    fn decode_hints_tree(t: &TokenTree) -> (res: Result<Vec<(String, String)>, DecodeError>)
        ensures
            match res {
                Ok(h) => hints_spec(t@) == Ok::<Seq<Hint>, DecodeError>(hints_view(h@)),
                Err(e) => hints_spec(t@) == Err::<Seq<Hint>, DecodeError>(e),
            },
    {
        let mut hints: Vec<(String, String)> = Vec::new();
        proof {
            assert(hints_view(hints@) =~= Seq::<Hint>::empty());
        }
        match t {
            TokenTree::Literal(Literal::Bool(false)) => Ok(hints),
            TokenTree::Dictionary(d) => {
                let n = d.len();
                let mut i: usize = 0;
                let ghost ps = d@;
                proof {
                    assert(ps.skip(0) =~= ps);
                }
                while i < n
                    invariant
                        n == ps.len(),
                        i <= n,
                        t@ == SpecTree::Dictionary(ps),
                        ps == d@,
                        decode_hints(Seq::<Hint>::empty(), ps) == decode_hints(hints_view(hints@), ps.skip(i as int)),
                    decreases n - i,
                {
                    let (k, v) = d.pair(i);
                    let kd = match symbol::decode(k) {
                        Ok(x) => x,
                        Err(e) => {
                            proof {
                                assert(ps.skip(i as int)[0] == ps[i as int]);
                            }
                            return Err(e);
                        },
                    };
                    let vd = match String::decode(v) {
                        Ok(x) => x,
                        Err(e) => {
                            proof {
                                assert(ps.skip(i as int)[0] == ps[i as int]);
                            }
                            return Err(e);
                        },
                    };
                    proof {
                        lemma_decode_hints_step(hints_view(hints@), ps, i as int, kd@, vd@);
                    }
                    insert_hint(&mut hints, kd, vd);
                    i = i + 1;
                }
                proof {
                    assert(ps.skip(i as int) =~= Seq::<(SpecTree, SpecTree)>::empty());
                }
                Ok(hints)
            },
            _ => Err(DecodeError::unexpected(SyrupKind::Dictionary, t)),
        }
    }
}

/// Each hint key occurs once.
pub open spec fn keys_distinct(h: Seq<Hint>) -> bool {
    forall|i: int, j: int| 0 <= i < j < h.len() ==> h[i].0 != h[j].0
}

proof fn lemma_decode_hints_rest(h: Seq<Hint>, i: int)
    requires
        keys_distinct(h),
        0 <= i <= h.len(),
    ensures
        decode_hints(h.take(i), hints_tree_pairs(h).skip(i)) == Ok::<Seq<Hint>, DecodeError>(h),
    decreases h.len() - i,
{
    let ps = hints_tree_pairs(h);
    if i == h.len() {
        assert(h.take(i) =~= h);
        assert(ps.skip(i) =~= Seq::<(SpecTree, SpecTree)>::empty());
    } else {
        let k = h[i].0;
        let v = h[i].1;
        encode_utf8_valid_utf8(k);
        encode_utf8_decode_utf8(k);
        encode_utf8_valid_utf8(v);
        encode_utf8_decode_utf8(v);
        assert(ps.skip(i)[0] == ps[i]);
        assert(ps.skip(i).drop_first() =~= ps.skip(i + 1));
        assert forall|j: int| 0 <= j < i implies h.take(i)[j].0 != k by {
            assert(h.take(i)[j] == h[j]);
        }
        lemma_hint_insert(h.take(i), k, v, i);
        assert(h.take(i).push((k, v)) =~= h.take(i + 1));
        lemma_decode_hints_rest(h, i + 1);
    }
}

/// The dictionary pairs of hints.
pub open spec fn hints_tree_pairs(h: Seq<Hint>) -> Seq<(SpecTree, SpecTree)> {
    h.map_values(|p: Hint| (
        SpecTree::Literal(SpecLiteral::Symbol(encode_utf8(p.0))),
        SpecTree::Literal(SpecLiteral::String(encode_utf8(p.1))),
    ))
}

/// A locator whose hint keys are distinct reads back from its tree.
pub proof fn lemma_locator_roundtrip(l: SpecLocator)
    requires
        keys_distinct(l.hints),
    ensures
        locator_decode_spec(locator_tree(l)) == Ok::<SpecLocator, DecodeError>(l),
{
    encode_utf8_valid_utf8(l.designator);
    encode_utf8_decode_utf8(l.designator);
    encode_utf8_valid_utf8(l.transport);
    encode_utf8_decode_utf8(l.transport);
    if l.hints.len() == 0 {
        assert(l.hints =~= Seq::<Hint>::empty());
    } else {
        assert(hints_tree(l.hints) == SpecTree::Dictionary(hints_tree_pairs(l.hints)));
        lemma_decode_hints_rest(l.hints, 0);
        assert(l.hints.take(0) =~= Seq::<Hint>::empty());
        assert(hints_tree_pairs(l.hints).skip(0) =~= hints_tree_pairs(l.hints));
    }
}

} // verus!
