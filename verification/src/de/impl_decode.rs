//! Decoding values from token trees and from bytes.

use vstd::prelude::*;

use crate::de::error::{DecodeBytesError, DecodeError, IntDescription, IsSigned, SyrupKind};
use crate::de::lex::collection::{
    lemma_tree_view, lemma_trees_view, tree_kind, tree_spec, Dictionary, List, Record, SpecTree, TokenSet,
    TokenTree,
};
use crate::de::lex::integer::{to_signed_spec, to_unsigned_spec};
use crate::de::lex::literal::{res_view, Literal, SpecLiteral};
use vstd::utf8::{decode_utf8, valid_utf8};

verus! {

broadcast use lemma_tree_view;

/// A value that a token tree can decode to.
pub trait Decode: Sized + DeepView {
    /// What `decode` gives for a tree.
    spec fn decode_spec(t: SpecTree) -> Result<<Self as DeepView>::V, DecodeError>;

    fn decode(input: &TokenTree) -> (res: Result<Self, DecodeError>)
        ensures
            decode_view(res) == Self::decode_spec(input@),
    ;
}

/// The model of a decoding result.
pub open spec fn decode_view<T: DeepView>(r: Result<T, DecodeError>) -> Result<T::V, DecodeError> {
    match r {
        Ok(v) => Ok(v.deep_view()),
        Err(e) => Err(e),
    }
}

/// A value that bytes can decode to: the bytes lex to a tree, which decodes.
pub trait DecodeFromBytes: Sized + DeepView {
    /// What `decode_bytes` gives for some bytes.
    spec fn decode_bytes_spec(s: Seq<u8>) -> Result<(Seq<u8>, <Self as DeepView>::V), DecodeBytesError>;

    /// Decodes the input bytes into the unconsumed input and a value.
    fn decode_bytes<'i>(input: &'i [u8]) -> (res: Result<(&'i [u8], Self), DecodeBytesError>)
        ensures
            match res {
                Ok((r, v)) => Self::decode_bytes_spec(input@) == Ok::<(Seq<u8>, <Self as DeepView>::V), DecodeBytesError>((r@, v.deep_view())),
                Err(e) => Self::decode_bytes_spec(input@) == Err::<(Seq<u8>, <Self as DeepView>::V), DecodeBytesError>(e),
            },
    ;
}

/// Lexing a tree, then decoding it.
pub open spec fn decode_bytes_of<T: Decode>(s: Seq<u8>) -> Result<(Seq<u8>, <T as DeepView>::V), DecodeBytesError> {
    match tree_spec(s) {
        Err(e) => Err(DecodeBytesError::Lex(e)),
        Ok((r, t)) => match T::decode_spec(t) {
            Ok(v) => Ok((r, v)),
            Err(e) => Err(DecodeBytesError::Decode(e)),
        },
    }
}

impl<T: Decode> DecodeFromBytes for T {
    open spec fn decode_bytes_spec(s: Seq<u8>) -> Result<(Seq<u8>, <T as DeepView>::V), DecodeBytesError> {
        decode_bytes_of::<T>(s)
    }

    fn decode_bytes<'i>(input: &'i [u8]) -> (res: Result<(&'i [u8], T), DecodeBytesError>) {
        let (rem, tree) = match TokenTree::parse(input) {
            Ok(x) => x,
            Err(e) => return Err(DecodeBytesError::Lex(e)),
        };
        match T::decode(&tree) {
            Ok(v) => Ok((rem, v)),
            Err(e) => Err(DecodeBytesError::Decode(e)),
        }
    }
}

impl Decode for bool {
    open spec fn decode_spec(t: SpecTree) -> Result<bool, DecodeError> {
        match t {
            SpecTree::Literal(SpecLiteral::Bool(b)) => Ok(b),
            _ => Err(DecodeError::Unexpected { expected: SyrupKind::Bool, found: tree_kind(t) }),
        }
    }

    fn decode(input: &TokenTree) -> (res: Result<bool, DecodeError>) {
        match input {
            TokenTree::Literal(Literal::Bool(b)) => Ok(*b),
            _ => Err(DecodeError::unexpected(SyrupKind::Bool, input)),
        }
    }
}

/// Decoding an integer literal to an unsigned type with largest value `max`
/// and description `desc`.
pub open spec fn unsigned_spec(t: SpecTree, max: nat, desc: IntDescription) -> Result<nat, DecodeError> {
    match t {
        SpecTree::Literal(SpecLiteral::Int(i)) => match to_unsigned_spec(i, max) {
            Ok(v) => Ok(v),
            Err(k) => Err(DecodeError::ParseInt(desc, k)),
        },
        _ => Err(DecodeError::Unexpected { expected: SyrupKind::Int { desc: Some(desc) }, found: tree_kind(t) }),
    }
}

/// Decoding an integer literal to a signed type, as `to_signed_spec` reads
/// it, with description `desc`.
pub open spec fn signed_spec(t: SpecTree, umax: nat, max_pos: nat, max_neg: nat, desc: IntDescription) -> Result<int, DecodeError> {
    match t {
        SpecTree::Literal(SpecLiteral::Int(i)) => match to_signed_spec(i, umax, max_pos, max_neg) {
            Ok(v) => Ok(v),
            Err(k) => Err(DecodeError::ParseInt(desc, k)),
        },
        _ => Err(DecodeError::Unexpected { expected: SyrupKind::Int { desc: Some(desc) }, found: tree_kind(t) }),
    }
}

/// The description of the integer type `I`.
pub open spec fn desc_of<I: IsSigned>() -> IntDescription {
    IntDescription { signed: I::is_signed(), width: I::byte_width() as usize }
}

fn decode_unsigned<I: IsSigned>(input: &TokenTree, max: u128) -> (res: Result<u128, DecodeError>)
    requires
        I::byte_width() <= usize::MAX,
    ensures
        match unsigned_spec(input@, max as nat, desc_of::<I>()) {
            Ok(v) => res == Ok::<u128, DecodeError>(v as u128),
            Err(e) => res == Err::<u128, DecodeError>(e),
        },
{
    match input {
        TokenTree::Literal(Literal::Int(i)) => match i.to_unsigned(max) {
            Ok(v) => Ok(v),
            Err(e) => Err(DecodeError::int_error::<I>(e.kind)),
        },
        _ => Err(DecodeError::unexpected(SyrupKind::int_kind::<I>(), input)),
    }
}

fn decode_signed<I: IsSigned>(input: &TokenTree, umax: u128, max_pos: u128, max_neg: u128) -> (res: Result<i128, DecodeError>)
    requires
        I::byte_width() <= usize::MAX,
        max_pos <= i128::MAX,
        max_neg <= i128::MAX + 1,
    ensures
        match signed_spec(input@, umax as nat, max_pos as nat, max_neg as nat, desc_of::<I>()) {
            Ok(v) => res == Ok::<i128, DecodeError>(v as i128),
            Err(e) => res == Err::<i128, DecodeError>(e),
        },
{
    match input {
        TokenTree::Literal(Literal::Int(i)) => match i.to_signed(umax, max_pos, max_neg) {
            Ok(v) => Ok(v),
            Err(e) => Err(DecodeError::int_error::<I>(e.kind)),
        },
        _ => Err(DecodeError::unexpected(SyrupKind::int_kind::<I>(), input)),
    }
}

impl Decode for u8 {
    open spec fn decode_spec(t: SpecTree) -> Result<u8, DecodeError> {
        match unsigned_spec(t, 255 as nat, IntDescription { signed: false, width: 1 }) {
            Ok(v) => Ok(v as u8),
            Err(e) => Err(e),
        }
    }

    fn decode(input: &TokenTree) -> (res: Result<u8, DecodeError>) {
        match decode_unsigned::<u8>(input, 255u128) {
            Ok(v) => Ok(v as u8),
            Err(e) => Err(e),
        }
    }
}

impl Decode for u16 {
    open spec fn decode_spec(t: SpecTree) -> Result<u16, DecodeError> {
        match unsigned_spec(t, 0xffff as nat, IntDescription { signed: false, width: 2 }) {
            Ok(v) => Ok(v as u16),
            Err(e) => Err(e),
        }
    }

    fn decode(input: &TokenTree) -> (res: Result<u16, DecodeError>) {
        match decode_unsigned::<u16>(input, 0xffffu128) {
            Ok(v) => Ok(v as u16),
            Err(e) => Err(e),
        }
    }
}

impl Decode for u32 {
    open spec fn decode_spec(t: SpecTree) -> Result<u32, DecodeError> {
        match unsigned_spec(t, 0xffff_ffff as nat, IntDescription { signed: false, width: 4 }) {
            Ok(v) => Ok(v as u32),
            Err(e) => Err(e),
        }
    }

    fn decode(input: &TokenTree) -> (res: Result<u32, DecodeError>) {
        match decode_unsigned::<u32>(input, 0xffff_ffffu128) {
            Ok(v) => Ok(v as u32),
            Err(e) => Err(e),
        }
    }
}

impl Decode for u64 {
    open spec fn decode_spec(t: SpecTree) -> Result<u64, DecodeError> {
        match unsigned_spec(t, 0xffff_ffff_ffff_ffff as nat, IntDescription { signed: false, width: 8 }) {
            Ok(v) => Ok(v as u64),
            Err(e) => Err(e),
        }
    }

    fn decode(input: &TokenTree) -> (res: Result<u64, DecodeError>) {
        match decode_unsigned::<u64>(input, 0xffff_ffff_ffff_ffffu128) {
            Ok(v) => Ok(v as u64),
            Err(e) => Err(e),
        }
    }
}

impl Decode for u128 {
    open spec fn decode_spec(t: SpecTree) -> Result<u128, DecodeError> {
        match unsigned_spec(t, 0xffff_ffff_ffff_ffff_ffff_ffff_ffff_ffff as nat, IntDescription { signed: false, width: 16 }) {
            Ok(v) => Ok(v as u128),
            Err(e) => Err(e),
        }
    }

    fn decode(input: &TokenTree) -> (res: Result<u128, DecodeError>) {
        match decode_unsigned::<u128>(input, 0xffff_ffff_ffff_ffff_ffff_ffff_ffff_ffffu128) {
            Ok(v) => Ok(v as u128),
            Err(e) => Err(e),
        }
    }
}

impl Decode for usize {
    open spec fn decode_spec(t: SpecTree) -> Result<usize, DecodeError> {
        match unsigned_spec(t, usize::MAX as nat, IntDescription { signed: false, width: (usize::BITS / 8) as usize }) {
            Ok(v) => Ok(v as usize),
            Err(e) => Err(e),
        }
    }

    fn decode(input: &TokenTree) -> (res: Result<usize, DecodeError>) {
        match decode_unsigned::<usize>(input, usize::MAX as u128) {
            Ok(v) => Ok(v as usize),
            Err(e) => Err(e),
        }
    }
}

impl Decode for i8 {
    open spec fn decode_spec(t: SpecTree) -> Result<i8, DecodeError> {
        match signed_spec(t, 0xff as nat, 0x7f as nat, 0x80 as nat, IntDescription { signed: true, width: 1 }) {
            Ok(v) => Ok(v as i8),
            Err(e) => Err(e),
        }
    }

    fn decode(input: &TokenTree) -> (res: Result<i8, DecodeError>) {
        match decode_signed::<i8>(input, 0xffu128, 0x7fu128, 0x80u128) {
            Ok(v) => Ok(v as i8),
            Err(e) => Err(e),
        }
    }
}

impl Decode for i16 {
    open spec fn decode_spec(t: SpecTree) -> Result<i16, DecodeError> {
        match signed_spec(t, 0xffff as nat, 0x7fff as nat, 0x8000 as nat, IntDescription { signed: true, width: 2 }) {
            Ok(v) => Ok(v as i16),
            Err(e) => Err(e),
        }
    }

    fn decode(input: &TokenTree) -> (res: Result<i16, DecodeError>) {
        match decode_signed::<i16>(input, 0xffffu128, 0x7fffu128, 0x8000u128) {
            Ok(v) => Ok(v as i16),
            Err(e) => Err(e),
        }
    }
}

impl Decode for i32 {
    open spec fn decode_spec(t: SpecTree) -> Result<i32, DecodeError> {
        match signed_spec(t, 0xffff_ffff as nat, 0x7fff_ffff as nat, 0x8000_0000 as nat, IntDescription { signed: true, width: 4 }) {
            Ok(v) => Ok(v as i32),
            Err(e) => Err(e),
        }
    }

    fn decode(input: &TokenTree) -> (res: Result<i32, DecodeError>) {
        match decode_signed::<i32>(input, 0xffff_ffffu128, 0x7fff_ffffu128, 0x8000_0000u128) {
            Ok(v) => Ok(v as i32),
            Err(e) => Err(e),
        }
    }
}

impl Decode for i64 {
    open spec fn decode_spec(t: SpecTree) -> Result<i64, DecodeError> {
        match signed_spec(t, 0xffff_ffff_ffff_ffff as nat, 0x7fff_ffff_ffff_ffff as nat, 0x8000_0000_0000_0000 as nat, IntDescription { signed: true, width: 8 }) {
            Ok(v) => Ok(v as i64),
            Err(e) => Err(e),
        }
    }

    fn decode(input: &TokenTree) -> (res: Result<i64, DecodeError>) {
        match decode_signed::<i64>(input, 0xffff_ffff_ffff_ffffu128, 0x7fff_ffff_ffff_ffffu128, 0x8000_0000_0000_0000u128) {
            Ok(v) => Ok(v as i64),
            Err(e) => Err(e),
        }
    }
}

impl Decode for i128 {
    open spec fn decode_spec(t: SpecTree) -> Result<i128, DecodeError> {
        match signed_spec(t, 0xffff_ffff_ffff_ffff_ffff_ffff_ffff_ffff as nat, 0x7fff_ffff_ffff_ffff_ffff_ffff_ffff_ffff as nat, 0x8000_0000_0000_0000_0000_0000_0000_0000 as nat, IntDescription { signed: true, width: 16 }) {
            Ok(v) => Ok(v as i128),
            Err(e) => Err(e),
        }
    }

    fn decode(input: &TokenTree) -> (res: Result<i128, DecodeError>) {
        match decode_signed::<i128>(input, 0xffff_ffff_ffff_ffff_ffff_ffff_ffff_ffffu128, 0x7fff_ffff_ffff_ffff_ffff_ffff_ffff_ffffu128, 0x8000_0000_0000_0000_0000_0000_0000_0000u128) {
            Ok(v) => Ok(v as i128),
            Err(e) => Err(e),
        }
    }
}

impl Decode for isize {
    open spec fn decode_spec(t: SpecTree) -> Result<isize, DecodeError> {
        match signed_spec(t, usize::MAX as nat, isize::MAX as nat, (isize::MAX + 1) as nat, IntDescription { signed: true, width: (usize::BITS / 8) as usize }) {
            Ok(v) => Ok(v as isize),
            Err(e) => Err(e),
        }
    }

    fn decode(input: &TokenTree) -> (res: Result<isize, DecodeError>) {
        match decode_signed::<isize>(input, usize::MAX as u128, isize::MAX as u128, (isize::MAX as u128) + 1) {
            Ok(v) => Ok(v as isize),
            Err(e) => Err(e),
        }
    }
}
/// `std::str::from_utf8`: the bytes as a string slice, exactly when they are
/// valid UTF-8; the slice holds the characters the bytes encode.
#[verifier::external_body]
pub(crate) fn str_from_utf8(v: &[u8]) -> (res: Option<&str>)
    ensures
        res is Some <==> valid_utf8(v@),
        res matches Some(s) ==> s@ == decode_utf8(v@),
{
    std::str::from_utf8(v).ok()
}

/// Decoding a string literal's bytes as UTF-8.
pub open spec fn utf8_spec(b: Seq<u8>) -> Result<Seq<char>, DecodeError> {
    if valid_utf8(b) {
        Ok(decode_utf8(b))
    } else {
        Err(DecodeError::InvalidUtf8)
    }
}

impl Decode for String {
    open spec fn decode_spec(t: SpecTree) -> Result<Seq<char>, DecodeError> {
        match t {
            SpecTree::Literal(SpecLiteral::String(b)) => utf8_spec(b),
            _ => Err(DecodeError::Unexpected { expected: SyrupKind::String, found: tree_kind(t) }),
        }
    }

    fn decode(input: &TokenTree) -> (res: Result<String, DecodeError>) {
        match input {
            TokenTree::Literal(Literal::String(b)) => match str_from_utf8(b.as_slice()) {
                Some(s) => Ok(s.to_owned()),
                None => Err(DecodeError::InvalidUtf8),
            },
            _ => Err(DecodeError::unexpected(SyrupKind::String, input)),
        }
    }
}

impl Decode for () {
    open spec fn decode_spec(t: SpecTree) -> Result<(), DecodeError> {
        match t {
            SpecTree::List(es) => if es.len() == 0 {
                Ok(())
            } else {
                Err(DecodeError::Unexpected { expected: SyrupKind::List { length: Some(0) }, found: tree_kind(t) })
            },
            _ => Err(DecodeError::Unexpected { expected: SyrupKind::List { length: Some(0) }, found: tree_kind(t) }),
        }
    }

    fn decode(input: &TokenTree) -> (res: Result<(), DecodeError>) {
        match input {
            TokenTree::List(list) => {
                proof {
                    lemma_trees_view(list.elements@);
                }
                if list.elements.len() == 0 {
                    Ok(())
                } else {
                    Err(DecodeError::unexpected(SyrupKind::List { length: Some(0) }, input))
                }
            },
            _ => Err(DecodeError::unexpected(SyrupKind::List { length: Some(0) }, input)),
        }
    }
}

impl<T: Decode> Decode for Option<T> {
    /// `f` decodes to `None`; anything else decodes as `T`.
    open spec fn decode_spec(t: SpecTree) -> Result<Option<<T as DeepView>::V>, DecodeError> {
        match t {
            SpecTree::Literal(SpecLiteral::Bool(false)) => Ok(None),
            _ => match T::decode_spec(t) {
                Ok(v) => Ok(Some(v)),
                Err(e) => Err(e),
            },
        }
    }

    fn decode(input: &TokenTree) -> (res: Result<Option<T>, DecodeError>) {
        match input {
            TokenTree::Literal(Literal::Bool(false)) => Ok(None),
            _ => match T::decode(input) {
                Ok(v) => Ok(Some(v)),
                Err(e) => Err(e),
            },
        }
    }
}

/// Decoding each tree of a sequence in order; the first failure is the
/// result.
pub open spec fn decode_all<T: Decode>(es: Seq<SpecTree>) -> Result<Seq<<T as DeepView>::V>, DecodeError>
    decreases es.len(),
{
    if es.len() == 0 {
        Ok(Seq::empty())
    } else {
        match T::decode_spec(es[0]) {
            Err(e) => Err(e),
            Ok(v) => match decode_all::<T>(es.drop_first()) {
                Ok(vs) => Ok(seq![v] + vs),
                Err(e) => Err(e),
            },
        }
    }
}

proof fn lemma_decode_all_step<T: Decode>(es: Seq<SpecTree>, i: int, done: Seq<<T as DeepView>::V>, v: <T as DeepView>::V)
    requires
        0 <= i < es.len(),
        T::decode_spec(es[i]) == Ok::<<T as DeepView>::V, DecodeError>(v),
    ensures
        prefix_then::<T>(done, decode_all::<T>(es.skip(i))) == prefix_then::<T>(done.push(v), decode_all::<T>(es.skip(i + 1))),
{
    assert(es.skip(i).drop_first() =~= es.skip(i + 1));
    assert(es.skip(i)[0] == es[i]);
    match decode_all::<T>(es.skip(i + 1)) {
        Ok(vs) => {
            assert(done + (seq![v] + vs) =~= done.push(v) + vs);
        },
        Err(_) => {},
    }
}

/// Values decoded so far, put in front of the rest's result.
pub open spec fn prefix_then<T: Decode>(done: Seq<<T as DeepView>::V>, r: Result<Seq<<T as DeepView>::V>, DecodeError>) -> Result<Seq<<T as DeepView>::V>, DecodeError> {
    match r {
        Ok(vs) => Ok(done + vs),
        Err(e) => Err(e),
    }
}

impl<T: Decode> Decode for Vec<T> {
    /// A list decodes element by element; the first failure is the result.
    open spec fn decode_spec(t: SpecTree) -> Result<Seq<<T as DeepView>::V>, DecodeError> {
        match t {
            SpecTree::List(es) => decode_all::<T>(es),
            _ => Err(DecodeError::Unexpected { expected: SyrupKind::List { length: None }, found: tree_kind(t) }),
        }
    }

    fn decode(input: &TokenTree) -> (res: Result<Vec<T>, DecodeError>) {
        match input {
            TokenTree::List(list) => {
                let ghost es = list@;
                proof {
                    lemma_trees_view(list.elements@);
                    assert(es.skip(0) =~= es);
                }
                let mut res: Vec<T> = Vec::new();
                let mut i: usize = 0;
                while i < list.elements.len()
                    invariant
                        i <= list.elements@.len(),
                        es == list@,
                        input@ == SpecTree::List(es),
                        es.len() == list.elements@.len(),
                        forall|j: int| 0 <= j < es.len() ==> #[trigger] es[j] == list.elements@[j]@,
                        decode_all::<T>(es) == prefix_then::<T>(res.deep_view(), decode_all::<T>(es.skip(i as int))),
                    decreases list.elements@.len() - i,
                {
                    match T::decode(&list.elements[i]) {
                        Ok(v) => {
                            proof {
                                lemma_decode_all_step::<T>(es, i as int, res.deep_view(), v.deep_view());
                            }
                            let ghost before = res.deep_view();
                            res.push(v);
                            proof {
                                assert(res.deep_view() =~= before.push(v.deep_view()));
                            }
                        },
                        Err(e) => {
                            proof {
                                assert(es.skip(i as int)[0] == es[i as int]);
                                assert(T::decode_spec(es[i as int]) == Err::<<T as DeepView>::V, DecodeError>(e));
                                assert(decode_all::<T>(es.skip(i as int)) == Err::<Seq<<T as DeepView>::V>, DecodeError>(e));
                            }
                            return Err(e);
                        },
                    }
                    i = i + 1;
                }
                proof {
                    assert(es.skip(i as int) =~= Seq::<SpecTree>::empty());
                    assert(res.deep_view() + Seq::<<T as DeepView>::V>::empty() =~= res.deep_view());
                }
                Ok(res)
            },
            _ => Err(DecodeError::unexpected(SyrupKind::List { length: None }, input)),
        }
    }
}

impl<T: Decode> Decode for Box<T> {
    /// A boxed value decodes as the value.
    open spec fn decode_spec(t: SpecTree) -> Result<<T as DeepView>::V, DecodeError> {
        T::decode_spec(t)
    }

    fn decode(input: &TokenTree) -> (res: Result<Box<T>, DecodeError>) {
        match T::decode(input) {
            Ok(v) => Ok(Box::new(v)),
            Err(e) => Err(e),
        }
    }
}

impl<T: Decode> Decode for std::rc::Rc<T> {
    /// A shared value decodes as the value.
    open spec fn decode_spec(t: SpecTree) -> Result<<T as DeepView>::V, DecodeError> {
        T::decode_spec(t)
    }

    fn decode(input: &TokenTree) -> (res: Result<std::rc::Rc<T>, DecodeError>) {
        match T::decode(input) {
            Ok(v) => Ok(std::rc::Rc::new(v)),
            Err(e) => Err(e),
        }
    }
}

impl<T: Decode> Decode for std::sync::Arc<T> {
    /// A shared value decodes as the value.
    open spec fn decode_spec(t: SpecTree) -> Result<<T as DeepView>::V, DecodeError> {
        T::decode_spec(t)
    }

    fn decode(input: &TokenTree) -> (res: Result<std::sync::Arc<T>, DecodeError>) {
        match T::decode(input) {
            Ok(v) => Ok(std::sync::Arc::new(v)),
            Err(e) => Err(e),
        }
    }
}

impl Decode for List {
    /// A list tree decodes to its elements.
    open spec fn decode_spec(t: SpecTree) -> Result<Seq<SpecTree>, DecodeError> {
        match t {
            SpecTree::List(es) => Ok(es),
            _ => Err(DecodeError::Unexpected { expected: SyrupKind::List { length: None }, found: tree_kind(t) }),
        }
    }

    fn decode(input: &TokenTree) -> (res: Result<List, DecodeError>) {
        match input.deep_clone() {
            TokenTree::List(l) => Ok(l),
            _ => Err(DecodeError::unexpected(SyrupKind::List { length: None }, input)),
        }
    }
}

impl Decode for Record {
    /// A record tree decodes to its label and elements.
    open spec fn decode_spec(t: SpecTree) -> Result<(SpecTree, Seq<SpecTree>), DecodeError> {
        match t {
            SpecTree::Record(label, es) => Ok((*label, es)),
            _ => Err(DecodeError::Unexpected { expected: SyrupKind::Record { label: None }, found: tree_kind(t) }),
        }
    }

    fn decode(input: &TokenTree) -> (res: Result<Record, DecodeError>) {
        match input.deep_clone() {
            TokenTree::Record(r) => Ok(*r),
            _ => Err(DecodeError::unexpected(SyrupKind::Record { label: None }, input)),
        }
    }
}

impl Decode for TokenSet {
    /// A set tree decodes to its entries.
    open spec fn decode_spec(t: SpecTree) -> Result<Seq<SpecTree>, DecodeError> {
        match t {
            SpecTree::SetOf(es) => Ok(es),
            _ => Err(DecodeError::Unexpected { expected: SyrupKind::SetOf, found: tree_kind(t) }),
        }
    }

    fn decode(input: &TokenTree) -> (res: Result<TokenSet, DecodeError>) {
        match input.deep_clone() {
            TokenTree::SetOf(s) => Ok(s),
            _ => Err(DecodeError::unexpected(SyrupKind::SetOf, input)),
        }
    }
}

impl Decode for Dictionary {
    /// A dictionary tree decodes to its pairs.
    open spec fn decode_spec(t: SpecTree) -> Result<Seq<(SpecTree, SpecTree)>, DecodeError> {
        match t {
            SpecTree::Dictionary(ps) => Ok(ps),
            _ => Err(DecodeError::Unexpected { expected: SyrupKind::Dictionary, found: tree_kind(t) }),
        }
    }

    fn decode(input: &TokenTree) -> (res: Result<Dictionary, DecodeError>) {
        match input.deep_clone() {
            TokenTree::Dictionary(d) => Ok(d),
            _ => Err(DecodeError::unexpected(SyrupKind::Dictionary, input)),
        }
    }
}

impl Decode for Literal {
    /// A literal tree decodes to its literal.
    open spec fn decode_spec(t: SpecTree) -> Result<SpecLiteral, DecodeError> {
        match t {
            SpecTree::Literal(l) => Ok(l),
            _ => Err(DecodeError::Unexpected { expected: SyrupKind::Unknown("Literal"), found: tree_kind(t) }),
        }
    }

    fn decode(input: &TokenTree) -> (res: Result<Literal, DecodeError>) {
        match input.deep_clone() {
            TokenTree::Literal(l) => Ok(l),
            _ => Err(DecodeError::unexpected(SyrupKind::Unknown("Literal"), input)),
        }
    }
}

impl Decode for TokenTree {
    /// Any tree decodes to itself.
    open spec fn decode_spec(t: SpecTree) -> Result<SpecTree, DecodeError> {
        Ok(t)
    }

    fn decode(input: &TokenTree) -> (res: Result<TokenTree, DecodeError>) {
        Ok(input.deep_clone())
    }
}

/// Decoding each pair of a dictionary in order, its key then its value;
/// the first failure is the result.
pub open spec fn decode_pairs<K: Decode, V: Decode>(ps: Seq<(SpecTree, SpecTree)>) -> Result<Seq<(<K as DeepView>::V, <V as DeepView>::V)>, DecodeError>
    decreases ps.len(),
{
    if ps.len() == 0 {
        Ok(Seq::empty())
    } else {
        match K::decode_spec(ps[0].0) {
            Err(e) => Err(e),
            Ok(k) => match V::decode_spec(ps[0].1) {
                Err(e) => Err(e),
                Ok(v) => match decode_pairs::<K, V>(ps.drop_first()) {
                    Ok(rest) => Ok(seq![(k, v)] + rest),
                    Err(e) => Err(e),
                },
            },
        }
    }
}

/// What decoding a dictionary's pairs gives.
pub open spec fn dictionary_pairs_spec<K: Decode, V: Decode>(t: SpecTree) -> Result<Seq<(<K as DeepView>::V, <V as DeepView>::V)>, DecodeError> {
    match t {
        SpecTree::Dictionary(ps) => decode_pairs::<K, V>(ps),
        _ => Err(DecodeError::Unexpected { expected: SyrupKind::Dictionary, found: tree_kind(t) }),
    }
}

/// What decoding a set's elements gives.
pub open spec fn set_elements_spec<T: Decode>(t: SpecTree) -> Result<Seq<<T as DeepView>::V>, DecodeError> {
    match t {
        SpecTree::SetOf(es) => decode_all::<T>(es),
        _ => Err(DecodeError::Unexpected { expected: SyrupKind::SetOf, found: tree_kind(t) }),
    }
}

/// Decodes the elements of a set, in order.
pub fn set_elements<T: Decode>(input: &TokenTree) -> (res: Result<Vec<T>, DecodeError>)
    ensures
        decode_view(res) == set_elements_spec::<T>(input@),
{
    match input {
        TokenTree::SetOf(set) => {
            let ghost es = set@;
            proof {
                assert(es.skip(0) =~= es);
            }
            let mut res: Vec<T> = Vec::new();
            let mut i: usize = 0;
            let n = set.len();
            while i < n
                invariant
                    i <= n,
                    n == es.len(),
                    es == set@,
                    input@ == SpecTree::SetOf(es),
                    decode_all::<T>(es) == prefix_then::<T>(res.deep_view(), decode_all::<T>(es.skip(i as int))),
                decreases n - i,
            {
                match T::decode(set.get(i)) {
                    Ok(v) => {
                        proof {
                            lemma_decode_all_step::<T>(es, i as int, res.deep_view(), v.deep_view());
                        }
                        let ghost before = res.deep_view();
                        res.push(v);
                        proof {
                            assert(res.deep_view() =~= before.push(v.deep_view()));
                        }
                    },
                    Err(e) => {
                        proof {
                            assert(es.skip(i as int)[0] == es[i as int]);
                            assert(decode_all::<T>(es.skip(i as int)) == Err::<Seq<<T as DeepView>::V>, DecodeError>(e));
                        }
                        return Err(e);
                    },
                }
                i = i + 1;
            }
            proof {
                assert(es.skip(i as int) =~= Seq::<SpecTree>::empty());
                assert(res.deep_view() + Seq::<<T as DeepView>::V>::empty() =~= res.deep_view());
            }
            Ok(res)
        },
        _ => Err(DecodeError::unexpected(SyrupKind::SetOf, input)),
    }
}

/// Decodes the pairs of a dictionary, in order, each key before its value.
pub fn dictionary_pairs<K: Decode, V: Decode>(input: &TokenTree) -> (res: Result<Vec<(K, V)>, DecodeError>)
    ensures
        decode_view(res) == dictionary_pairs_spec::<K, V>(input@),
{
    match input {
        TokenTree::Dictionary(dict) => {
            let ghost ps = dict@;
            proof {
                assert(ps.skip(0) =~= ps);
            }
            let mut res: Vec<(K, V)> = Vec::new();
            let mut i: usize = 0;
            let n = dict.len();
            while i < n
                invariant
                    i <= n,
                    n == ps.len(),
                    ps == dict@,
                    input@ == SpecTree::Dictionary(ps),
                    decode_pairs::<K, V>(ps) == pairs_then::<K, V>(res.deep_view(), decode_pairs::<K, V>(ps.skip(i as int))),
                decreases n - i,
            {
                let (kt, vt) = dict.pair(i);
                proof {
                    assert(ps.skip(i as int)[0] == ps[i as int]);
                    assert(ps.skip(i as int).drop_first() =~= ps.skip(i + 1));
                }
                let k = match K::decode(kt) {
                    Ok(k) => k,
                    Err(e) => return Err(e),
                };
                let v = match V::decode(vt) {
                    Ok(v) => v,
                    Err(e) => return Err(e),
                };
                let ghost before = res.deep_view();
                proof {
                    match decode_pairs::<K, V>(ps.skip(i + 1)) {
                        Ok(rest) => {
                            assert(before + (seq![(k.deep_view(), v.deep_view())] + rest) =~= before.push((k.deep_view(), v.deep_view())) + rest);
                        },
                        Err(_) => {},
                    }
                }
                res.push((k, v));
                proof {
                    assert(res.deep_view() =~= before.push((k.deep_view(), v.deep_view())));
                }
                i = i + 1;
            }
            proof {
                assert(ps.skip(i as int) =~= Seq::<(SpecTree, SpecTree)>::empty());
                assert(res.deep_view() + Seq::<(<K as DeepView>::V, <V as DeepView>::V)>::empty() =~= res.deep_view());
            }
            Ok(res)
        },
        _ => Err(DecodeError::unexpected(SyrupKind::Dictionary, input)),
    }
}

/// Pairs decoded so far, put in front of the rest's result.
pub open spec fn pairs_then<K: Decode, V: Decode>(
    done: Seq<(<K as DeepView>::V, <V as DeepView>::V)>,
    r: Result<Seq<(<K as DeepView>::V, <V as DeepView>::V)>, DecodeError>,
) -> Result<Seq<(<K as DeepView>::V, <V as DeepView>::V)>, DecodeError> {
    match r {
        Ok(vs) => Ok(done + vs),
        Err(e) => Err(e),
    }
}

} // verus!
