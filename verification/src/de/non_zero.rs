//! Integers that are never zero, which decode from integer literals that are
//! not zero and encode as the integer they hold.

use vstd::prelude::*;

use crate::de::error::{DecodeBytesError, DecodeError, IntDescription, IsSigned};
use crate::de::impl_decode::{decode_bytes_of, desc_of, Decode};
use crate::de::lex::collection::{encode_tree, SpecTree, TokenTree};
use crate::de::lex::integer::IntErrorKind;
use crate::de::value_roundtrip::{
    lemma_i128_roundtrip, lemma_i16_roundtrip, lemma_i32_roundtrip, lemma_i64_roundtrip, lemma_i8_roundtrip,
    lemma_isize_roundtrip, lemma_u128_roundtrip, lemma_u16_roundtrip, lemma_u32_roundtrip, lemma_u64_roundtrip,
    lemma_u8_roundtrip, lemma_usize_roundtrip,
};
use crate::ser::{Encode, EncodeInto};

verus! {

/// A primitive integer type, which knows its zero and decodes back what it
/// encodes.
pub trait Integer: IsSigned + Decode + Encode + EncodeInto + Copy {
    /// Whether the value is zero.
    spec fn is_zero_spec(v: <Self as DeepView>::V) -> bool;

    fn is_zero(&self) -> (res: bool)
        ensures
            res == Self::is_zero_spec(self.deep_view()),
    ;

    /// The value decodes back from its tree, and from its bytes followed by
    /// any bytes, which are left; its bytes are the encoding of its tree.
    proof fn lemma_roundtrip(v: <Self as DeepView>::V, s: Seq<u8>)
        ensures
            Self::decode_spec(Self::encode_spec(v)) == Ok::<<Self as DeepView>::V, DecodeError>(v),
            Self::encoding_spec(v) == encode_tree(Self::encode_spec(v)),
            decode_bytes_of::<Self>(Self::encoding_spec(v) + s) == Ok::<(Seq<u8>, <Self as DeepView>::V), DecodeBytesError>((s, v)),
    ;
}

impl Integer for u8 {
    open spec fn is_zero_spec(v: u8) -> bool {
        v == 0
    }

    fn is_zero(&self) -> (res: bool) {
        *self == 0
    }

    proof fn lemma_roundtrip(v: u8, s: Seq<u8>) {
        lemma_u8_roundtrip(v, s);
    }
}

impl Integer for u16 {
    open spec fn is_zero_spec(v: u16) -> bool {
        v == 0
    }

    fn is_zero(&self) -> (res: bool) {
        *self == 0
    }

    proof fn lemma_roundtrip(v: u16, s: Seq<u8>) {
        lemma_u16_roundtrip(v, s);
    }
}

impl Integer for u32 {
    open spec fn is_zero_spec(v: u32) -> bool {
        v == 0
    }

    fn is_zero(&self) -> (res: bool) {
        *self == 0
    }

    proof fn lemma_roundtrip(v: u32, s: Seq<u8>) {
        lemma_u32_roundtrip(v, s);
    }
}

impl Integer for u64 {
    open spec fn is_zero_spec(v: u64) -> bool {
        v == 0
    }

    fn is_zero(&self) -> (res: bool) {
        *self == 0
    }

    proof fn lemma_roundtrip(v: u64, s: Seq<u8>) {
        lemma_u64_roundtrip(v, s);
    }
}

impl Integer for u128 {
    open spec fn is_zero_spec(v: u128) -> bool {
        v == 0
    }

    fn is_zero(&self) -> (res: bool) {
        *self == 0
    }

    proof fn lemma_roundtrip(v: u128, s: Seq<u8>) {
        lemma_u128_roundtrip(v, s);
    }
}

impl Integer for usize {
    open spec fn is_zero_spec(v: usize) -> bool {
        v == 0
    }

    fn is_zero(&self) -> (res: bool) {
        *self == 0
    }

    proof fn lemma_roundtrip(v: usize, s: Seq<u8>) {
        lemma_usize_roundtrip(v, s);
    }
}

impl Integer for i8 {
    open spec fn is_zero_spec(v: i8) -> bool {
        v == 0
    }

    fn is_zero(&self) -> (res: bool) {
        *self == 0
    }

    proof fn lemma_roundtrip(v: i8, s: Seq<u8>) {
        lemma_i8_roundtrip(v, s);
    }
}

impl Integer for i16 {
    open spec fn is_zero_spec(v: i16) -> bool {
        v == 0
    }

    fn is_zero(&self) -> (res: bool) {
        *self == 0
    }

    proof fn lemma_roundtrip(v: i16, s: Seq<u8>) {
        lemma_i16_roundtrip(v, s);
    }
}

impl Integer for i32 {
    open spec fn is_zero_spec(v: i32) -> bool {
        v == 0
    }

    fn is_zero(&self) -> (res: bool) {
        *self == 0
    }

    proof fn lemma_roundtrip(v: i32, s: Seq<u8>) {
        lemma_i32_roundtrip(v, s);
    }
}

impl Integer for i64 {
    open spec fn is_zero_spec(v: i64) -> bool {
        v == 0
    }

    fn is_zero(&self) -> (res: bool) {
        *self == 0
    }

    proof fn lemma_roundtrip(v: i64, s: Seq<u8>) {
        lemma_i64_roundtrip(v, s);
    }
}

impl Integer for i128 {
    open spec fn is_zero_spec(v: i128) -> bool {
        v == 0
    }

    fn is_zero(&self) -> (res: bool) {
        *self == 0
    }

    proof fn lemma_roundtrip(v: i128, s: Seq<u8>) {
        lemma_i128_roundtrip(v, s);
    }
}

impl Integer for isize {
    open spec fn is_zero_spec(v: isize) -> bool {
        v == 0
    }

    fn is_zero(&self) -> (res: bool) {
        *self == 0
    }

    proof fn lemma_roundtrip(v: isize, s: Seq<u8>) {
        lemma_isize_roundtrip(v, s);
    }
}

/// An integer of type `I` that is not zero.
#[derive(Debug, Copy, PartialEq, Eq, Hash)]
pub struct NonZero<I: Integer> {
    value: I,
}

impl<I: Integer> NonZero<I> {
    #[verifier::type_invariant]
    spec fn non_zero(self) -> bool {
        !I::is_zero_spec(self.value.deep_view())
    }

    /// The value, where it is not zero.
    pub fn new(value: I) -> (res: Option<NonZero<I>>)
        ensures
            match res {
                Some(n) => !I::is_zero_spec(value.deep_view()) && n.deep_view() == value.deep_view(),
                None => I::is_zero_spec(value.deep_view()),
            },
    {
        if value.is_zero() {
            None
        } else {
            Some(NonZero { value })
        }
    }

    /// The integer held, which is not zero.
    pub fn get(&self) -> (res: I)
        ensures
            res.deep_view() == self.deep_view(),
            !I::is_zero_spec(res.deep_view()),
    {
        proof {
            use_type_invariant(self);
        }
        self.value
    }
}

impl<I: Integer> Clone for NonZero<I> {
    fn clone(&self) -> (res: Self)
        ensures
            res.deep_view() == self.deep_view(),
    {
        proof {
            use_type_invariant(self);
        }
        NonZero { value: self.value }
    }
}

impl<I: Integer> DeepView for NonZero<I> {
    type V = <I as DeepView>::V;

    closed spec fn deep_view(&self) -> <I as DeepView>::V {
        self.value.deep_view()
    }
}

impl<I: Integer> IsSigned for NonZero<I> {
    open spec fn is_signed() -> bool {
        I::is_signed()
    }

    open spec fn byte_width() -> nat {
        I::byte_width()
    }

    fn signed() -> (res: bool) {
        I::signed()
    }

    fn width() -> (res: usize) {
        I::width()
    }
}

impl<I: Integer> Decode for NonZero<I> {
    /// What `I` decodes to, where that is not zero; a zero is refused as a
    /// zero for the type.
    open spec fn decode_spec(t: SpecTree) -> Result<<I as DeepView>::V, DecodeError> {
        match I::decode_spec(t) {
            Ok(v) => if I::is_zero_spec(v) {
                Err(DecodeError::ParseInt(desc_of::<I>(), IntErrorKind::Zero))
            } else {
                Ok(v)
            },
            Err(e) => Err(e),
        }
    }

    fn decode(input: &TokenTree) -> (res: Result<NonZero<I>, DecodeError>) {
        match I::decode(input) {
            Ok(v) => if v.is_zero() {
                Err(DecodeError::ParseInt(IntDescription::describe::<I>(), IntErrorKind::Zero))
            } else {
                Ok(NonZero { value: v })
            },
            Err(e) => Err(e),
        }
    }
}

impl<I: Integer> Encode for NonZero<I> {
    open spec fn encode_spec(v: <I as DeepView>::V) -> SpecTree {
        I::encode_spec(v)
    }

    fn encode(&self) -> (res: TokenTree) {
        self.value.encode()
    }
}

impl<I: Integer> EncodeInto for NonZero<I> {
    open spec fn encoding_spec(v: <I as DeepView>::V) -> Seq<u8> {
        I::encoding_spec(v)
    }

    fn encode_into(&self, w: &mut Vec<u8>) -> (res: usize) {
        self.value.encode_into(w)
    }
}

/// An integer that is not zero decodes back from its tree, and from its
/// bytes followed by any bytes, which are left; its bytes are the encoding
/// of its tree.
pub proof fn lemma_non_zero_roundtrip<I: Integer>(v: <I as DeepView>::V, s: Seq<u8>)
    requires
        !I::is_zero_spec(v),
    ensures
        <NonZero<I> as Decode>::decode_spec(<NonZero<I> as Encode>::encode_spec(v)) == Ok::<<I as DeepView>::V, DecodeError>(v),
        <NonZero<I> as EncodeInto>::encoding_spec(v) == encode_tree(<NonZero<I> as Encode>::encode_spec(v)),
        decode_bytes_of::<NonZero<I>>(<NonZero<I> as EncodeInto>::encoding_spec(v) + s) == Ok::<(Seq<u8>, <I as DeepView>::V), DecodeBytesError>((s, v)),
{
    I::lemma_roundtrip(v, s);
}

/// Each integer type counts exactly its zero as zero.
pub proof fn lemma_is_zero_exactly_zero()
    ensures
        forall|v: u8| <u8 as Integer>::is_zero_spec(v) <==> v == 0,
        forall|v: u16| <u16 as Integer>::is_zero_spec(v) <==> v == 0,
        forall|v: u32| <u32 as Integer>::is_zero_spec(v) <==> v == 0,
        forall|v: u64| <u64 as Integer>::is_zero_spec(v) <==> v == 0,
        forall|v: u128| <u128 as Integer>::is_zero_spec(v) <==> v == 0,
        forall|v: usize| <usize as Integer>::is_zero_spec(v) <==> v == 0,
        forall|v: i8| <i8 as Integer>::is_zero_spec(v) <==> v == 0,
        forall|v: i16| <i16 as Integer>::is_zero_spec(v) <==> v == 0,
        forall|v: i32| <i32 as Integer>::is_zero_spec(v) <==> v == 0,
        forall|v: i64| <i64 as Integer>::is_zero_spec(v) <==> v == 0,
        forall|v: i128| <i128 as Integer>::is_zero_spec(v) <==> v == 0,
        forall|v: isize| <isize as Integer>::is_zero_spec(v) <==> v == 0,
{
}

/// A `NonZero<I>` decodes from the tree of each value of `I` that is not
/// zero, to that value, and refuses the tree of zero as a zero for `I`.
pub proof fn lemma_non_zero_decodes<I: Integer>(v: <I as DeepView>::V)
    ensures
        !I::is_zero_spec(v) ==> <NonZero<I> as Decode>::decode_spec(I::encode_spec(v)) == Ok::<<I as DeepView>::V, DecodeError>(v),
        I::is_zero_spec(v) ==> <NonZero<I> as Decode>::decode_spec(I::encode_spec(v)) == Err::<<I as DeepView>::V, DecodeError>(
            DecodeError::ParseInt(desc_of::<I>(), IntErrorKind::Zero),
        ),
{
    I::lemma_roundtrip(v, Seq::empty());
}

/// Decoding a `u64` that is not zero as `NonZero<u64>` gives it back; zero
/// is refused as a zero of an unsigned 8-byte integer.
pub proof fn lemma_non_zero_u64_decodes(v: u64)
    ensures
        v != 0 ==> <NonZero<u64> as Decode>::decode_spec(<u64 as Encode>::encode_spec(v)) == Ok::<u64, DecodeError>(v),
        v == 0 ==> <NonZero<u64> as Decode>::decode_spec(<u64 as Encode>::encode_spec(v)) == Err::<u64, DecodeError>(
            DecodeError::ParseInt(IntDescription { signed: false, width: 8 }, IntErrorKind::Zero),
        ),
{
    lemma_non_zero_decodes::<u64>(v);
}

} // verus!
