//! What decoding gives back of an encoded value.

use vstd::prelude::*;

use crate::de::error::{DecodeBytesError, DecodeError};
use crate::de::impl_decode::{decode_all, decode_bytes_of, Decode};
use crate::de::lex::collection::{encode_tree, encodings, lemma_encodings, tree_spec, SpecTree};
use crate::de::lex::integer::{decimal, lemma_decimal, to_signed_spec, to_unsigned_spec, SpecInt};
use crate::de::lex::literal::{lemma_literal_roundtrip, literal_wf, SpecLiteral};
use crate::ser::{signed_tree, unsigned_tree, Encode, EncodeInto};
use crate::symbol::Symbol;
use vstd::utf8::{encode_utf8, encode_utf8_decode_utf8, encode_utf8_valid_utf8};

verus! {

/// A literal tree lexes back from its encoding followed by any bytes.
proof fn lemma_literal_tree(l: SpecLiteral, s: Seq<u8>)
    requires
        literal_wf(l),
    ensures
        tree_spec(encode_tree(SpecTree::Literal(l)) + s) == Ok::<(Seq<u8>, SpecTree), crate::de::cursor::CursorError>((s, SpecTree::Literal(l))),
{
    lemma_literal_roundtrip(l, s);
}

proof fn lemma_unsigned_tree(v: nat, max: nat, s: Seq<u8>)
    requires
        v <= max,
    ensures
        to_unsigned_spec(SpecInt { positive: true, digits: decimal(v) }, max) == Ok::<nat, crate::de::lex::integer::IntErrorKind>(v),
        tree_spec(encode_tree(unsigned_tree(v)) + s) == Ok::<(Seq<u8>, SpecTree), crate::de::cursor::CursorError>((s, unsigned_tree(v))),
{
    lemma_decimal(v);
    lemma_literal_tree(SpecLiteral::Int(SpecInt { positive: true, digits: decimal(v) }), s);
}

proof fn lemma_signed_tree(v: int, umax: nat, max_pos: nat, max_neg: nat, s: Seq<u8>)
    requires
        -max_neg <= v <= max_pos,
        max_pos <= umax,
        max_neg <= umax,
    ensures
        to_signed_spec(SpecInt { positive: v > 0, digits: decimal((if v >= 0 { v } else { -v }) as nat) }, umax, max_pos, max_neg) == Ok::<int, crate::de::lex::integer::IntErrorKind>(v),
        tree_spec(encode_tree(signed_tree(v)) + s) == Ok::<(Seq<u8>, SpecTree), crate::de::cursor::CursorError>((s, signed_tree(v))),
{
    let m: nat = (if v >= 0 { v } else { -v }) as nat;
    lemma_decimal(m);
    lemma_literal_tree(SpecLiteral::Int(SpecInt { positive: v > 0, digits: decimal(m) }), s);
}

/// A `bool` decodes back from its tree, and from its bytes followed by any
/// bytes, which are left; its bytes are the encoding of its tree.
pub proof fn lemma_bool_roundtrip(v: bool, s: Seq<u8>)
    ensures
        <bool as Decode>::decode_spec(<bool as Encode>::encode_spec(v)) == Ok::<bool, DecodeError>(v),
        <bool as EncodeInto>::encoding_spec(v) == encode_tree(<bool as Encode>::encode_spec(v)),
        decode_bytes_of::<bool>(<bool as EncodeInto>::encoding_spec(v) + s) == Ok::<(Seq<u8>, bool), DecodeBytesError>((s, v)),
{
    lemma_literal_tree(SpecLiteral::Bool(v), s);
}

/// A string decodes back from its tree, and from its bytes followed by any
/// bytes, which are left; its bytes are the encoding of its tree.
pub proof fn lemma_string_roundtrip(v: Seq<char>, s: Seq<u8>)
    requires
        encode_utf8(v).len() <= usize::MAX,
    ensures
        <String as Decode>::decode_spec(<String as Encode>::encode_spec(v)) == Ok::<Seq<char>, DecodeError>(v),
        <String as EncodeInto>::encoding_spec(v) == encode_tree(<String as Encode>::encode_spec(v)),
        decode_bytes_of::<String>(<String as EncodeInto>::encoding_spec(v) + s) == Ok::<(Seq<u8>, Seq<char>), DecodeBytesError>((s, v)),
{
    encode_utf8_valid_utf8(v);
    encode_utf8_decode_utf8(v);
    lemma_literal_tree(SpecLiteral::String(encode_utf8(v)), s);
}

/// A `u8` decodes back from its tree, and from its bytes followed by any
/// bytes, which are left; its bytes are the encoding of its tree.
pub proof fn lemma_u8_roundtrip(v: u8, s: Seq<u8>)
    ensures
        <u8 as Decode>::decode_spec(<u8 as Encode>::encode_spec(v)) == Ok::<u8, DecodeError>(v),
        <u8 as EncodeInto>::encoding_spec(v) == encode_tree(<u8 as Encode>::encode_spec(v)),
        decode_bytes_of::<u8>(<u8 as EncodeInto>::encoding_spec(v) + s) == Ok::<(Seq<u8>, u8), DecodeBytesError>((s, v)),
{
    lemma_unsigned_tree(v as nat, 255 as nat, s);
}

/// A `u16` decodes back from its tree, and from its bytes followed by any
/// bytes, which are left; its bytes are the encoding of its tree.
pub proof fn lemma_u16_roundtrip(v: u16, s: Seq<u8>)
    ensures
        <u16 as Decode>::decode_spec(<u16 as Encode>::encode_spec(v)) == Ok::<u16, DecodeError>(v),
        <u16 as EncodeInto>::encoding_spec(v) == encode_tree(<u16 as Encode>::encode_spec(v)),
        decode_bytes_of::<u16>(<u16 as EncodeInto>::encoding_spec(v) + s) == Ok::<(Seq<u8>, u16), DecodeBytesError>((s, v)),
{
    lemma_unsigned_tree(v as nat, 0xffff as nat, s);
}

/// A `u32` decodes back from its tree, and from its bytes followed by any
/// bytes, which are left; its bytes are the encoding of its tree.
pub proof fn lemma_u32_roundtrip(v: u32, s: Seq<u8>)
    ensures
        <u32 as Decode>::decode_spec(<u32 as Encode>::encode_spec(v)) == Ok::<u32, DecodeError>(v),
        <u32 as EncodeInto>::encoding_spec(v) == encode_tree(<u32 as Encode>::encode_spec(v)),
        decode_bytes_of::<u32>(<u32 as EncodeInto>::encoding_spec(v) + s) == Ok::<(Seq<u8>, u32), DecodeBytesError>((s, v)),
{
    lemma_unsigned_tree(v as nat, 0xffff_ffff as nat, s);
}

/// A `u64` decodes back from its tree, and from its bytes followed by any
/// bytes, which are left; its bytes are the encoding of its tree.
pub proof fn lemma_u64_roundtrip(v: u64, s: Seq<u8>)
    ensures
        <u64 as Decode>::decode_spec(<u64 as Encode>::encode_spec(v)) == Ok::<u64, DecodeError>(v),
        <u64 as EncodeInto>::encoding_spec(v) == encode_tree(<u64 as Encode>::encode_spec(v)),
        decode_bytes_of::<u64>(<u64 as EncodeInto>::encoding_spec(v) + s) == Ok::<(Seq<u8>, u64), DecodeBytesError>((s, v)),
{
    lemma_unsigned_tree(v as nat, 0xffff_ffff_ffff_ffff as nat, s);
}

/// A `u128` decodes back from its tree, and from its bytes followed by any
/// bytes, which are left; its bytes are the encoding of its tree.
pub proof fn lemma_u128_roundtrip(v: u128, s: Seq<u8>)
    ensures
        <u128 as Decode>::decode_spec(<u128 as Encode>::encode_spec(v)) == Ok::<u128, DecodeError>(v),
        <u128 as EncodeInto>::encoding_spec(v) == encode_tree(<u128 as Encode>::encode_spec(v)),
        decode_bytes_of::<u128>(<u128 as EncodeInto>::encoding_spec(v) + s) == Ok::<(Seq<u8>, u128), DecodeBytesError>((s, v)),
{
    lemma_unsigned_tree(v as nat, 0xffff_ffff_ffff_ffff_ffff_ffff_ffff_ffff as nat, s);
}

/// A `usize` decodes back from its tree, and from its bytes followed by any
/// bytes, which are left; its bytes are the encoding of its tree.
pub proof fn lemma_usize_roundtrip(v: usize, s: Seq<u8>)
    ensures
        <usize as Decode>::decode_spec(<usize as Encode>::encode_spec(v)) == Ok::<usize, DecodeError>(v),
        <usize as EncodeInto>::encoding_spec(v) == encode_tree(<usize as Encode>::encode_spec(v)),
        decode_bytes_of::<usize>(<usize as EncodeInto>::encoding_spec(v) + s) == Ok::<(Seq<u8>, usize), DecodeBytesError>((s, v)),
{
    lemma_unsigned_tree(v as nat, usize::MAX as nat, s);
}

/// An `i8` decodes back from its tree, and from its bytes followed by any
/// bytes, which are left; its bytes are the encoding of its tree.
pub proof fn lemma_i8_roundtrip(v: i8, s: Seq<u8>)
    ensures
        <i8 as Decode>::decode_spec(<i8 as Encode>::encode_spec(v)) == Ok::<i8, DecodeError>(v),
        <i8 as EncodeInto>::encoding_spec(v) == encode_tree(<i8 as Encode>::encode_spec(v)),
        decode_bytes_of::<i8>(<i8 as EncodeInto>::encoding_spec(v) + s) == Ok::<(Seq<u8>, i8), DecodeBytesError>((s, v)),
{
    lemma_signed_tree(v as int, 0xff as nat, 0x7f as nat, 0x80 as nat, s);
}

/// An `i16` decodes back from its tree, and from its bytes followed by any
/// bytes, which are left; its bytes are the encoding of its tree.
pub proof fn lemma_i16_roundtrip(v: i16, s: Seq<u8>)
    ensures
        <i16 as Decode>::decode_spec(<i16 as Encode>::encode_spec(v)) == Ok::<i16, DecodeError>(v),
        <i16 as EncodeInto>::encoding_spec(v) == encode_tree(<i16 as Encode>::encode_spec(v)),
        decode_bytes_of::<i16>(<i16 as EncodeInto>::encoding_spec(v) + s) == Ok::<(Seq<u8>, i16), DecodeBytesError>((s, v)),
{
    lemma_signed_tree(v as int, 0xffff as nat, 0x7fff as nat, 0x8000 as nat, s);
}

/// An `i32` decodes back from its tree, and from its bytes followed by any
/// bytes, which are left; its bytes are the encoding of its tree.
pub proof fn lemma_i32_roundtrip(v: i32, s: Seq<u8>)
    ensures
        <i32 as Decode>::decode_spec(<i32 as Encode>::encode_spec(v)) == Ok::<i32, DecodeError>(v),
        <i32 as EncodeInto>::encoding_spec(v) == encode_tree(<i32 as Encode>::encode_spec(v)),
        decode_bytes_of::<i32>(<i32 as EncodeInto>::encoding_spec(v) + s) == Ok::<(Seq<u8>, i32), DecodeBytesError>((s, v)),
{
    lemma_signed_tree(v as int, 0xffff_ffff as nat, 0x7fff_ffff as nat, 0x8000_0000 as nat, s);
}

/// An `i64` decodes back from its tree, and from its bytes followed by any
/// bytes, which are left; its bytes are the encoding of its tree.
pub proof fn lemma_i64_roundtrip(v: i64, s: Seq<u8>)
    ensures
        <i64 as Decode>::decode_spec(<i64 as Encode>::encode_spec(v)) == Ok::<i64, DecodeError>(v),
        <i64 as EncodeInto>::encoding_spec(v) == encode_tree(<i64 as Encode>::encode_spec(v)),
        decode_bytes_of::<i64>(<i64 as EncodeInto>::encoding_spec(v) + s) == Ok::<(Seq<u8>, i64), DecodeBytesError>((s, v)),
{
    lemma_signed_tree(v as int, 0xffff_ffff_ffff_ffff as nat, 0x7fff_ffff_ffff_ffff as nat, 0x8000_0000_0000_0000 as nat, s);
}

/// An `i128` decodes back from its tree, and from its bytes followed by any
/// bytes, which are left; its bytes are the encoding of its tree.
pub proof fn lemma_i128_roundtrip(v: i128, s: Seq<u8>)
    ensures
        <i128 as Decode>::decode_spec(<i128 as Encode>::encode_spec(v)) == Ok::<i128, DecodeError>(v),
        <i128 as EncodeInto>::encoding_spec(v) == encode_tree(<i128 as Encode>::encode_spec(v)),
        decode_bytes_of::<i128>(<i128 as EncodeInto>::encoding_spec(v) + s) == Ok::<(Seq<u8>, i128), DecodeBytesError>((s, v)),
{
    lemma_signed_tree(v as int, 0xffff_ffff_ffff_ffff_ffff_ffff_ffff_ffff as nat, 0x7fff_ffff_ffff_ffff_ffff_ffff_ffff_ffff as nat, 0x8000_0000_0000_0000_0000_0000_0000_0000 as nat, s);
}

/// An `isize` decodes back from its tree, and from its bytes followed by any
/// bytes, which are left; its bytes are the encoding of its tree.
pub proof fn lemma_isize_roundtrip(v: isize, s: Seq<u8>)
    ensures
        <isize as Decode>::decode_spec(<isize as Encode>::encode_spec(v)) == Ok::<isize, DecodeError>(v),
        <isize as EncodeInto>::encoding_spec(v) == encode_tree(<isize as Encode>::encode_spec(v)),
        decode_bytes_of::<isize>(<isize as EncodeInto>::encoding_spec(v) + s) == Ok::<(Seq<u8>, isize), DecodeBytesError>((s, v)),
{
    lemma_signed_tree(v as int, usize::MAX as nat, isize::MAX as nat, (isize::MAX + 1) as nat, s);
}

/// A symbol decodes back from its tree, and from its bytes followed by any
/// bytes, which are left; its bytes are the encoding of its tree.
pub proof fn lemma_symbol_roundtrip(v: Seq<char>, s: Seq<u8>)
    requires
        encode_utf8(v).len() <= usize::MAX,
    ensures
        <Symbol<String> as Decode>::decode_spec(<Symbol<String> as Encode>::encode_spec(v)) == Ok::<Seq<char>, DecodeError>(v),
        <Symbol<String> as EncodeInto>::encoding_spec(v) == encode_tree(<Symbol<String> as Encode>::encode_spec(v)),
        decode_bytes_of::<Symbol<String>>(<Symbol<String> as EncodeInto>::encoding_spec(v) + s) == Ok::<(Seq<u8>, Seq<char>), DecodeBytesError>((s, v)),
{
    encode_utf8_valid_utf8(v);
    encode_utf8_decode_utf8(v);
    lemma_literal_tree(SpecLiteral::Symbol(encode_utf8(v)), s);
}

/// Every element decodes back from its tree.
pub open spec fn elements_roundtrip<T: Decode + Encode>(v: Seq<<T as DeepView>::V>) -> bool {
    forall|i: int| 0 <= i < v.len() ==> #[trigger] T::decode_spec(T::encode_spec(v[i])) == Ok::<<T as DeepView>::V, DecodeError>(v[i])
}

/// A present value decodes back from its tree, unless its tree is `false`.
pub open spec fn option_roundtrips<T: Decode + Encode>(v: Option<<T as DeepView>::V>) -> bool {
    match v {
        None => true,
        Some(x) => T::decode_spec(T::encode_spec(x)) == Ok::<<T as DeepView>::V, DecodeError>(x)
            && T::encode_spec(x) != SpecTree::Literal(SpecLiteral::Bool(false)),
    }
}

/// An optional value decodes back from its tree when the value it holds
/// does and its tree is not `false` (`Some(false)` comes back as `None`).
pub proof fn lemma_option_roundtrip<T: Decode + Encode>(v: Option<<T as DeepView>::V>)
    requires
        option_roundtrips::<T>(v),
    ensures
        <Option<T> as Decode>::decode_spec(<Option<T> as Encode>::encode_spec(v)) == Ok::<Option<<T as DeepView>::V>, DecodeError>(v),
{
}

/// Decoding the trees of elements that each decode back gives the elements.
proof fn lemma_decode_all_encoded<T: Decode + Encode>(v: Seq<<T as DeepView>::V>)
    requires
        elements_roundtrip::<T>(v),
    ensures
        decode_all::<T>(v.map_values(|x: <T as DeepView>::V| T::encode_spec(x))) == Ok::<Seq<<T as DeepView>::V>, DecodeError>(v),
    decreases v.len(),
{
    let es = v.map_values(|x: <T as DeepView>::V| T::encode_spec(x));
    if v.len() > 0 {
        assert(elements_roundtrip::<T>(v.drop_first())) by {
            assert forall|i: int| 0 <= i < v.drop_first().len() implies #[trigger] T::decode_spec(T::encode_spec(v.drop_first()[i])) == Ok::<<T as DeepView>::V, DecodeError>(v.drop_first()[i]) by {
                assert(v.drop_first()[i] == v[i + 1]);
            }
        }
        lemma_decode_all_encoded::<T>(v.drop_first());
        assert(es.drop_first() =~= v.drop_first().map_values(|x: <T as DeepView>::V| T::encode_spec(x)));
        assert(es[0] == T::encode_spec(v[0]));
        assert(seq![v[0]] + v.drop_first() =~= v);
    } else {
        assert(v =~= Seq::<<T as DeepView>::V>::empty());
    }
}

/// A list of elements that each decode back from their trees decodes back
/// from its tree.
pub proof fn lemma_vec_roundtrip<T: Decode + Encode>(v: Seq<<T as DeepView>::V>)
    requires
        elements_roundtrip::<T>(v),
    ensures
        <Vec<T> as Decode>::decode_spec(<Vec<T> as Encode>::encode_spec(v)) == Ok::<Seq<<T as DeepView>::V>, DecodeError>(v),
{
    lemma_decode_all_encoded::<T>(v);
}

/// Every element writes the bytes of its tree.
pub open spec fn elements_write_trees<T: Encode + EncodeInto>(v: Seq<<T as DeepView>::V>) -> bool {
    forall|i: int| 0 <= i < v.len() ==> #[trigger] T::encoding_spec(v[i]) == encode_tree(T::encode_spec(v[i]))
}

/// A list writes the bytes of its tree when each element does.
pub proof fn lemma_vec_encoding<T: Encode + EncodeInto>(v: Seq<<T as DeepView>::V>)
    requires
        elements_write_trees::<T>(v),
    ensures
        <Vec<T> as EncodeInto>::encoding_spec(v) == encode_tree(<Vec<T> as Encode>::encode_spec(v)),
{
    let es = v.map_values(|x: <T as DeepView>::V| T::encode_spec(x));
    lemma_encodings(es);
    assert(encodings(es) =~= v.map_values(|x: <T as DeepView>::V| T::encoding_spec(x)));
}

} // verus!
