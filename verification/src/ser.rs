//! Encoding values as token trees and as bytes.

use vstd::prelude::*;

use crate::de::lex::collection::{encode_tree, lemma_tree_view, lemma_trees_view, trees_view, List, SpecTree, TokenTree};
use crate::de::lex::order::concat;
use crate::de::lex::integer::{decimal, Int, SpecInt};
use crate::de::lex::literal::{Literal, SpecLiteral};
use crate::de::cursor::copy_bytes;
use vstd::utf8::encode_utf8;

pub mod private;

verus! {

broadcast use lemma_tree_view;

/// A value that converts to a token tree.
pub trait Encode: DeepView {
    /// The tree a value converts to.
    spec fn encode_spec(v: <Self as DeepView>::V) -> SpecTree;

    /// Converts the value to a token tree.
    fn encode(&self) -> (res: TokenTree)
        ensures
            res@ == Self::encode_spec(self.deep_view()),
    ;
}

/// A value that writes itself as Syrup bytes.
pub trait EncodeInto: DeepView {
    /// The bytes a value writes.
    spec fn encoding_spec(v: <Self as DeepView>::V) -> Seq<u8>;

    /// Appends the value, as Syrup data, to `w`, and returns how many bytes
    /// were written. The same as the encoding of the value's tree.
    fn encode_into(&self, w: &mut Vec<u8>) -> (res: usize)
        ensures
            final(w)@ == old(w)@ + Self::encoding_spec(self.deep_view()),
            res == Self::encoding_spec(self.deep_view()).len(),
    ;
}

/// Conversion of any `EncodeInto` value to bytes.
pub trait EncodeIntoExt: EncodeInto + private::EncodeIntoSealed {
    /// The value as Syrup data.
    fn encode_bytes(&self) -> (res: Vec<u8>)
        ensures
            res@ == Self::encoding_spec(self.deep_view()),
    ;
}

impl<T: EncodeInto + ?Sized> EncodeIntoExt for T {
    fn encode_bytes(&self) -> (res: Vec<u8>) {
        let mut res: Vec<u8> = Vec::new();
        self.encode_into(&mut res);
        proof {
            assert(res@ =~= Self::encoding_spec(self.deep_view()));
        }
        res
    }
}

/// The tree of a non-negative number: its decimal digits, marked positive.
pub open spec fn unsigned_tree(v: nat) -> SpecTree {
    SpecTree::Literal(SpecLiteral::Int(SpecInt { positive: true, digits: decimal(v) }))
}

/// The tree of a number: the decimal digits of its magnitude, marked
/// positive only when greater than zero.
pub open spec fn signed_tree(v: int) -> SpecTree {
    SpecTree::Literal(SpecLiteral::Int(SpecInt {
        positive: v > 0,
        digits: decimal((if v >= 0 { v } else { -v }) as nat),
    }))
}

impl Encode for bool {
    open spec fn encode_spec(v: bool) -> SpecTree {
        SpecTree::Literal(SpecLiteral::Bool(v))
    }

    fn encode(&self) -> (res: TokenTree) {
        TokenTree::Literal(Literal::Bool(*self))
    }
}

impl EncodeInto for bool {
    open spec fn encoding_spec(v: bool) -> Seq<u8> {
        encode_tree(SpecTree::Literal(SpecLiteral::Bool(v)))
    }

    fn encode_into(&self, w: &mut Vec<u8>) -> (res: usize) {
        Literal::Bool(*self).encode_into(w)
    }
}

impl Encode for String {
    open spec fn encode_spec(v: Seq<char>) -> SpecTree {
        SpecTree::Literal(SpecLiteral::String(encode_utf8(v)))
    }

    fn encode(&self) -> (res: TokenTree) {
        TokenTree::Literal(Literal::String(copy_bytes(self.as_str().as_bytes())))
    }
}

impl EncodeInto for String {
    open spec fn encoding_spec(v: Seq<char>) -> Seq<u8> {
        encode_tree(SpecTree::Literal(SpecLiteral::String(encode_utf8(v))))
    }

    fn encode_into(&self, w: &mut Vec<u8>) -> (res: usize) {
        Literal::String(copy_bytes(self.as_str().as_bytes())).encode_into(w)
    }
}

impl Encode for str {
    open spec fn encode_spec(v: Seq<char>) -> SpecTree {
        SpecTree::Literal(SpecLiteral::String(encode_utf8(v)))
    }

    fn encode(&self) -> (res: TokenTree) {
        TokenTree::Literal(Literal::String(copy_bytes(self.as_bytes())))
    }
}

impl EncodeInto for str {
    open spec fn encoding_spec(v: Seq<char>) -> Seq<u8> {
        encode_tree(SpecTree::Literal(SpecLiteral::String(encode_utf8(v))))
    }

    fn encode_into(&self, w: &mut Vec<u8>) -> (res: usize) {
        Literal::String(copy_bytes(self.as_bytes())).encode_into(w)
    }
}

impl EncodeInto for TokenTree {
    open spec fn encoding_spec(v: SpecTree) -> Seq<u8> {
        encode_tree(v)
    }

    fn encode_into(&self, w: &mut Vec<u8>) -> (res: usize) {
        self.write_bytes(w)
    }
}

impl Encode for u8 {
    open spec fn encode_spec(v: u8) -> SpecTree {
        unsigned_tree(v as nat)
    }

    fn encode(&self) -> (res: TokenTree) {
        TokenTree::Literal(Literal::Int(Int::from_unsigned(*self as u128)))
    }
}

impl EncodeInto for u8 {
    open spec fn encoding_spec(v: u8) -> Seq<u8> {
        encode_tree(unsigned_tree(v as nat))
    }

    fn encode_into(&self, w: &mut Vec<u8>) -> (res: usize) {
        Int::from_unsigned(*self as u128).encode_into(w)
    }
}

impl Encode for u16 {
    open spec fn encode_spec(v: u16) -> SpecTree {
        unsigned_tree(v as nat)
    }

    fn encode(&self) -> (res: TokenTree) {
        TokenTree::Literal(Literal::Int(Int::from_unsigned(*self as u128)))
    }
}

impl EncodeInto for u16 {
    open spec fn encoding_spec(v: u16) -> Seq<u8> {
        encode_tree(unsigned_tree(v as nat))
    }

    fn encode_into(&self, w: &mut Vec<u8>) -> (res: usize) {
        Int::from_unsigned(*self as u128).encode_into(w)
    }
}

impl Encode for u32 {
    open spec fn encode_spec(v: u32) -> SpecTree {
        unsigned_tree(v as nat)
    }

    fn encode(&self) -> (res: TokenTree) {
        TokenTree::Literal(Literal::Int(Int::from_unsigned(*self as u128)))
    }
}

impl EncodeInto for u32 {
    open spec fn encoding_spec(v: u32) -> Seq<u8> {
        encode_tree(unsigned_tree(v as nat))
    }

    fn encode_into(&self, w: &mut Vec<u8>) -> (res: usize) {
        Int::from_unsigned(*self as u128).encode_into(w)
    }
}

impl Encode for u64 {
    open spec fn encode_spec(v: u64) -> SpecTree {
        unsigned_tree(v as nat)
    }

    fn encode(&self) -> (res: TokenTree) {
        TokenTree::Literal(Literal::Int(Int::from_unsigned(*self as u128)))
    }
}

impl EncodeInto for u64 {
    open spec fn encoding_spec(v: u64) -> Seq<u8> {
        encode_tree(unsigned_tree(v as nat))
    }

    fn encode_into(&self, w: &mut Vec<u8>) -> (res: usize) {
        Int::from_unsigned(*self as u128).encode_into(w)
    }
}

impl Encode for u128 {
    open spec fn encode_spec(v: u128) -> SpecTree {
        unsigned_tree(v as nat)
    }

    fn encode(&self) -> (res: TokenTree) {
        TokenTree::Literal(Literal::Int(Int::from_unsigned(*self as u128)))
    }
}

impl EncodeInto for u128 {
    open spec fn encoding_spec(v: u128) -> Seq<u8> {
        encode_tree(unsigned_tree(v as nat))
    }

    fn encode_into(&self, w: &mut Vec<u8>) -> (res: usize) {
        Int::from_unsigned(*self as u128).encode_into(w)
    }
}

impl Encode for usize {
    open spec fn encode_spec(v: usize) -> SpecTree {
        unsigned_tree(v as nat)
    }

    fn encode(&self) -> (res: TokenTree) {
        TokenTree::Literal(Literal::Int(Int::from_unsigned(*self as u128)))
    }
}

impl EncodeInto for usize {
    open spec fn encoding_spec(v: usize) -> Seq<u8> {
        encode_tree(unsigned_tree(v as nat))
    }

    fn encode_into(&self, w: &mut Vec<u8>) -> (res: usize) {
        Int::from_unsigned(*self as u128).encode_into(w)
    }
}

impl Encode for i8 {
    open spec fn encode_spec(v: i8) -> SpecTree {
        signed_tree(v as int)
    }

    fn encode(&self) -> (res: TokenTree) {
        TokenTree::Literal(Literal::Int(Int::from_signed(*self as i128)))
    }
}

impl EncodeInto for i8 {
    open spec fn encoding_spec(v: i8) -> Seq<u8> {
        encode_tree(signed_tree(v as int))
    }

    fn encode_into(&self, w: &mut Vec<u8>) -> (res: usize) {
        Int::from_signed(*self as i128).encode_into(w)
    }
}

impl Encode for i16 {
    open spec fn encode_spec(v: i16) -> SpecTree {
        signed_tree(v as int)
    }

    fn encode(&self) -> (res: TokenTree) {
        TokenTree::Literal(Literal::Int(Int::from_signed(*self as i128)))
    }
}

impl EncodeInto for i16 {
    open spec fn encoding_spec(v: i16) -> Seq<u8> {
        encode_tree(signed_tree(v as int))
    }

    fn encode_into(&self, w: &mut Vec<u8>) -> (res: usize) {
        Int::from_signed(*self as i128).encode_into(w)
    }
}

impl Encode for i32 {
    open spec fn encode_spec(v: i32) -> SpecTree {
        signed_tree(v as int)
    }

    fn encode(&self) -> (res: TokenTree) {
        TokenTree::Literal(Literal::Int(Int::from_signed(*self as i128)))
    }
}

impl EncodeInto for i32 {
    open spec fn encoding_spec(v: i32) -> Seq<u8> {
        encode_tree(signed_tree(v as int))
    }

    fn encode_into(&self, w: &mut Vec<u8>) -> (res: usize) {
        Int::from_signed(*self as i128).encode_into(w)
    }
}

impl Encode for i64 {
    open spec fn encode_spec(v: i64) -> SpecTree {
        signed_tree(v as int)
    }

    fn encode(&self) -> (res: TokenTree) {
        TokenTree::Literal(Literal::Int(Int::from_signed(*self as i128)))
    }
}

impl EncodeInto for i64 {
    open spec fn encoding_spec(v: i64) -> Seq<u8> {
        encode_tree(signed_tree(v as int))
    }

    fn encode_into(&self, w: &mut Vec<u8>) -> (res: usize) {
        Int::from_signed(*self as i128).encode_into(w)
    }
}

impl Encode for i128 {
    open spec fn encode_spec(v: i128) -> SpecTree {
        signed_tree(v as int)
    }

    fn encode(&self) -> (res: TokenTree) {
        TokenTree::Literal(Literal::Int(Int::from_signed(*self as i128)))
    }
}

impl EncodeInto for i128 {
    open spec fn encoding_spec(v: i128) -> Seq<u8> {
        encode_tree(signed_tree(v as int))
    }

    fn encode_into(&self, w: &mut Vec<u8>) -> (res: usize) {
        Int::from_signed(*self as i128).encode_into(w)
    }
}

impl Encode for isize {
    open spec fn encode_spec(v: isize) -> SpecTree {
        signed_tree(v as int)
    }

    fn encode(&self) -> (res: TokenTree) {
        TokenTree::Literal(Literal::Int(Int::from_signed(*self as i128)))
    }
}

impl EncodeInto for isize {
    open spec fn encoding_spec(v: isize) -> Seq<u8> {
        encode_tree(signed_tree(v as int))
    }

    fn encode_into(&self, w: &mut Vec<u8>) -> (res: usize) {
        Int::from_signed(*self as i128).encode_into(w)
    }
}

impl<T: Encode> Encode for Vec<T> {
    /// A list of the elements' trees.
    open spec fn encode_spec(v: Seq<<T as DeepView>::V>) -> SpecTree {
        SpecTree::List(v.map_values(|x: <T as DeepView>::V| T::encode_spec(x)))
    }

    fn encode(&self) -> (res: TokenTree) {
        let mut elements: Vec<TokenTree> = Vec::new();
        let mut i: usize = 0;
        let ghost target = self.deep_view().map_values(|x: <T as DeepView>::V| T::encode_spec(x));
        while i < self.len()
            invariant
                i <= self@.len(),
                target == self.deep_view().map_values(|x: <T as DeepView>::V| T::encode_spec(x)),
                elements@.len() == i,
                forall|j: int| 0 <= j < i ==> #[trigger] elements@[j]@ == target[j],
            decreases self@.len() - i,
        {
            let e = self[i].encode();
            elements.push(e);
            i = i + 1;
        }
        proof {
            lemma_trees_view(elements@);
            assert(self.deep_view().len() == self@.len());
            assert forall|j: int| 0 <= j < target.len() implies #[trigger] trees_view(elements@)[j] == target[j] by {
                assert(elements@[j]@ == target[j]);
            }
            assert(trees_view(elements@) =~= target);
        }
        TokenTree::List(List::new(elements))
    }
}

impl<T: EncodeInto> EncodeInto for Vec<T> {
    /// `[`, the elements' bytes, then `]`.
    open spec fn encoding_spec(v: Seq<<T as DeepView>::V>) -> Seq<u8> {
        seq![0x5bu8] + concat(v.map_values(|x: <T as DeepView>::V| T::encoding_spec(x))) + seq![0x5du8]
    }

    fn encode_into(&self, w: &mut Vec<u8>) -> (res: usize) {
        let start = w.len();
        w.push(0x5bu8);
        let mut i: usize = 0;
        let ghost encs = self.deep_view().map_values(|x: <T as DeepView>::V| T::encoding_spec(x));
        while i < self.len()
            invariant
                i <= self@.len(),
                start == old(w)@.len(),
                encs == self.deep_view().map_values(|x: <T as DeepView>::V| T::encoding_spec(x)),
                w@ == old(w)@ + seq![0x5bu8] + concat(encs.take(i as int)),
            decreases self@.len() - i,
        {
            self[i].encode_into(w);
            proof {
                assert(encs.take(i + 1).drop_last() =~= encs.take(i as int));
            }
            i = i + 1;
        }
        w.push(0x5du8);
        proof {
            assert(encs.take(i as int) =~= encs);
        }
        w.len() - start
    }
}

impl<T: Encode> Encode for [T] {
    /// A list of the elements' trees.
    open spec fn encode_spec(v: Seq<<T as DeepView>::V>) -> SpecTree {
        SpecTree::List(v.map_values(|x: <T as DeepView>::V| T::encode_spec(x)))
    }

    fn encode(&self) -> (res: TokenTree) {
        let mut elements: Vec<TokenTree> = Vec::new();
        let mut i: usize = 0;
        let ghost target = self.deep_view().map_values(|x: <T as DeepView>::V| T::encode_spec(x));
        while i < self.len()
            invariant
                i <= self@.len(),
                target == self.deep_view().map_values(|x: <T as DeepView>::V| T::encode_spec(x)),
                elements@.len() == i,
                forall|j: int| 0 <= j < i ==> #[trigger] elements@[j]@ == target[j],
            decreases self@.len() - i,
        {
            let e = self[i].encode();
            elements.push(e);
            i = i + 1;
        }
        proof {
            lemma_trees_view(elements@);
            assert(self.deep_view().len() == self@.len());
            assert forall|j: int| 0 <= j < target.len() implies #[trigger] trees_view(elements@)[j] == target[j] by {
                assert(elements@[j]@ == target[j]);
            }
            assert(trees_view(elements@) =~= target);
        }
        TokenTree::List(List::new(elements))
    }
}

impl<T: EncodeInto> EncodeInto for [T] {
    /// `[`, the elements' bytes, then `]`.
    open spec fn encoding_spec(v: Seq<<T as DeepView>::V>) -> Seq<u8> {
        seq![0x5bu8] + concat(v.map_values(|x: <T as DeepView>::V| T::encoding_spec(x))) + seq![0x5du8]
    }

    fn encode_into(&self, w: &mut Vec<u8>) -> (res: usize) {
        let start = w.len();
        w.push(0x5bu8);
        let mut i: usize = 0;
        let ghost encs = self.deep_view().map_values(|x: <T as DeepView>::V| T::encoding_spec(x));
        while i < self.len()
            invariant
                i <= self@.len(),
                start == old(w)@.len(),
                encs == self.deep_view().map_values(|x: <T as DeepView>::V| T::encoding_spec(x)),
                w@ == old(w)@ + seq![0x5bu8] + concat(encs.take(i as int)),
            decreases self@.len() - i,
        {
            self[i].encode_into(w);
            proof {
                assert(encs.take(i + 1).drop_last() =~= encs.take(i as int));
            }
            i = i + 1;
        }
        w.push(0x5du8);
        proof {
            assert(encs.take(i as int) =~= encs);
        }
        w.len() - start
    }
}

impl<T: Encode> Encode for Option<T> {
    /// `None` is `false`; `Some` is the value's tree.
    open spec fn encode_spec(v: Option<<T as DeepView>::V>) -> SpecTree {
        match v {
            None => SpecTree::Literal(SpecLiteral::Bool(false)),
            Some(x) => T::encode_spec(x),
        }
    }

    fn encode(&self) -> (res: TokenTree) {
        match self {
            None => TokenTree::Literal(Literal::Bool(false)),
            Some(x) => x.encode(),
        }
    }
}

impl Encode for TokenTree {
    /// A tree converts to itself.
    open spec fn encode_spec(v: SpecTree) -> SpecTree {
        v
    }

    fn encode(&self) -> (res: TokenTree) {
        self.deep_clone()
    }
}

} // verus!
