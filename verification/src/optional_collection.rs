//! Collections where an empty collection is encoded as `f`.

use vstd::prelude::*;

use crate::de::error::DecodeError;
use crate::de::impl_decode::{decode_view, Decode};
use crate::de::lex::collection::{lemma_tree_view, SpecTree, TokenTree};
use crate::de::lex::literal::{Literal, SpecLiteral};
use crate::de::value_roundtrip::{elements_roundtrip, lemma_vec_roundtrip};
use crate::ser::Encode;

verus! {

broadcast use lemma_tree_view;

/// The tree of a collection: `false` when it is empty, else its list.
pub open spec fn optional_encode_spec<T: Encode>(v: Seq<<T as DeepView>::V>) -> SpecTree {
    if v.len() == 0 {
        SpecTree::Literal(SpecLiteral::Bool(false))
    } else {
        <Vec<T> as Encode>::encode_spec(v)
    }
}

/// Decoding a collection: `false` is an empty one, anything else decodes
/// as a list.
pub open spec fn optional_decode_spec<T: Decode>(t: SpecTree) -> Result<Seq<<T as DeepView>::V>, DecodeError> {
    match t {
        SpecTree::Literal(SpecLiteral::Bool(false)) => Ok(Seq::empty()),
        t => <Vec<T> as Decode>::decode_spec(t),
    }
}

/// Encodes a collection; an empty one encodes as `false`.
pub fn encode<T: Encode>(collection: &Vec<T>) -> (res: TokenTree)
    ensures
        res@ == optional_encode_spec::<T>(collection.deep_view()),
{
    if collection.len() == 0 {
        TokenTree::Literal(Literal::Bool(false))
    } else {
        collection.encode()
    }
}

/// Decodes a collection; `false` decodes to an empty one.
pub fn decode<T: Decode>(input: &TokenTree) -> (res: Result<Vec<T>, DecodeError>)
    ensures
        decode_view(res) == optional_decode_spec::<T>(input@),
{
    match input {
        TokenTree::Literal(Literal::Bool(false)) => {
            let v: Vec<T> = Vec::new();
            proof {
                assert(v.deep_view() =~= Seq::<<T as DeepView>::V>::empty());
            }
            Ok(v)
        },
        _ => Vec::<T>::decode(input),
    }
}

/// A collection whose elements each decode back from their trees decodes
/// back from its tree, the empty one included.
pub proof fn lemma_optional_collection_roundtrip<T: Decode + Encode>(v: Seq<<T as DeepView>::V>)
    requires
        elements_roundtrip::<T>(v),
    ensures
        optional_decode_spec::<T>(optional_encode_spec::<T>(v)) == Ok::<Seq<<T as DeepView>::V>, DecodeError>(v),
{
    if v.len() == 0 {
        assert(v =~= Seq::<<T as DeepView>::V>::empty());
    } else {
        lemma_vec_roundtrip::<T>(v);
    }
}

} // verus!
