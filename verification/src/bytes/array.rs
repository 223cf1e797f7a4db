//! Decoding byte-string literals of a fixed length.

use vstd::prelude::*;

use crate::de::error::{DecodeError, SyrupKind};
use crate::de::lex::collection::{lemma_tree_view, tree_kind, SpecTree, TokenTree};
use crate::de::lex::literal::{Literal, SpecLiteral};

pub use super::encode;

verus! {

broadcast use lemma_tree_view, vstd::array::group_array_axioms;

/// What decoding a tree as exactly `len` bytes gives.
pub open spec fn array_spec(t: SpecTree, len: nat) -> Result<Seq<u8>, DecodeError> {
    let err = DecodeError::Unexpected { expected: SyrupKind::Bytes { length: Some(len as usize) }, found: tree_kind(t) };
    match t {
        SpecTree::Literal(SpecLiteral::Bytes(b)) => if b.len() == len {
            Ok(b)
        } else {
            Err(err)
        },
        _ => Err(err),
    }
}

/// The bytes of a byte-string literal of exactly `LEN` bytes.
pub fn decode<const LEN: usize>(input: &TokenTree) -> (res: Result<[u8; LEN], DecodeError>)
    ensures
        match res {
            Ok(a) => array_spec(input@, LEN as nat) == Ok::<Seq<u8>, DecodeError>(a@),
            Err(e) => array_spec(input@, LEN as nat) == Err::<Seq<u8>, DecodeError>(e),
        },
{
    match input {
        TokenTree::Literal(Literal::Bytes(b)) => {
            if b.len() == LEN {
                let mut a: [u8; LEN] = [0u8; LEN];
                let mut i: usize = 0;
                while i < LEN
                    invariant
                        i <= LEN,
                        b@.len() == LEN,
                        forall|j: int| 0 <= j < i ==> a@[j] == b@[j],
                    decreases LEN - i,
                {
                    a[i] = b[i];
                    i = i + 1;
                }
                proof {
                    assert(a@ =~= b@);
                }
                Ok(a)
            } else {
                Err(DecodeError::unexpected(SyrupKind::Bytes { length: Some(LEN) }, input))
            }
        },
        _ => Err(DecodeError::unexpected(SyrupKind::Bytes { length: Some(LEN) }, input)),
    }
}

} // verus!
