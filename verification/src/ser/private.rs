//! The sealing traits: implemented for every `Encode` and `EncodeInto`
//! type, and for no other.

use vstd::prelude::*;

use crate::ser::{Encode, EncodeInto};

verus! {

pub trait EncodeSealed {}

pub trait EncodeIntoSealed {}

impl<T: Encode + ?Sized> EncodeSealed for T {}

impl<T: EncodeInto + ?Sized> EncodeIntoSealed for T {}

} // verus!
