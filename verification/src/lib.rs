//! Syrup: a binary serialization format used by OCapN, with a verified
//! lexer, encoder and value decoders.

pub mod bytes;
pub mod captp;
pub mod de;
pub mod locator;
pub mod optional_collection;
pub mod ser;
pub mod symbol;
pub mod text;

pub use de::cursor::{Cursor, CursorError, Needed};
pub use de::{Decode, DecodeError, TokenTree};
pub use ser::{Encode, EncodeInto, EncodeIntoExt};

use vstd::prelude::*;

verus! {

/// The version of CapTP that sessions speak.
pub const CAPTP_VERSION: &'static str = "1.0";

} // verus!
