//! Lexing and decoding of Syrup data.

pub mod cursor;
pub mod error;
pub mod group;
pub mod impl_decode;
pub mod lex;
pub mod non_zero;
pub mod tokens;
pub mod value_roundtrip;

pub use error::{DecodeBytesError, DecodeError, IntDescription, IsSigned, SyrupKind};
pub use lex::{Dictionary, List, Literal, Record, TokenSet, TokenTree};
pub use impl_decode::{Decode, DecodeFromBytes};
pub use group::Delimiter;
pub use non_zero::{Integer, NonZero};
