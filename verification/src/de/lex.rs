//! The Syrup lexer and encoder.

pub mod collection;
pub mod integer;
pub mod literal;
pub mod order;
pub mod roundtrip;

pub use collection::{Dictionary, List, Record, TokenSet, TokenTree};
pub use literal::Literal;
