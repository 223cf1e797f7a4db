//! The delimiters of collections.

use vstd::prelude::*;

verus! {

/// The pair of bytes around a collection.
#[derive(Debug, Clone, Copy, PartialEq, Eq, Structural)]
pub enum Delimiter {
    /// `{ ... }` (dictionaries)
    Curly,
    /// `[ ... ]` (lists)
    Square,
    /// `< ... >` (records)
    Angle,
    /// `# ... $` (sets)
    HashDollar,
}

/// The opening byte of a delimiter.
pub open spec fn open_byte(d: Delimiter) -> u8 {
    match d {
        Delimiter::Curly => 0x7b,
        Delimiter::Square => 0x5b,
        Delimiter::Angle => 0x3c,
        Delimiter::HashDollar => 0x23,
    }
}

/// The closing byte of a delimiter.
pub open spec fn close_byte(d: Delimiter) -> u8 {
    match d {
        Delimiter::Curly => 0x7d,
        Delimiter::Square => 0x5d,
        Delimiter::Angle => 0x3e,
        Delimiter::HashDollar => 0x24,
    }
}

impl Delimiter {
    /// The byte that opens the group.
    pub fn open(&self) -> (res: u8)
        ensures
            res == open_byte(*self),
    {
        match self {
            Delimiter::Curly => 0x7bu8,
            Delimiter::Square => 0x5bu8,
            Delimiter::Angle => 0x3cu8,
            Delimiter::HashDollar => 0x23u8,
        }
    }

    /// The byte that closes the group.
    pub fn close(&self) -> (res: u8)
        ensures
            res == close_byte(*self),
    {
        match self {
            Delimiter::Curly => 0x7du8,
            Delimiter::Square => 0x5du8,
            Delimiter::Angle => 0x3eu8,
            Delimiter::HashDollar => 0x24u8,
        }
    }

    /// The delimiter that `byte` opens, if any.
    pub fn from_open(byte: u8) -> (res: Option<Self>)
        ensures
            match res {
                Some(d) => open_byte(d) == byte,
                None => forall|d: Delimiter| open_byte(d) != byte,
            },
    {
        match byte {
            0x7bu8 => Some(Self::Curly),
            0x3cu8 => Some(Self::Angle),
            0x5bu8 => Some(Self::Square),
            0x23u8 => Some(Self::HashDollar),
            _ => None,
        }
    }

    /// The delimiter that `byte` closes, if any.
    pub fn from_close(byte: u8) -> (res: Option<Self>)
        ensures
            match res {
                Some(d) => close_byte(d) == byte,
                None => forall|d: Delimiter| close_byte(d) != byte,
            },
    {
        match byte {
            0x7du8 => Some(Self::Curly),
            0x3eu8 => Some(Self::Angle),
            0x5du8 => Some(Self::Square),
            0x24u8 => Some(Self::HashDollar),
            _ => None,
        }
    }
}

/// A delimiter's bytes identify it: `from_open` and `from_close` undo `open`
/// and `close`.
pub proof fn lemma_delimiter_bytes(d: Delimiter, e: Delimiter)
    ensures
        open_byte(d) == open_byte(e) ==> d == e,
        close_byte(d) == close_byte(e) ==> d == e,
        open_byte(d) != close_byte(e),
{
}

} // verus!
