//! Percent-encoding of URI components: which bytes each component keeps as
//! they are, and how the others are written as `%` and two hexadecimal
//! digits.

use vstd::prelude::*;
use vstd::utf8::{decode_utf8, encode_scalar, encode_utf8, valid_utf8};

verus! {

/// `ALPHA`: an ASCII letter.
pub open spec fn is_alpha(b: u8) -> bool {
    (0x41 <= b <= 0x5a) || (0x61 <= b <= 0x7a)
}

/// `DIGIT`: an ASCII decimal digit.
pub open spec fn is_decimal(b: u8) -> bool {
    0x30 <= b <= 0x39
}

/// `unreserved`: a letter, a digit, `-`, `.`, `_` or `~`.
pub open spec fn is_unreserved(b: u8) -> bool {
    is_alpha(b) || is_decimal(b) || b == 0x2d || b == 0x2e || b == 0x5f || b == 0x7e
}

/// `sub-delims`: one of `!$&'()*+,;=`.
pub open spec fn is_sub_delim(b: u8) -> bool {
    b == 0x21 || b == 0x24 || b == 0x26 || b == 0x27 || b == 0x28 || b == 0x29 || b == 0x2a || b == 0x2b
        || b == 0x2c || b == 0x3b || b == 0x3d
}

/// The bytes a registered name keeps: unreserved and sub-delims.
pub open spec fn reg_name_keeps(b: u8) -> bool {
    is_unreserved(b) || is_sub_delim(b)
}

/// The bytes a userinfo keeps: those of a registered name and `:`.
pub open spec fn userinfo_keeps(b: u8) -> bool {
    reg_name_keeps(b) || b == 0x3a
}

/// `pchar`: the bytes of a registered name, `:` and `@`.
pub open spec fn pchar_keeps(b: u8) -> bool {
    reg_name_keeps(b) || b == 0x3a || b == 0x40
}

/// The bytes a path keeps: `pchar` and `/`.
pub open spec fn path_keeps(b: u8) -> bool {
    pchar_keeps(b) || b == 0x2f
}

/// The bytes a query keeps: `pchar`, `/` and `?`.
pub open spec fn query_keeps(b: u8) -> bool {
    pchar_keeps(b) || b == 0x2f || b == 0x3f
}

/// The bytes a query keeps, as a function.
pub open spec fn query_table() -> spec_fn(u8) -> bool {
    |b: u8| query_keeps(b)
}

/// The uppercase hexadecimal digit of a value below 16.
pub open spec fn hex_char(n: int) -> char {
    if n < 10 {
        (0x30 + n) as char
    } else {
        (0x37 + n) as char
    }
}

/// One byte, kept where `keeps` allows it, else `%` and its two uppercase
/// hexadecimal digits.
pub open spec fn encode_byte(keeps: spec_fn(u8) -> bool, b: u8) -> Seq<char> {
    if keeps(b) {
        seq![b as char]
    } else {
        seq!['%', hex_char(b as int / 16), hex_char(b as int % 16)]
    }
}

/// The bytes percent-encoded one by one.
pub open spec fn percent_encode(keeps: spec_fn(u8) -> bool, b: Seq<u8>) -> Seq<char>
    decreases b.len(),
{
    if b.len() == 0 {
        Seq::empty()
    } else {
        encode_byte(keeps, b[0]) + percent_encode(keeps, b.drop_first())
    }
}

/// `HEXDIG`, in either case.
pub open spec fn is_hex(b: u8) -> bool {
    is_decimal(b) || (0x41 <= b <= 0x46) || (0x61 <= b <= 0x66)
}

/// The value of a hexadecimal digit.
pub open spec fn hex_value(b: u8) -> int {
    if is_decimal(b) {
        b - 0x30
    } else if 0x41 <= b <= 0x46 {
        b - 0x37
    } else {
        b - 0x57
    }
}

/// Every byte is kept by `keeps`, or is a `%` followed by two hexadecimal
/// digits.
pub open spec fn properly_encoded(keeps: spec_fn(u8) -> bool, b: Seq<u8>) -> bool
    decreases b.len(),
{
    if b.len() == 0 {
        true
    } else if b[0] == 0x25 {
        b.len() >= 3 && is_hex(b[1]) && is_hex(b[2]) && properly_encoded(keeps, b.skip(3))
    } else {
        keeps(b[0]) && properly_encoded(keeps, b.drop_first())
    }
}

/// Each `%` and the two digits after it turned back into the byte they
/// write; other bytes kept.
pub open spec fn percent_decode(b: Seq<u8>) -> Seq<u8>
    decreases b.len(),
{
    if b.len() == 0 {
        Seq::empty()
    } else if b[0] == 0x25 && b.len() >= 3 {
        seq![(hex_value(b[1]) * 16 + hex_value(b[2])) as u8] + percent_decode(b.skip(3))
    } else {
        seq![b[0]] + percent_decode(b.drop_first())
    }
}

/// The text that a properly encoded query-like text encodes, where that is
/// UTF-8.
pub open spec fn query_text_decoded(s: Seq<char>) -> Option<Seq<char>> {
    let b = encode_utf8(s);
    if properly_encoded(query_table(), b) && valid_utf8(percent_decode(b)) {
        Some(decode_utf8(percent_decode(b)))
    } else {
        None
    }
}

/// The byte of an uppercase hexadecimal digit of a value below 16.
spec fn hex_byte(n: int) -> u8 {
    if n < 10 {
        (0x30 + n) as u8
    } else {
        (0x37 + n) as u8
    }
}

/// One byte percent-encoded, as bytes.
spec fn encoded_byte(keeps: spec_fn(u8) -> bool, x: u8) -> Seq<u8> {
    if keeps(x) {
        seq![x]
    } else {
        seq![0x25u8, hex_byte(x as int / 16), hex_byte(x as int % 16)]
    }
}

/// Bytes percent-encoded, as bytes.
spec fn encoded_bytes(keeps: spec_fn(u8) -> bool, b: Seq<u8>) -> Seq<u8>
    decreases b.len(),
{
    if b.len() == 0 {
        Seq::empty()
    } else {
        encoded_byte(keeps, b[0]) + encoded_bytes(keeps, b.drop_first())
    }
}

/// The table keeps only ASCII bytes, and never `%`.
spec fn keeps_ascii(keeps: spec_fn(u8) -> bool) -> bool {
    forall|x: u8| #[trigger] keeps(x) ==> x < 0x80 && x != 0x25
}

/// The UTF-8 encoding of an ASCII character is its code.
proof fn lemma_ascii_char(c: char)
    requires
        (c as u32) < 0x80,
    ensures
        encode_utf8(seq![c]) == seq![(c as u32) as u8],
{
    let v = c as u32;
    assert((v & 0x7F) as u8 == v as u8) by (bit_vector)
        requires
            v < 0x80,
    ;
    assert(seq![c].drop_first() =~= Seq::<char>::empty());
    assert(encode_utf8(seq![c]) =~= encode_scalar(v) + encode_utf8(Seq::<char>::empty()));
}

/// Encoding a concatenation encodes its parts.
proof fn lemma_encode_utf8_concat(a: Seq<char>, b: Seq<char>)
    ensures
        encode_utf8(a + b) == encode_utf8(a) + encode_utf8(b),
    decreases a.len(),
{
    if a.len() == 0 {
        assert(a + b =~= b);
        assert(encode_utf8(a) + encode_utf8(b) =~= encode_utf8(b));
    } else {
        assert((a + b).drop_first() =~= a.drop_first() + b);
        assert((a + b)[0] == a[0]);
        lemma_encode_utf8_concat(a.drop_first(), b);
        let e = encode_scalar(a[0] as u32);
        assert(e + (encode_utf8(a.drop_first()) + encode_utf8(b)) =~= (e + encode_utf8(a.drop_first())) + encode_utf8(b));
    }
}

proof fn lemma_hex(n: int)
    requires
        0 <= n < 16,
    ensures
        (hex_char(n) as u32) as u8 == hex_byte(n),
        (hex_char(n) as u32) < 0x80,
        is_hex(hex_byte(n)),
        hex_value(hex_byte(n)) == n,
{
}

/// The characters of a percent-encoding are the bytes of its UTF-8
/// encoding.
proof fn lemma_encoded_utf8(keeps: spec_fn(u8) -> bool, b: Seq<u8>)
    requires
        keeps_ascii(keeps),
    ensures
        encode_utf8(percent_encode(keeps, b)) == encoded_bytes(keeps, b),
    decreases b.len(),
{
    if b.len() > 0 {
        let x = b[0];
        lemma_encoded_utf8(keeps, b.drop_first());
        lemma_encode_utf8_concat(encode_byte(keeps, x), percent_encode(keeps, b.drop_first()));
        if keeps(x) {
            lemma_ascii_char(x as char);
        } else {
            let h = x as int / 16;
            let l = x as int % 16;
            lemma_hex(h);
            lemma_hex(l);
            lemma_ascii_char('%');
            lemma_ascii_char(hex_char(h));
            lemma_ascii_char(hex_char(l));
            assert(encode_byte(keeps, x) =~= seq!['%'] + seq![hex_char(h)] + seq![hex_char(l)]);
            lemma_encode_utf8_concat(seq!['%'] + seq![hex_char(h)], seq![hex_char(l)]);
            lemma_encode_utf8_concat(seq!['%'], seq![hex_char(h)]);
            assert(encode_utf8(encode_byte(keeps, x)) =~= encoded_byte(keeps, x));
        }
    }
}

/// Percent-encoded bytes are properly encoded, and decode back.
proof fn lemma_encoded_decodes(keeps: spec_fn(u8) -> bool, b: Seq<u8>)
    requires
        keeps_ascii(keeps),
    ensures
        properly_encoded(keeps, encoded_bytes(keeps, b)),
        percent_decode(encoded_bytes(keeps, b)) == b,
    decreases b.len(),
{
    if b.len() == 0 {
        assert(encoded_bytes(keeps, b) =~= Seq::<u8>::empty());
        assert(b =~= Seq::<u8>::empty());
    } else {
        let x = b[0];
        let r = encoded_bytes(keeps, b.drop_first());
        let e = encoded_bytes(keeps, b);
        lemma_encoded_decodes(keeps, b.drop_first());
        if keeps(x) {
            assert(e =~= seq![x] + r);
            assert(e.drop_first() =~= r);
            assert(seq![x] + b.drop_first() =~= b);
        } else {
            let h = x as int / 16;
            let l = x as int % 16;
            lemma_hex(h);
            lemma_hex(l);
            assert(e =~= seq![0x25u8, hex_byte(h), hex_byte(l)] + r);
            assert(e.skip(3) =~= r);
            assert(h * 16 + l == x);
            assert(seq![x] + b.drop_first() =~= b);
        }
    }
}

/// Decoding a query-encoded text gives the text back.
pub proof fn lemma_query_text_roundtrip(s: Seq<char>)
    ensures
        query_text_decoded(percent_encode(query_table(), encode_utf8(s))) == Some(s),
{
    let b = encode_utf8(s);
    assert(keeps_ascii(query_table()));
    lemma_encoded_utf8(query_table(), b);
    lemma_encoded_decodes(query_table(), b);
    vstd::utf8::encode_utf8_valid_utf8(s);
    vstd::utf8::encode_utf8_decode_utf8(s);
}

} // verus!
