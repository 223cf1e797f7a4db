use syrup::de::{DecodeBytesError, DecodeError, DecodeFromBytes, SyrupKind};
use syrup::ser::EncodeIntoExt;
use syrup::{CursorError, Needed};

#[test]
fn decodes_bools() -> Result<(), DecodeBytesError> {
    assert_eq!(bool::decode_bytes(b"t")?, ([].as_slice(), true));
    assert_eq!(bool::decode_bytes(b"f")?, ([].as_slice(), false));
    Ok(())
}

#[test]
fn encodes_bools() {
    assert_eq!(true.encode_bytes(), b"t");
    assert_eq!(false.encode_bytes(), b"f");
}

#[test]
fn decodes_ints_and_leaves_the_rest() {
    assert_eq!(u8::decode_bytes(b"255+rest").unwrap(), (b"rest".as_slice(), 255u8));
    assert_eq!(i8::decode_bytes(b"128-").unwrap(), ([].as_slice(), -128i8));
    assert_eq!(i64::decode_bytes(b"0-").unwrap(), ([].as_slice(), 0i64));
    assert_eq!(u64::decode_bytes(b"18446744073709551615+").unwrap().1, u64::MAX);
}

#[test]
fn int_errors() {
    match u8::decode_bytes(b"256+") {
        Err(DecodeBytesError::Decode(DecodeError::ParseInt(d, k))) => {
            assert!(!d.signed);
            assert_eq!(d.width, 1);
            assert_eq!(k, syrup::de::lex::integer::IntErrorKind::PosOverflow);
        }
        other => panic!("unexpected {:?}", other),
    }
    match u8::decode_bytes(b"1-") {
        Err(DecodeBytesError::Decode(DecodeError::ParseInt(_, k))) => {
            assert_eq!(k, syrup::de::lex::integer::IntErrorKind::NegOverflow);
        }
        other => panic!("unexpected {:?}", other),
    }
    match i8::decode_bytes(b"129-") {
        Err(DecodeBytesError::Decode(DecodeError::ParseInt(d, k))) => {
            assert!(d.signed);
            assert_eq!(k, syrup::de::lex::integer::IntErrorKind::NegOverflow);
        }
        other => panic!("unexpected {:?}", other),
    }
    match i8::decode_bytes(b"300+") {
        Err(DecodeBytesError::Decode(DecodeError::ParseInt(_, k))) => {
            assert_eq!(k, syrup::de::lex::integer::IntErrorKind::PosOverflow);
        }
        other => panic!("unexpected {:?}", other),
    }
}

#[test]
fn wrong_kind_is_unexpected() {
    match bool::decode_bytes(b"3:abc") {
        Err(DecodeBytesError::Decode(DecodeError::Unexpected { expected, found })) => {
            assert!(matches!(expected, SyrupKind::Bool));
            assert!(matches!(found, SyrupKind::Bytes { length: Some(3) }));
        }
        other => panic!("unexpected {:?}", other),
    }
}

#[test]
fn lex_errors() {
    match bool::decode_bytes(b"") {
        Err(DecodeBytesError::Lex(CursorError::Incomplete { needed: Needed::Size(1) })) => {}
        other => panic!("unexpected {:?}", other),
    }
    match bool::decode_bytes(b"]") {
        Err(DecodeBytesError::Lex(CursorError::Error)) => {}
        other => panic!("unexpected {:?}", other),
    }
    match u8::decode_bytes(b"12") {
        Err(DecodeBytesError::Lex(CursorError::Incomplete { needed: Needed::Unknown })) => {}
        other => panic!("unexpected {:?}", other),
    }
}

#[test]
fn decodes_strings_and_lists() {
    assert_eq!(String::decode_bytes(b"5\"hello").unwrap().1, "hello");
    match String::decode_bytes(b"1\"\xff") {
        Err(DecodeBytesError::Decode(DecodeError::InvalidUtf8)) => {}
        other => panic!("unexpected {:?}", other),
    }
    assert_eq!(Vec::<u8>::decode_bytes(b"[1+2+3+]").unwrap().1, vec![1u8, 2, 3]);
    assert_eq!(<()>::decode_bytes(b"[]").unwrap().1, ());
    assert_eq!(Option::<u8>::decode_bytes(b"f").unwrap().1, None);
    assert_eq!(Option::<u8>::decode_bytes(b"7+").unwrap().1, Some(7u8));
}

#[test]
fn encodes_values() {
    assert_eq!(0u8.encode_bytes(), b"0+");
    assert_eq!(0i32.encode_bytes(), b"0-");
    assert_eq!((-42i64).encode_bytes(), b"42-");
    assert_eq!(42i64.encode_bytes(), b"42+");
    assert_eq!(String::from("hi").encode_bytes(), b"2\"hi");
    assert_eq!(vec![1u8, 2u8].encode_bytes(), b"[1+2+]");
}
