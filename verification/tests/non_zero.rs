use syrup::de::lex::integer::IntErrorKind;
use syrup::de::{DecodeBytesError, DecodeError, DecodeFromBytes, IntDescription, NonZero};
use syrup::ser::EncodeIntoExt;

#[test]
fn decodes_non_zero_unsigned() {
    let (rest, v) = NonZero::<u8>::decode_bytes(b"5+rest").unwrap();
    assert_eq!(rest, b"rest");
    assert_eq!(v.get(), 5u8);
    assert_eq!(NonZero::<u128>::decode_bytes(b"340282366920938463463374607431768211455+").unwrap().1.get(), u128::MAX);
    assert_eq!(NonZero::<usize>::decode_bytes(b"1+").unwrap().1.get(), 1usize);
}

#[test]
fn decodes_non_zero_signed() {
    assert_eq!(NonZero::<i8>::decode_bytes(b"128-").unwrap().1.get(), i8::MIN);
    assert_eq!(NonZero::<i8>::decode_bytes(b"127+").unwrap().1.get(), i8::MAX);
    assert_eq!(NonZero::<i64>::decode_bytes(b"42-").unwrap().1.get(), -42i64);
    assert_eq!(NonZero::<isize>::decode_bytes(b"7+").unwrap().1.get(), 7isize);
}

#[test]
fn zero_is_refused() {
    for input in [b"0+".as_slice(), b"0-".as_slice()] {
        match NonZero::<i32>::decode_bytes(input) {
            Err(DecodeBytesError::Decode(DecodeError::ParseInt(d, k))) => {
                assert!(d.signed);
                assert_eq!(d.width, 4);
                assert_eq!(k, IntErrorKind::Zero);
            }
            other => panic!("unexpected {:?}", other),
        }
    }
    match NonZero::<u16>::decode_bytes(b"0+") {
        Err(DecodeBytesError::Decode(DecodeError::ParseInt(d, k))) => {
            assert!(!d.signed);
            assert_eq!(d.width, 2);
            assert_eq!(k, IntErrorKind::Zero);
        }
        other => panic!("unexpected {:?}", other),
    }
    match NonZero::<u16>::decode_bytes(b"0-") {
        Err(DecodeBytesError::Decode(DecodeError::ParseInt(_, k))) => assert_eq!(k, IntErrorKind::NegOverflow),
        other => panic!("unexpected {:?}", other),
    }
    match NonZero::<u8>::decode_bytes(b"256+") {
        Err(DecodeBytesError::Decode(DecodeError::ParseInt(_, k))) => assert_eq!(k, IntErrorKind::PosOverflow),
        other => panic!("unexpected {:?}", other),
    }
}

#[test]
fn non_zero_new_and_roundtrip() {
    assert!(NonZero::new(0u32).is_none());
    let v = NonZero::new(300u32).unwrap();
    assert_eq!(v.get(), 300);
    let bytes = v.encode_bytes();
    assert_eq!(bytes, b"300+");
    let (rest, back) = NonZero::<u32>::decode_bytes(&bytes).unwrap();
    assert!(rest.is_empty());
    assert_eq!(back, v);
    let n = NonZero::new(-9i16).unwrap();
    assert_eq!(n.encode_bytes(), b"9-");
    assert_eq!(NonZero::<i16>::decode_bytes(&n.encode_bytes()).unwrap().1, n);
}

#[test]
fn describes_non_zero_types() {
    assert_eq!(IntDescription::describe::<NonZero<u16>>(), IntDescription::new(false, 2));
    assert_eq!(IntDescription::describe::<NonZero<i64>>(), IntDescription::new(true, 8));
}
