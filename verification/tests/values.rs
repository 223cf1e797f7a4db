use syrup::bytes::{self, array, Bytes};
use syrup::de::lex::collection::TokenTree;
use syrup::de::lex::integer::{IntErrorKind, Int};
use syrup::de::lex::literal::Literal;
use syrup::de::{Decode, DecodeBytesError, DecodeError, DecodeFromBytes, IntDescription, IsSigned, SyrupKind};
use syrup::optional_collection;
use syrup::de::impl_decode::{dictionary_pairs, set_elements};
use syrup::ser::{Encode, EncodeIntoExt};
use syrup::symbol::{self, EncodeAsSymbol, Symbol};

#[test]
fn byte_strings() {
    let enc = bytes::encode_bytes(b"hello");
    assert_eq!(enc, b"5:hello");
    let mut w = Vec::new();
    assert_eq!(bytes::encode_into(b"hi", &mut w), 4);
    assert_eq!(w, b"2:hi");
    assert_eq!(bytes::decode_bytes(b"5:hellorest").unwrap(), (b"rest".as_slice(), b"hello".to_vec()));
    let t = bytes::encode(b"x".to_vec());
    assert_eq!(bytes::decode(&t).unwrap(), b"x".to_vec());
    assert!(matches!(bytes::decode_bytes(b"t"), Err(DecodeBytesError::Decode(DecodeError::Unexpected { .. }))));
    assert_eq!(Bytes(b"ab".to_vec()).encode_bytes(), b"2:ab");
    assert_eq!(Bytes::<Vec<u8>>::decode_bytes(b"0:").unwrap().1, Bytes(Vec::new()));
}

#[test]
fn decodes_byte_strings_of_every_length() {
    for len in [0usize, 1, 9, 10, 255, 1000] {
        let data: Vec<u8> = (0..len).map(|i| (i % 251) as u8).collect();
        let mut input = len.to_string().into_bytes();
        input.push(b':');
        input.extend_from_slice(&data);
        assert_eq!(bytes::decode_bytes(&input).unwrap(), ([].as_slice(), data));
    }
}

#[test]
fn symbols() {
    let t = symbol::encode("op:abort");
    assert_eq!(t.to_bytes(), b"8'op:abort");
    assert_eq!(symbol::decode(&t).unwrap(), "op:abort");
    assert_eq!(symbol::decode_bytes(b"3'abcX").unwrap(), (b"X".as_slice(), "abc".to_string()));
    assert!(matches!(symbol::decode_bytes(b"1'\xff"), Err(DecodeBytesError::Decode(DecodeError::InvalidUtf8))));
    assert!(matches!(
        symbol::decode_bytes(b"3\"abc"),
        Err(DecodeBytesError::Decode(DecodeError::Unexpected { expected: SyrupKind::Symbol(None), found: SyrupKind::String }))
    ));
    let s = Symbol("name".to_string());
    assert_eq!(s.as_str(), "name");
    assert_eq!(s.as_symbol_ref().as_str(), "name");
    assert_eq!(s.as_symbol_ref().as_symbol_ref(), Symbol("name"));
    assert_eq!(s.encode_bytes(), b"4'name");
    assert_eq!("x".encode_as_symbol().to_bytes(), b"1'x");
    assert_eq!(Symbol::<String>::decode_bytes(b"1'y").unwrap().1, Symbol("y".to_string()));
}

#[test]
fn optional_collections() {
    let empty: Vec<u8> = Vec::new();
    assert_eq!(optional_collection::encode(&empty).to_bytes(), b"f");
    assert_eq!(optional_collection::encode(&vec![1u8]).to_bytes(), b"[1+]");
    let (_, f) = TokenTree::parse(b"f").unwrap();
    assert_eq!(optional_collection::decode::<u8>(&f).unwrap(), Vec::<u8>::new());
    let (_, l) = TokenTree::parse(b"[3+]").unwrap();
    assert_eq!(optional_collection::decode::<u8>(&l).unwrap(), vec![3u8]);
    let (_, t) = TokenTree::parse(b"t").unwrap();
    assert!(optional_collection::decode::<u8>(&t).is_err());
}

#[test]
fn int_literals() {
    let i = Int::from_signed(-5);
    assert!(!i.positive());
    assert_eq!(i.encode(), b"5-");
    assert_eq!(i.clone().into_bytes(), b"5-");
    assert_eq!(Int::from_signed(0).encode(), b"0-");
    assert_eq!(Int::from_unsigned(0).encode(), b"0+");
    let j = Int::new(true, b"007".to_vec());
    assert_eq!(j.to_unsigned(255).unwrap(), 7);
    assert_eq!(j.digits_into().into_static().encode(), b"007+");
    assert_eq!(Int::new(true, Vec::new()).to_unsigned(10).unwrap_err().kind, IntErrorKind::Empty);
    assert_eq!(Int::from_signed(i128::MIN).to_signed(u128::MAX, i128::MAX as u128, 1u128 << 127).unwrap(), i128::MIN);
    assert_eq!(Int::from_unsigned(300).to_unsigned(255).unwrap_err().kind, IntErrorKind::PosOverflow);
}

#[test]
fn int_descriptions() {
    let d = IntDescription::describe::<i16>();
    assert!(d.signed);
    assert_eq!(d.width, 2);
    assert_eq!(IntDescription::new(false, 8), IntDescription::describe::<u64>());
    assert_eq!(u128::width(), 16);
    assert!(!usize::signed());
    assert!(matches!(SyrupKind::int_kind::<u32>(), SyrupKind::Int { desc: Some(IntDescription { signed: false, width: 4 }) }));
    assert!(matches!(
        DecodeError::int_error::<i8>(IntErrorKind::NegOverflow),
        DecodeError::ParseInt(IntDescription { signed: true, width: 1 }, IntErrorKind::NegOverflow)
    ));
    let t = TokenTree::Literal(Literal::Bool(true));
    assert!(matches!(DecodeError::unexpected(SyrupKind::String, &t), DecodeError::Unexpected { expected: SyrupKind::String, found: SyrupKind::Bool }));
}

#[test]
fn value_roundtrips() {
    for v in [0u64, 1, 9, 10, 12345, u64::MAX] {
        let mut enc = v.encode_bytes();
        enc.extend_from_slice(b"!");
        assert_eq!(u64::decode_bytes(&enc).unwrap(), (b"!".as_slice(), v));
        assert_eq!(v.encode().to_bytes(), v.encode_bytes());
    }
    for v in [0i32, -1, 1, i32::MIN, i32::MAX] {
        assert_eq!(i32::decode_bytes(&v.encode_bytes()).unwrap().1, v);
        assert_eq!(i32::decode(&v.encode()).unwrap(), v);
    }
    let s = String::from("héllo");
    assert_eq!(String::decode_bytes(&s.encode_bytes()).unwrap().1, s);
    assert_eq!("héllo".encode_bytes(), s.encode_bytes());
    assert_eq!(bool::decode(&true.encode()).unwrap(), true);
    let v = vec![vec![1u16, 2], vec![]];
    assert_eq!(Vec::<Vec<u16>>::decode_bytes(&v.encode_bytes()).unwrap().1, v);
    assert_eq!(Vec::<Vec<u16>>::decode(&v.encode()).unwrap(), v);
    assert_eq!(Option::<u8>::decode(&Some(4u8).encode()).unwrap(), Some(4));
    assert_eq!(Option::<u8>::decode(&None::<u8>.encode()).unwrap(), None);
}

#[test]
fn vec_decode_reports_the_first_error() {
    match Vec::<u8>::decode_bytes(b"[1+300+t]") {
        Err(DecodeBytesError::Decode(DecodeError::ParseInt(_, k))) => assert_eq!(k, IntErrorKind::PosOverflow),
        other => panic!("unexpected {:?}", other),
    }
    assert!(matches!(
        <()>::decode_bytes(b"[1+]"),
        Err(DecodeBytesError::Decode(DecodeError::Unexpected { expected: SyrupKind::List { length: Some(0) }, found: SyrupKind::List { length: Some(1) } }))
    ));
}

#[test]
fn decodes_fixed_length_bytes() {
    let t = array::encode(b"abc".to_vec());
    assert_eq!(array::decode::<3>(&t).unwrap(), *b"abc");
    match array::decode::<4>(&t) {
        Err(DecodeError::Unexpected { expected: SyrupKind::Bytes { length: Some(4) }, .. }) => {}
        other => panic!("unexpected {:?}", other),
    }
    assert!(array::decode::<3>(&bytes::encode(Vec::new())).is_err());
    assert_eq!(array::decode::<0>(&bytes::encode(Vec::new())).unwrap(), [0u8; 0]);
    let key = [7u8; 32];
    assert_eq!(array::decode::<32>(&bytes::encode(key.to_vec())).unwrap(), key);
    assert!(array::decode::<1>(&symbol::encode("a")).is_err());
}

#[test]
fn option_of_false_reads_back_as_none() {
    assert_eq!(Some(false).encode().to_bytes(), b"f".to_vec());
    assert_eq!(Option::<bool>::decode(&Some(false).encode()).unwrap(), None);
    assert_eq!(Option::<bool>::decode(&Some(true).encode()).unwrap(), Some(true));
}

#[test]
fn nested_collections_round_trip() {
    let v: Vec<Vec<u32>> = vec![vec![1, 2], vec![], vec![3]];
    let t = v.encode();
    assert_eq!(t.to_bytes(), b"[[1+2+][][3+]]".to_vec());
    assert_eq!(Vec::<Vec<u32>>::decode(&t).unwrap(), v);
    let o: Vec<String> = vec!["a".to_owned(), "bc".to_owned()];
    assert_eq!(optional_collection::decode::<String>(&optional_collection::encode(&o)).unwrap(), o);
    let s = Symbol("op:abort".to_owned());
    assert_eq!(Symbol::<String>::decode(&s.encode()).unwrap().0, "op:abort");
}

#[test]
fn decodes_set_elements_and_dictionary_pairs() {
    let set = TokenTree::parse(b"#1+2+$").unwrap().1;
    assert_eq!(set_elements::<u8>(&set).unwrap(), vec![1u8, 2]);
    assert!(matches!(set_elements::<u8>(&TokenTree::parse(b"[1+]").unwrap().1), Err(DecodeError::Unexpected { .. })));
    let dict = TokenTree::parse(b"{1\"a1+1\"b2+}").unwrap().1;
    assert_eq!(dictionary_pairs::<String, u32>(&dict).unwrap(), vec![("a".to_owned(), 1u32), ("b".to_owned(), 2)]);
    let bad = TokenTree::parse(b"{1\"a1-}").unwrap().1;
    assert!(matches!(dictionary_pairs::<String, u32>(&bad), Err(DecodeError::ParseInt(..))));
    assert!(matches!(dictionary_pairs::<String, u32>(&set), Err(DecodeError::Unexpected { .. })));
}

#[test]
fn decodes_into_smart_pointers() {
    assert_eq!(*Box::<u8>::decode(&7u8.encode()).unwrap(), 7);
    assert_eq!(*std::rc::Rc::<String>::decode(&"x".encode()).unwrap(), "x");
    assert!(*std::sync::Arc::<bool>::decode(&true.encode()).unwrap());
    assert!(Box::<u8>::decode(&true.encode()).is_err());
}

#[test]
fn slices_encode_as_lists() {
    let v = [1u8, 2, 3];
    let s: &[u8] = &v;
    assert_eq!(s.encode().to_bytes(), b"[1+2+3+]".to_vec());
    assert_eq!(s.encode_bytes(), b"[1+2+3+]".to_vec());
    let words: &[String] = &["a".to_owned()];
    assert_eq!(words.encode_bytes(), b"[1\"a]".to_vec());
}
