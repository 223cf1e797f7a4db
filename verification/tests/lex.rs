use syrup::de::lex::collection::{Dictionary, List, Record, TokenSet, TokenTree};
use syrup::de::lex::integer::Int;
use syrup::de::lex::literal::{bool_literal, bytes_literal, string_literal, symbol_literal, Literal};
use syrup::de::lex::order::{dict_encoded_entries, set_encoded_entries};
use syrup::de::{Decode, DecodeError, Delimiter, SyrupKind};
use syrup::{CursorError, Needed};

fn int_tree(n: u64) -> TokenTree {
    TokenTree::Literal(Literal::Int(Int::from_unsigned(n as u128)))
}

fn bytes(b: &[u8]) -> TokenTree {
    TokenTree::Literal(Literal::Bytes(b.to_vec()))
}

#[test]
fn lexes_each_literal() {
    let (rest, t) = TokenTree::parse(b"t").unwrap();
    assert!(rest.is_empty());
    assert!(matches!(t, TokenTree::Literal(Literal::Bool(true))));
    let (_, t) = TokenTree::parse(b"F\x3f\x80\x00\x00").unwrap();
    assert!(matches!(t, TokenTree::Literal(Literal::F32(0x3f80_0000))));
    let (_, t) = TokenTree::parse(b"D\x3f\xf0\x00\x00\x00\x00\x00\x00").unwrap();
    assert!(matches!(t, TokenTree::Literal(Literal::F64(0x3ff0_0000_0000_0000))));
    let (_, t) = TokenTree::parse(b"42-").unwrap();
    match t {
        TokenTree::Literal(Literal::Int(i)) => {
            assert!(!i.positive());
            assert_eq!(i.digits(), b"42");
        }
        _ => panic!("not an int"),
    }
    let (_, t) = TokenTree::parse(b"3:abc").unwrap();
    assert!(matches!(t, TokenTree::Literal(Literal::Bytes(ref b)) if b == b"abc"));
    let (_, t) = TokenTree::parse(b"3\"abc").unwrap();
    assert!(matches!(t, TokenTree::Literal(Literal::String(ref b)) if b == b"abc"));
    let (_, t) = TokenTree::parse(b"3'abc").unwrap();
    assert!(matches!(t, TokenTree::Literal(Literal::Symbol(ref b)) if b == b"abc"));
}

#[test]
fn literal_functions() {
    assert_eq!(bool_literal(b"f!").unwrap(), (b"!".as_slice(), false));
    assert_eq!(bool_literal(b"x"), Err(CursorError::Error));
    assert_eq!(bool_literal(b""), Err(CursorError::Incomplete { needed: Needed::Size(1) }));
    assert_eq!(bytes_literal(b"2:hi").unwrap(), (b"".as_slice(), b"hi".to_vec()));
    assert_eq!(string_literal(b"2\"hi").unwrap().1, b"hi".to_vec());
    assert_eq!(symbol_literal(b"2'hi").unwrap().1, b"hi".to_vec());
    assert_eq!(bytes_literal(b"5:hi"), Err(CursorError::Incomplete { needed: Needed::Size(3) }));
    assert_eq!(bytes_literal(b"2\"hi"), Err(CursorError::Error));
}

#[test]
fn lexes_collections() {
    let (rest, t) = TokenTree::parse(b"[1+<3'foo2+>#t$]tail").unwrap();
    assert_eq!(rest, b"tail");
    match &t {
        TokenTree::List(l) => {
            assert_eq!(l.elements.len(), 3);
            assert!(matches!(l.elements[1], TokenTree::Record(_)));
            assert!(matches!(&l.elements[2], TokenTree::SetOf(s) if s.len() == 1));
        }
        _ => panic!("not a list"),
    }
    let (_, d) = TokenTree::parse(b"{1:a1+1:b2+}").unwrap();
    assert!(matches!(&d, TokenTree::Dictionary(d) if d.len() == 2));
}

#[test]
fn streaming_prefixes_are_incomplete() {
    let full = b"[1+<3'foo2+>{1:a1+}]";
    for n in 0..full.len() {
        match TokenTree::parse(&full[..n]) {
            Err(CursorError::Incomplete { .. }) => {}
            other => panic!("prefix {} gave {:?}", n, other.map(|(r, _)| r.len())),
        }
    }
    assert!(TokenTree::parse(full).is_ok());
}

#[test]
fn closing_bytes_are_errors() {
    for b in [b"]", b">", b"$", b"}"] {
        assert_eq!(TokenTree::parse(b).unwrap_err(), CursorError::Error);
    }
    assert_eq!(TokenTree::parse(b"[1+}").unwrap_err(), CursorError::Error);
    assert_eq!(TokenTree::parse(b"[1+").unwrap_err(), CursorError::Incomplete { needed: Needed::Size(1) });
    assert_eq!(TokenTree::parse(b"[12").unwrap_err(), CursorError::Incomplete { needed: Needed::Unknown });
}

#[test]
fn sets_sort_and_drop_duplicates() {
    let set = TokenSet::new(vec![int_tree(2), int_tree(10), int_tree(2), bytes(b"a")]);
    assert_eq!(set.len(), 4);
    assert_eq!(set.encode(), b"#10+1:a2+$");
    let mut w = Vec::new();
    assert_eq!(set.encode_into(&mut w), 10);
    assert_eq!(w, b"#10+1:a2+$");
}

#[test]
fn dictionaries_sort_keys_and_keep_the_first() {
    let dict = Dictionary::new(vec![
        (int_tree(2), bytes(b"x")),
        (int_tree(1), bytes(b"y")),
        (int_tree(2), bytes(b"z")),
    ]);
    assert_eq!(dict.len(), 3);
    assert!(!dict.is_empty());
    assert_eq!(dict.encode(), b"{1+1:y2+1:x}");
}

#[test]
fn encodes_lists_and_records() {
    let list = List::new(vec![int_tree(1), TokenTree::Literal(Literal::Bool(false))]);
    assert_eq!(list.encode(), b"[1+f]");
    let rec = Record::new(TokenTree::Literal(Literal::Symbol(b"op".to_vec())), vec![int_tree(7)]);
    assert_eq!(rec.encode(), b"<2'op7+>");
    let tree = TokenTree::Record(Box::new(rec));
    let mut w = b"pre".to_vec();
    assert_eq!(tree.write_bytes(&mut w), 8);
    assert_eq!(w, b"pre<2'op7+>");
}

#[test]
fn parse_encode_roundtrip() {
    let tree = TokenTree::SetOf(TokenSet::new(vec![
        int_tree(3),
        TokenTree::Dictionary(Dictionary::new(vec![(bytes(b"k"), int_tree(1)), (bytes(b"a"), int_tree(2))])),
        int_tree(3),
    ]));
    let bytes_ = tree.to_bytes();
    let mut input = bytes_.clone();
    input.extend_from_slice(b"more");
    let (rest, back) = TokenTree::parse(&input).unwrap();
    assert_eq!(rest, b"more");
    assert_eq!(back.to_bytes(), bytes_);
    assert_eq!(tree.deep_clone().to_bytes(), bytes_);
}

#[test]
fn sorting_helpers() {
    let (total, sorted) = set_encoded_entries(vec![b"b".to_vec(), b"a".to_vec(), b"b".to_vec()]);
    assert_eq!(total, 3);
    assert_eq!(sorted, vec![b"a".to_vec(), b"b".to_vec()]);
    let (total, pairs) = dict_encoded_entries(vec![
        (b"k".to_vec(), b"1".to_vec()),
        (b"a".to_vec(), b"22".to_vec()),
        (b"k".to_vec(), b"3".to_vec()),
    ]);
    assert_eq!(total, 7);
    assert_eq!(pairs, vec![(b"a".to_vec(), b"22".to_vec()), (b"k".to_vec(), b"1".to_vec())]);
}

#[test]
fn delimiters() {
    for d in [Delimiter::Curly, Delimiter::Square, Delimiter::Angle, Delimiter::HashDollar] {
        assert_eq!(Delimiter::from_open(d.open()), Some(d));
        assert_eq!(Delimiter::from_close(d.close()), Some(d));
    }
    assert_eq!(Delimiter::HashDollar.open(), b'#');
    assert_eq!(Delimiter::HashDollar.close(), b'$');
    assert_eq!(Delimiter::from_open(b'x'), None);
    assert_eq!(Delimiter::from_close(b'['), None);
}

#[test]
fn kinds() {
    let (_, t) = TokenTree::parse(b"[1+2+]").unwrap();
    assert!(matches!(t.kind(), SyrupKind::List { length: Some(2) }));
    let (_, t) = TokenTree::parse(b"2:ab").unwrap();
    assert!(matches!(t.kind(), SyrupKind::Bytes { length: Some(2) }));
    let (_, t) = TokenTree::parse(b"{}").unwrap();
    assert!(matches!(t.kind(), SyrupKind::Dictionary));
}

#[test]
fn trees_compare_by_encoding() {
    let a = TokenTree::parse(b"#1+2+$").unwrap().1;
    let b = TokenTree::SetOf(TokenSet::new(vec![int_tree(2), int_tree(1), int_tree(2)]));
    assert!(a == b);
    let c = TokenTree::parse(b"[1+2+]").unwrap().1;
    let d = TokenTree::parse(b"[2+1+]").unwrap().1;
    assert!(c != d);
    assert!(a != c);
    let e = TokenTree::parse(b"{1:a1+1:b2+}").unwrap().1;
    let f = TokenTree::Dictionary(Dictionary::new(vec![(bytes(b"b"), int_tree(2)), (bytes(b"a"), int_tree(1))]));
    assert!(e == f);
    let mut seen = std::collections::HashSet::new();
    seen.insert(a);
    assert!(seen.contains(&b));
}

#[test]
fn trees_decode_to_their_parts() {
    let list = TokenTree::parse(b"[1+t]").unwrap().1;
    assert_eq!(<List as Decode>::decode(&list).unwrap().elements.len(), 2);
    let rec = TokenTree::parse(b"<3'foo1+>").unwrap().1;
    let r = <Record as Decode>::decode(&rec).unwrap();
    assert_eq!(r.label.to_bytes(), b"3'foo".to_vec());
    assert_eq!(r.elements.len(), 1);
    let set = TokenTree::parse(b"#t$").unwrap().1;
    assert_eq!(<TokenSet as Decode>::decode(&set).unwrap().len(), 1);
    let dict = TokenTree::parse(b"{1:a1+}").unwrap().1;
    assert_eq!(<Dictionary as Decode>::decode(&dict).unwrap().len(), 1);
    assert_eq!(<Literal as Decode>::decode(&TokenTree::parse(b"f").unwrap().1).unwrap(), Literal::Bool(false));
    assert!(matches!(<List as Decode>::decode(&set), Err(DecodeError::Unexpected { expected: SyrupKind::List { length: None }, .. })));
    assert!(matches!(<Literal as Decode>::decode(&list), Err(DecodeError::Unexpected { expected: SyrupKind::Unknown("Literal"), .. })));
    assert!(<Record as Decode>::decode(&list).is_err());
    assert!(<Dictionary as Decode>::decode(&list).is_err());
    assert!(<TokenSet as Decode>::decode(&list).is_err());
}
