use syrup::de::cursor::{Cursor, ParseLiteralError};
use syrup::de::lex::integer::IntErrorKind;
use syrup::de::lex::literal::Literal;
use syrup::de::TokenTree;
use syrup::{CursorError, Needed};

fn needs(n: usize) -> CursorError {
    CursorError::Incomplete { needed: Needed::Size(n) }
}

#[test]
fn cursor_moves_and_slices() {
    let c = Cursor::new(b"abcdef");
    assert_eq!(c.off, 0);
    let d = c.advance(2);
    assert_eq!(d.rem, b"cdef");
    assert_eq!(d.off, 2);
    assert_eq!(c.slice_to(d), Some(&b"ab"[..]));
    assert_eq!(d.slice_to(c), None);
    assert!(c.advance_checked(9).is_err());
    assert_eq!(c.advance_checked(9).unwrap_err(), needs(3));
    assert_eq!(c.advance_checked(6).unwrap().rem, b"");
    assert_eq!(*c.peek_1().unwrap(), b'a');
    assert_eq!(Cursor::new(b"").peek_1().unwrap_err(), needs(1));
}

#[test]
fn cursor_single_bytes() {
    let c = Cursor::new(b"x1");
    assert_eq!(c.byte(b'x').unwrap().off, 1);
    assert_eq!(c.byte(b'y').unwrap_err(), CursorError::Error);
    assert_eq!(Cursor::new(b"").byte(b'x').unwrap_err(), needs(1));
    assert_eq!(c.one_of(b"zyx").unwrap().rem, b"1");
    assert_eq!(c.one_of(b"ab").unwrap_err(), CursorError::Error);
    assert_eq!(c.in_range(b'a', b'z').unwrap().off, 1);
    assert_eq!(c.in_range(b'0', b'9').unwrap_err(), CursorError::Error);
    assert_eq!(c.tag(b"x1").unwrap().rem, b"");
    assert_eq!(c.tag(b"x2").unwrap_err(), CursorError::Error);
    assert_eq!(c.tag(b"x1yz").unwrap_err(), needs(2));
}

#[test]
fn cursor_bools_and_ints() {
    let (r, b) = Cursor::new(b"tf").bool().unwrap();
    assert!(b);
    assert!(!r.bool().unwrap().1);
    assert_eq!(Cursor::new(b"x").bool().unwrap_err(), CursorError::Error);
    let (r, span) = Cursor::new(b"123+").digits().unwrap();
    assert_eq!(span.digits, b"123");
    assert_eq!(r.rem, b"+");
    let (r, (pos, digits)) = r.preparsed_int(span).unwrap();
    assert!(pos);
    assert_eq!(digits, b"123");
    assert_eq!(r.off, 4);
    let (_, (pos, digits)) = Cursor::new(b"45-").integer().unwrap();
    assert!(!pos);
    assert_eq!(digits, b"45");
    assert_eq!(Cursor::new(b"45").integer().unwrap_err(), needs(1));
    assert_eq!(Cursor::new(b"45x").integer().unwrap_err(), CursorError::Error);
    assert_eq!(Cursor::new(b"").digits().unwrap_err(), CursorError::Incomplete { needed: Needed::Unknown });
}

#[test]
fn cursor_netstrings_and_floats() {
    let (r, s) = Cursor::new(b":hello").bytes(5).unwrap();
    assert_eq!(s, b"hello");
    assert_eq!(r.off, 6);
    assert_eq!(Cursor::new(b"\"hi").string(2).unwrap().1, b"hi");
    assert_eq!(Cursor::new(b"'hi").symbol(2).unwrap().1, b"hi");
    assert_eq!(Cursor::new(b"'hi").bytes(2).unwrap_err(), CursorError::Error);
    assert_eq!(Cursor::new(b":h").bytes(4).unwrap_err(), needs(3));
    let (_, bits) = Cursor::new(&[b'F', 0x3f, 0x80, 0, 0]).float32().unwrap();
    assert_eq!(f32::from_bits(bits), 1.0);
    let (_, bits) = Cursor::new(&[b'D', 0x40, 0, 0, 0, 0, 0, 0, 0]).float64().unwrap();
    assert_eq!(f64::from_bits(bits), 2.0);
    assert_eq!(Cursor::new(b"F12").float32().unwrap_err(), needs(2));
}

#[test]
fn cursor_reads_literals() {
    let (r, l) = Cursor::new(b"t").literal().unwrap();
    assert_eq!(l, Literal::Bool(true));
    assert_eq!(r.off, 1);
    let (r, l) = Cursor::new(b"3'abcz").literal().unwrap();
    assert_eq!(l, Literal::Symbol(b"abc".to_vec()));
    assert_eq!(r.rem, b"z");
    assert_eq!(Cursor::new(b"2:ab").literal().unwrap().1, Literal::Bytes(b"ab".to_vec()));
    assert_eq!(Cursor::new(b"2\"ab").literal().unwrap().1, Literal::String(b"ab".to_vec()));
    match Cursor::new(b"12-").literal().unwrap().1 {
        Literal::Int(i) => {
            assert!(!i.positive());
            assert_eq!(i.digits(), b"12");
        }
        other => panic!("unexpected {:?}", other),
    }
    let (_, l) = Cursor::new(&[b'F', 0x3f, 0x80, 0, 0]).literal_static().unwrap();
    assert_eq!(l, Literal::F32(0x3f80_0000));
}

#[test]
fn cursor_literal_errors() {
    assert_eq!(Cursor::new(b"").literal().unwrap_err(), ParseLiteralError::Cursor(needs(1)));
    assert_eq!(Cursor::new(b"x").literal().unwrap_err(), ParseLiteralError::Cursor(CursorError::Error));
    assert_eq!(Cursor::new(b"12").literal().unwrap_err(), ParseLiteralError::Cursor(needs(1)));
    assert_eq!(Cursor::new(b"5'ab").literal().unwrap_err(), ParseLiteralError::Cursor(needs(3)));
    assert_eq!(Cursor::new(b"2x").literal().unwrap_err(), ParseLiteralError::Cursor(CursorError::Error));
    assert_eq!(Cursor::new(b"D1").literal().unwrap_err(), ParseLiteralError::Cursor(needs(7)));
    assert_eq!(
        Cursor::new(b"99999999999999999999999'").literal().unwrap_err(),
        ParseLiteralError::ParseLen(IntErrorKind::PosOverflow)
    );
    assert_eq!(ParseLiteralError::from(CursorError::Error), ParseLiteralError::Cursor(CursorError::Error));
}

#[test]
fn cursor_reads_leaf_tokens() {
    let (r, t) = Cursor::new(b"f[").leaf_token().unwrap();
    assert_eq!(r.rem, b"[");
    assert_eq!(t.to_bytes(), b"f".to_vec());
    match Cursor::new(b"1:z").leaf_token_static().unwrap().1 {
        TokenTree::Literal(Literal::Bytes(b)) => assert_eq!(b, b"z".to_vec()),
        other => panic!("unexpected {:?}", other),
    }
    assert!(Cursor::new(b"[").leaf_token().is_err());
}
