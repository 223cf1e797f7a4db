use syrup::de::cursor::Needed;
use syrup::de::group::Delimiter;
use syrup::de::lex::integer::IntErrorKind;
use syrup::de::lex::literal::Literal;
use syrup::de::tokens::{LexError, LexErrorKind, Span, TokenStream, TokenTree};
use syrup::Cursor;

fn span(lo: usize, hi: usize) -> Span {
    Span::new(lo, hi)
}

#[test]
fn tokenizes_a_literal() {
    let (t, rest) = TokenTree::tokenize(Cursor::new(b"3:abcrest")).unwrap();
    match &t {
        TokenTree::Literal(Literal::Bytes(b), s) => {
            assert_eq!(b, b"abc");
            assert_eq!(*s, span(0, 5));
        }
        other => panic!("unexpected {:?}", other),
    }
    assert_eq!(rest.off, 5);
    assert_eq!(rest.rem, b"rest");
}

#[test]
fn tokenizes_nested_groups_with_spans() {
    let (t, rest) = TokenTree::tokenize(Cursor::new(b"[1+{1:a#t$}]x")).unwrap();
    assert_eq!(rest.off, 12);
    assert_eq!(*t.span(), span(0, 12));
    match t {
        TokenTree::Sequence(g) => {
            let items = g.stream.as_slice();
            assert_eq!(items.len(), 2);
            assert_eq!(*items[0].span(), span(1, 3));
            match &items[1] {
                TokenTree::Dictionary(d) => {
                    assert_eq!(d.span, span(3, 11));
                    let inner = d.stream.as_slice();
                    assert_eq!(inner.len(), 2);
                    assert_eq!(*inner[0].span(), span(4, 7));
                    match &inner[1] {
                        TokenTree::SetOf(set) => {
                            assert_eq!(set.span, span(7, 10));
                            assert_eq!(set.stream.len(), 1);
                            assert!(matches!(set.stream.peek(), Some(TokenTree::Literal(Literal::Bool(true), _))));
                        }
                        other => panic!("unexpected {:?}", other),
                    }
                }
                other => panic!("unexpected {:?}", other),
            }
        }
        other => panic!("unexpected {:?}", other),
    }
}

fn lex_error(input: &[u8]) -> LexError {
    match TokenTree::tokenize(Cursor::new(input)) {
        Err(e) => e,
        Ok(t) => panic!("unexpected {:?}", t),
    }
}

#[test]
fn tokenize_errors() {
    let e = lex_error(b"");
    assert_eq!(e.span, span(0, 0));
    assert!(matches!(e.kind, LexErrorKind::Incomplete { needed: Needed::Unknown }));

    let e = lex_error(b"]");
    assert_eq!(e.span, span(0, 0));
    assert!(matches!(e.kind, LexErrorKind::Unexpected { expected } if expected == "group element or closing delimiter"));

    let e = lex_error(b"[1+}");
    assert_eq!(e.span, span(3, 3));
    assert!(matches!(e.kind, LexErrorKind::Unmatched { expected: Delimiter::Square }));

    let e = lex_error(b"<3'abc[");
    assert_eq!(e.span, span(6, 7));
    assert!(matches!(e.kind, LexErrorKind::Incomplete { needed: Needed::Unknown }));

    let e = lex_error(b"[5");
    assert_eq!(e.span, span(1, 1));
    assert!(matches!(e.kind, LexErrorKind::Incomplete { needed: Needed::Size(1) }));

    let e = lex_error(b"99999999999999999999999:a");
    assert!(matches!(e.kind, LexErrorKind::Int(IntErrorKind::PosOverflow)));
}

#[test]
fn a_byte_that_starts_nothing_is_not_tokenizable() {
    assert!(TokenTree::try_tokenize(Cursor::new(b"x")).is_none());
    assert!(TokenTree::try_tokenize(Cursor::new(b"[1+x]")).is_none());
    assert!(TokenStream::try_tokenize(Cursor::new(b"1+x")).is_none());
    assert!(TokenTree::try_tokenize(Cursor::new(b"t")).is_some());
}

#[test]
fn tokenizes_a_stream() {
    let (s, rest, err) = TokenStream::tokenize(Cursor::new(b"1+2+t"));
    assert_eq!(s.len(), 3);
    assert_eq!(rest.off, 5);
    assert!(err.is_none());

    let (s, rest, err) = TokenStream::tokenize(Cursor::new(b"1+[2+]]3+"));
    assert_eq!(s.len(), 2);
    assert_eq!(*s.as_slice()[1].span(), span(2, 6));
    assert_eq!(rest.off, 6);
    let e = err.unwrap();
    assert_eq!(e.span, span(6, 6));
    assert!(matches!(e.kind, LexErrorKind::Unexpected { .. }));

    let (s, rest, err) = TokenStream::tokenize(Cursor::new(b""));
    assert!(s.is_empty());
    assert_eq!(rest.off, 0);
    assert!(err.is_none());
}

#[test]
fn stream_operations() {
    let (mut s, _, _) = TokenStream::tokenize(Cursor::new(b"1+2+"));
    let last = s.pop().unwrap();
    assert_eq!(*last.span(), span(2, 4));
    assert_eq!(s.len(), 1);
    s.insert(0, last);
    assert_eq!(*s.peek().unwrap().span(), span(2, 4));
    assert_eq!(s.len(), 2);
    let mut g = TokenTree::record(TokenStream::new(vec![]), span(0, 2));
    *g.span_mut() = span(5, 7);
    assert_eq!(*g.span(), span(5, 7));
    assert!(matches!(g, TokenTree::Record(_)));
    assert!(TokenStream::new(vec![]).pop().is_none());
    let e = LexError::incomplete(span(1, 2), Needed::Size(3));
    assert!(matches!(e.kind, LexErrorKind::Incomplete { needed: Needed::Size(3) }));
}
