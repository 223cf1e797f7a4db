use syrup::locator::{NodeLocator, ParseSturdyRefUriError, ParseUriError, SturdyRefLocator};

fn hints(l: &NodeLocator) -> Vec<(&str, &str)> {
    l.hints.iter().map(|(k, v)| (k.as_str(), v.as_str())).collect()
}

#[test]
fn parses_testing_locator() {
    let l = NodeLocator::parse("ocapn://abc.tcp-testing-only?host=1&port=2").unwrap();
    assert_eq!(l.designator, "abc");
    assert_eq!(l.transport, "tcp-testing-only");
    assert_eq!(hints(&l), vec![("host", "1"), ("port", "2")]);
    assert_eq!(l.hint("host").map(String::as_str), Some("1"));
    assert_eq!(l.hint("port").map(String::as_str), Some("2"));
    assert_eq!(l.hint("userinfo"), None);
}

#[test]
fn parses_through_from_str() {
    let l: NodeLocator = "ocapn://abc.tcp".parse().unwrap();
    assert_eq!(l.designator, "abc");
    assert_eq!(l.transport, "tcp");
    assert!(l.hints.is_empty());
}

#[test]
fn splits_host_at_last_dot() {
    let l = NodeLocator::parse("ocapn://a.b.c.onion").unwrap();
    assert_eq!(l.designator, "a.b.c");
    assert_eq!(l.transport, "onion");
}

#[test]
fn scheme_ignores_case_and_may_be_absent() {
    let l = NodeLocator::parse("OCapN://abc.tcp").unwrap();
    assert_eq!(l.designator, "abc");
    let l = NodeLocator::parse("//abc.tcp").unwrap();
    assert_eq!(l.transport, "tcp");
}

#[test]
fn userinfo_and_port_become_hints() {
    let l = NodeLocator::parse("ocapn://us%20er@abc.tcp:1234?x=y").unwrap();
    assert_eq!(hints(&l), vec![("userinfo", "us er"), ("port", "1234"), ("x", "y")]);
}

#[test]
fn query_pairs_decode_and_replace() {
    let l = NodeLocator::parse("ocapn://abc.tcp?k=a%20b&skip&k=c&z%41=1").unwrap();
    assert_eq!(hints(&l), vec![("k", "c"), ("zA", "1")]);
}

#[test]
fn rejects_other_schemes() {
    match NodeLocator::parse("http://abc.tcp") {
        Err(ParseUriError::UnrecognizedScheme(s)) => assert_eq!(s, "http"),
        other => panic!("unexpected: {:?}", other),
    }
}

#[test]
fn rejects_missing_authority() {
    assert!(matches!(NodeLocator::parse("ocapn:abc.tcp"), Err(ParseUriError::MissingAuthority)));
}

#[test]
fn rejects_missing_transport() {
    assert!(matches!(NodeLocator::parse("ocapn://abc"), Err(ParseUriError::MissingTransport)));
}

#[test]
fn rejects_bad_hint_encoding() {
    assert!(matches!(NodeLocator::parse("ocapn://abc.tcp?k=%ff"), Err(ParseUriError::DecodeHint)));
    assert!(matches!(NodeLocator::parse("ocapn://%ff@abc.tcp"), Err(ParseUriError::DecodeHint)));
}

#[test]
fn rejects_text_that_is_no_uri() {
    assert!(matches!(NodeLocator::parse("ocapn://abc tcp"), Err(ParseUriError::Uri)));
}

#[test]
fn new_has_no_hints() {
    let l = NodeLocator::new("abc".to_owned(), "tcp".to_owned());
    assert!(l.hints.is_empty());
    assert_eq!(l.encoded_query(), None);
    assert_eq!(l.encoded_userinfo(), None);
}

#[test]
fn encodes_uri_components() {
    let mut l = NodeLocator::new("a b".to_owned(), "tcp".to_owned());
    assert_eq!(l.encoded_host(), "a%20b.tcp");
    l.hints.push(("userinfo".to_owned(), "me you".to_owned()));
    l.hints.push(("port".to_owned(), "80".to_owned()));
    assert_eq!(l.encoded_query(), None);
    assert_eq!(l.encoded_userinfo().as_deref(), Some("me%20you"));
    l.hints.push(("k".to_owned(), "v w".to_owned()));
    l.hints.push(("x".to_owned(), "1".to_owned()));
    assert_eq!(l.encoded_query().as_deref(), Some("k=v%20w&x=1"));
}

#[test]
fn locator_tree_round_trips() {
    let l = NodeLocator::parse("ocapn://abc.tcp-testing-only?host=1&port=2").unwrap();
    let t = l.encode();
    assert_eq!(
        t.to_bytes(),
        b"<10'ocapn-node3\"abc16'tcp-testing-only{4'host1\"14'port1\"2}>".to_vec()
    );
    let back = NodeLocator::decode(&t).unwrap();
    assert_eq!(back.designator, l.designator);
    assert_eq!(back.transport, l.transport);
    assert_eq!(hints(&back), hints(&l));
}

#[test]
fn locator_without_hints_encodes_false() {
    let l = NodeLocator::new("abc".to_owned(), "tcp".to_owned());
    let t = l.encode();
    assert_eq!(t.to_bytes(), b"<10'ocapn-node3\"abc3'tcpf>".to_vec());
    let back = NodeLocator::decode(&t).unwrap();
    assert!(back.hints.is_empty());
    assert_eq!(back.designator, "abc");
}

#[test]
fn locator_as_uri() {
    let mut l = NodeLocator::new("abc".to_owned(), "tcp".to_owned());
    assert_eq!(l.to_uri_string(), "ocapn://abc.tcp");
    l.hints.push(("userinfo".to_owned(), "me".to_owned()));
    l.hints.push(("port".to_owned(), "80".to_owned()));
    assert_eq!(l.to_uri_string(), "ocapn://me@abc.tcp:80");
    l.hints.push(("k".to_owned(), "v w".to_owned()));
    assert_eq!(l.to_uri_string(), "ocapn://me@abc.tcp:80?k=v%20w");
    let back = NodeLocator::parse(&l.to_uri_string()).unwrap();
    assert_eq!(back.designator, "abc");
    assert_eq!(hints(&back), vec![("userinfo", "me"), ("port", "80"), ("k", "v w")]);
}

#[test]
fn parses_sturdy_refs() {
    let r = SturdyRefLocator::parse("ocapn://abc.tcp-testing-only/s/SWISS?host=1").unwrap();
    assert_eq!(r.node_locator.designator, "abc");
    assert_eq!(r.node_locator.transport, "tcp-testing-only");
    assert_eq!(hints(&r.node_locator), vec![("host", "1")]);
    assert_eq!(r.swiss_num, b"SWISS".to_vec());
    let r: SturdyRefLocator = "ocapn://abc.tcp/s/a%20b".parse().unwrap();
    assert_eq!(r.swiss_num, b"a b".to_vec());
    let r = SturdyRefLocator::parse("ocapn://abc.tcp/s/").unwrap();
    assert!(r.swiss_num.is_empty());
}

#[test]
fn rejects_bad_sturdy_refs() {
    assert!(matches!(SturdyRefLocator::parse("ocapn://abc.tcp"), Err(ParseSturdyRefUriError::MissingPath)));
    assert!(matches!(SturdyRefLocator::parse("ocapn://abc.tcp/x/y"), Err(ParseSturdyRefUriError::InvalidPath)));
    assert!(matches!(SturdyRefLocator::parse("ocapn://abc.tcp/s"), Err(ParseSturdyRefUriError::InvalidPath)));
    assert!(matches!(
        SturdyRefLocator::parse("http://abc.tcp/s/x"),
        Err(ParseSturdyRefUriError::Locator(ParseUriError::UnrecognizedScheme(_)))
    ));
    assert!(matches!(
        SturdyRefLocator::parse("ocapn://abc/s/x"),
        Err(ParseSturdyRefUriError::Locator(ParseUriError::MissingTransport))
    ));
    assert!(matches!(
        SturdyRefLocator::parse("ocapn://a b/s/x"),
        Err(ParseSturdyRefUriError::Locator(ParseUriError::Uri))
    ));
}

#[test]
fn sturdy_ref_uri_and_tree() {
    let r = SturdyRefLocator::new(NodeLocator::new("abc".to_owned(), "tcp".to_owned()), b"a b".to_vec());
    assert_eq!(r.encoded_path(), "/s/a%20b");
    assert_eq!(r.to_uri_string(), "ocapn://abc.tcp/s/a%20b");
    let t = r.encode();
    assert_eq!(
        t.to_bytes(),
        b"<15'ocapn-sturdyref<10'ocapn-node3\"abc3'tcpf>3:a b>".to_vec()
    );
    let back = SturdyRefLocator::decode(&t).unwrap();
    assert_eq!(back.swiss_num, b"a b".to_vec());
    assert_eq!(back.node_locator.designator, "abc");
    assert!(SturdyRefLocator::decode(&r.node_locator.encode()).is_err());
}

#[test]
fn locators_compare_by_encoding() {
    let a = NodeLocator::parse("ocapn://abc.tcp?x=1&y=2").unwrap();
    let b = NodeLocator::parse("ocapn://abc.tcp?y=2&x=1").unwrap();
    let c = NodeLocator::parse("ocapn://abc.tcp?y=2&x=3").unwrap();
    assert!(a == b);
    assert!(a != c);
    assert!(a != NodeLocator::new("abc".to_owned(), "tcp".to_owned()));
}

#[test]
fn equal_locators_hash_alike() {
    let a = NodeLocator::parse("ocapn://abc.tcp?x=1&y=2").unwrap();
    let b = NodeLocator::parse("ocapn://abc.tcp?y=2&x=1").unwrap();
    let mut set = std::collections::HashSet::new();
    set.insert(a);
    assert!(set.contains(&b));
    set.insert(b);
    assert_eq!(set.len(), 1);
}

#[test]
fn percent_tables_keep_their_bytes() {
    let mut l = NodeLocator::new("a-._~!$&'()*+,;=:@/?%é".to_owned(), "tcp".to_owned());
    assert_eq!(l.encoded_host(), "a-._~!$&'()*+,;=%3A%40%2F%3F%25%C3%A9.tcp");
    l.hints.push(("userinfo".to_owned(), ":@/".to_owned()));
    assert_eq!(l.encoded_userinfo().as_deref(), Some(":%40%2F"));
    l.hints.push(("k".to_owned(), ":@/?#[]%".to_owned()));
    assert_eq!(l.encoded_query().as_deref(), Some("k=:@/?%23%5B%5D%25"));
    let r = SturdyRefLocator::new(NodeLocator::new("abc".to_owned(), "tcp".to_owned()), b":@/?#\xff".to_vec());
    assert_eq!(r.encoded_path(), "/s/:@/%3F%23%FF");
}

#[test]
fn hint_text_reads_back() {
    let mut l = NodeLocator::new("abc".to_owned(), "tcp".to_owned());
    l.hints.push(("key ü".to_owned(), "v%w #1".to_owned()));
    let uri = l.to_uri_string();
    assert_eq!(uri, "ocapn://abc.tcp?key%20%C3%BC=v%25w%20%231");
    let back = NodeLocator::parse(&uri).unwrap();
    assert_eq!(hints(&back), vec![("key ü", "v%w #1")]);
}
