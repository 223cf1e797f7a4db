use syrup::captp::msg::{
    DescExport, DescImport, DescImportObject, DescImportPromise, OpAbort, OpDeliver, OpDeliverOnly,
    Operation,
};
use syrup::de::lex::collection::TokenTree;
use syrup::de::lex::literal::Literal;
use syrup::de::{Decode, DecodeError};
use syrup::ser::Encode;
use syrup::captp::msg::{generate_start_msg, try_accept_start_session, SignatureError};
use syrup::locator::NodeLocator;

fn parse(b: &[u8]) -> TokenTree {
    TokenTree::parse(b).unwrap().1
}

#[test]
fn descriptors() {
    let d = DescExport::new(5);
    assert_eq!(d.encode().to_bytes(), b"<11'desc:export5+>");
    assert_eq!(DescExport::decode(&parse(b"<11'desc:export5+>")).unwrap(), d);
    assert!(matches!(DescExport::decode(&parse(b"<11'desc:exporx5+>")), Err(DecodeError::Unexpected { .. })));
    assert!(matches!(DescExport::decode(&parse(b"<11'desc:export>")), Err(DecodeError::Missing(_))));
    let o = DescImportObject { position: 2 };
    assert_eq!(DescImportObject::decode(&o.encode()).unwrap(), o);
    let p = DescImportPromise { position: 3 };
    assert_eq!(DescImportPromise::decode(&p.encode()).unwrap(), p);
    let i: DescImport = p.into();
    assert_eq!(i.encode().to_bytes(), b"<19'desc:import-promise3+>");
    assert_eq!(DescImport::decode(&i.encode()).unwrap(), i);
    let j: DescImport = o.into();
    assert_eq!(DescImport::decode(&j.encode()).unwrap(), j);
    let unknown = parse(b"<3'foo1+>");
    assert!(!DescImport::is_supported(&unknown));
    assert!(DescImport::is_supported(&parse(b"t")));
}

#[test]
fn operations_roundtrip() {
    let args = vec![TokenTree::Literal(Literal::Symbol(b"fetch".to_vec())), TokenTree::Literal(Literal::Bytes(b"sw".to_vec()))];
    let op: Operation<TokenTree> = Operation::Deliver(OpDeliver::new(0, args, Some(1), DescImportPromise { position: 9 }.into()));
    let tree = op.encode();
    assert!(Operation::<TokenTree>::is_supported(&tree));
    let back = Operation::<TokenTree>::decode(&tree).unwrap();
    assert_eq!(back.encode().to_bytes(), tree.to_bytes());
    let only: Operation<TokenTree> = Operation::DeliverOnly(OpDeliverOnly::new(3, vec![]));
    assert_eq!(only.encode().to_bytes(), b"<15'op:deliver-only<11'desc:export3+>[]>");
    let abort: Operation<TokenTree> = Operation::Abort(OpAbort::new("bye".to_string()));
    assert_eq!(abort.encode().to_bytes(), b"<8'op:abort3\"bye>");
    match Operation::<TokenTree>::decode(&abort.encode()).unwrap() {
        Operation::Abort(a) => assert_eq!(a.reason, "bye"),
        _ => panic!("not an abort"),
    }
}

#[test]
fn unsupported_operations() {
    assert!(!Operation::<TokenTree>::is_supported(&parse(b"<7'op:pick>")));
    assert!(!Operation::<TokenTree>::is_supported(&parse(b"<8'op:abort>")));
    assert!(!Operation::<TokenTree>::is_supported(&parse(b"<15'op:deliver-only<11'desc:export3+>>")));
    assert!(Operation::<TokenTree>::is_supported(&parse(b"<15'op:deliver-only<11'desc:exporx3+>>")));
    assert!(Operation::<TokenTree>::is_supported(&parse(b"[]")));
    assert!(matches!(Operation::<TokenTree>::decode(&parse(b"[]")), Err(DecodeError::Unexpected { .. })));
    assert!(matches!(Operation::<TokenTree>::decode(&parse(b"<1:a>")), Err(DecodeError::Unexpected { .. })));
}

#[test]
fn start_session_signs_its_location() {
    let secret = [7u8; 32];
    let loc = NodeLocator::parse("ocapn://abc.tcp-testing-only?host=1&port=2").unwrap();
    let msg = generate_start_msg(&secret, loc.clone());
    assert_eq!(msg.captp_version, syrup::CAPTP_VERSION);
    let key = ed25519_dalek::SigningKey::from_bytes(&secret);
    assert_eq!(msg.session_pubkey.ecc, key.verifying_key().to_bytes());
    let expected = ed25519_dalek::Signer::<ed25519_dalek::Signature>::sign(&key, &loc.encode().to_bytes());
    assert_eq!(msg.acceptable_location_sig.eddsa, expected.to_bytes());
    assert_eq!(msg.verify_location(), Ok(()));
    let (k, l) = try_accept_start_session(msg.clone()).unwrap();
    assert_eq!(k, msg.session_pubkey);
    assert!(l == loc);

    let mut forged = msg.clone();
    forged.acceptable_location_sig.eddsa[0] ^= 1;
    assert_eq!(forged.verify_location(), Err(SignatureError));
    assert!(try_accept_start_session(forged).is_none());

    let mut moved = msg.clone();
    moved.acceptable_location.designator = "xyz".to_owned();
    assert!(moved.verify_location().is_err());

    let mut old = msg.clone();
    old.captp_version = "0.9".to_owned();
    assert!(try_accept_start_session(old).is_none());
}
