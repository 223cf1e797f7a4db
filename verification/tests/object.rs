use syrup::captp::msg::{DescExport, DescImportObject, DescImportPromise, OpDeliver, OpDeliverOnly, Operation};
use syrup::captp::object::{FetchError, FetchResolver, GenericResolver, RemoteBootstrap, RemoteObject};
use syrup::captp::session::{decide, Decision, SessionFlags};
use syrup::de::lex::collection::TokenTree;
use syrup::ser::Encode;

fn only_bytes(op: OpDeliverOnly<TokenTree>) -> Vec<u8> {
    Operation::DeliverOnly(op).encode().to_bytes()
}

fn deliver_bytes(op: OpDeliver<TokenTree>) -> Vec<u8> {
    Operation::Deliver(op).encode().to_bytes()
}

#[test]
fn remote_object_messages() {
    let o = RemoteObject::new(DescExport { position: 3 });
    assert_eq!(only_bytes(o.deliver_only(vec![])), b"<15'op:deliver-only<11'desc:export3+>[]>".to_vec());
    assert_eq!(
        only_bytes(o.call_only("greet", vec!["hi".encode()])),
        b"<15'op:deliver-only<11'desc:export3+>[5'greet2\"hi]>".to_vec()
    );
    assert_eq!(
        deliver_bytes(o.call("greet", vec![], Some(4), DescImportPromise { position: 5 }.into())),
        b"<10'op:deliver<11'desc:export3+>[5'greet]4+<19'desc:import-promise5+>>".to_vec()
    );
    assert_eq!(
        deliver_bytes(o.deliver(vec![true.encode()], None, DescImportObject { position: 1 }.into())),
        b"<10'op:deliver<11'desc:export3+>[t]f<18'desc:import-object1+>>".to_vec()
    );
    assert_eq!(
        only_bytes(OpDeliverOnly::from_ident_args(2, "x", vec![1u8.encode()])),
        b"<15'op:deliver-only<11'desc:export2+>[1'x1+]>".to_vec()
    );
}

#[test]
fn bootstrap_messages() {
    let b = RemoteBootstrap::new();
    let fetch = b.fetch_to(b"sw", Some(1), DescImportPromise { position: 9 }.into());
    assert_eq!(
        deliver_bytes(fetch.clone()),
        b"<10'op:deliver<11'desc:export0+>[5'fetch2:sw]1+<19'desc:import-promise9+>>".to_vec()
    );
    match decide(&mut SessionFlags::new(), Operation::Deliver(fetch), true) {
        Decision::BootstrapFetch { swiss, answer_pos, .. } => {
            assert_eq!(swiss, b"sw".to_vec());
            assert_eq!(answer_pos, Some(1));
        }
        other => panic!("unexpected {:?}", other),
    }
    assert_eq!(
        only_bytes(b.deposit_gift(7, DescImportObject { position: 2 }.into())),
        b"<15'op:deliver-only<11'desc:export0+>[12'deposit_gift7+<18'desc:import-object2+>]>".to_vec()
    );
}

#[test]
fn fetch_replies() {
    let b = RemoteBootstrap::new();
    assert!(matches!(b.fetch_reply(vec![]), Err(FetchError::MissingResult)));
    let o = b.fetch_reply(vec![true.encode(), DescExport { position: 5 }.encode()]).unwrap();
    assert_eq!(o.position, DescExport { position: 5 });
    match b.fetch_reply(vec![DescExport { position: 5 }.encode(), true.encode()]) {
        Err(FetchError::UnexpectedArgument(t)) => assert_eq!(t.to_bytes(), b"t".to_vec()),
        other => panic!("unexpected {:?}", other),
    }
}

#[test]
fn resolver_messages() {
    let r = GenericResolver::new(None, DescImportObject { position: 6 }.into());
    assert_eq!(
        deliver_bytes(r.fulfill(vec![1u64.encode()], None, DescImportPromise { position: 8 }.into())),
        b"<10'op:deliver<11'desc:export6+>[7'fulfill1+]f<19'desc:import-promise8+>>".to_vec()
    );
    assert_eq!(
        only_bytes(r.break_promise("oops".encode())),
        b"<15'op:deliver-only<11'desc:export6+>[5\"break4\"oops]>".to_vec()
    );
    let f = FetchResolver::from(GenericResolver::new(Some(2), DescImportPromise { position: 4 }.into()));
    assert_eq!(
        deliver_bytes(f.fulfill(DescExport { position: 5 }, None, DescImportPromise { position: 8 }.into())),
        b"<10'op:deliver<11'desc:export4+>[7'fulfill<11'desc:export5+>]f<19'desc:import-promise8+>>".to_vec()
    );
    assert_eq!(
        only_bytes(f.break_promise("no".encode())),
        b"<15'op:deliver-only<11'desc:export4+>[5\"break2\"no]>".to_vec()
    );
}
