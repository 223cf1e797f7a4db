use syrup::captp::msg::{DescImportPromise, OpAbort, OpDeliver, OpDeliverOnly, Operation};
use syrup::captp::session::{
    buffer_is_supported, decide, is_decidable, recv_step, send_gate, Decision, RecvError, RecvStep,
    SendError, SessionFlags,
};
use syrup::de::lex::collection::TokenTree;
use syrup::de::lex::literal::Literal;

#[test]
fn sending_stops_after_an_abort() {
    assert!(send_gate(&SessionFlags::new()).is_ok());
    let both = SessionFlags { aborted_locally: true, aborted_by_remote: Some("x".to_string()) };
    assert!(matches!(send_gate(&both), Err(SendError::SessionAbortedLocally)));
    let remote = SessionFlags { aborted_locally: false, aborted_by_remote: Some("gone".to_string()) };
    match send_gate(&remote) {
        Err(SendError::SessionAborted(r)) => assert_eq!(r, "gone"),
        other => panic!("unexpected {:?}", other),
    }
}

#[test]
fn receiving_steps() {
    let msg: Operation<TokenTree> = Operation::Abort(OpAbort::new("done".to_string()));
    let bytes = msg.encode().to_bytes();
    let mut buf = bytes.clone();
    buf.extend_from_slice(b"<");
    assert!(buffer_is_supported(&buf));
    let open = SessionFlags::new();
    match recv_step(&open, &buf) {
        RecvStep::Message(n, Operation::Abort(a)) => {
            assert_eq!(n, bytes.len());
            assert_eq!(a.reason, "done");
        }
        other => panic!("unexpected {:?}", other),
    }
    assert!(matches!(recv_step(&open, &bytes[..3]), RecvStep::ReadMore(_)));
    assert!(matches!(recv_step(&open, b""), RecvStep::ReadMore(1)));
    assert!(matches!(recv_step(&open, b"<8'op:abort"), RecvStep::ReadMore(1)));
    assert!(matches!(recv_step(&open, b"<8'op:abort1"), RecvStep::ReadMore(1024)));
    assert!(matches!(recv_step(&open, b"]"), RecvStep::Failed(RecvError::Parse(_))));
    assert!(matches!(recv_step(&open, b"t"), RecvStep::Failed(RecvError::Parse(_))));
    assert!(matches!(recv_step(&SessionFlags { aborted_locally: true, aborted_by_remote: None }, &bytes), RecvStep::Failed(RecvError::SessionAbortedLocally)));
    assert!(matches!(recv_step(&SessionFlags { aborted_locally: false, aborted_by_remote: Some("r".to_string()) }, &bytes), RecvStep::Failed(RecvError::SessionAborted(_))));
    assert!(!buffer_is_supported(b"<7'op:pick>"));
}

#[test]
fn decisions() {
    let fetch = vec![
        TokenTree::Literal(Literal::Symbol(b"fetch".to_vec())),
        TokenTree::Literal(Literal::Bytes(b"swiss".to_vec())),
    ];
    let op: Operation<TokenTree> = Operation::Deliver(OpDeliver::new(0, fetch, Some(2), DescImportPromise { position: 4 }.into()));
    assert!(is_decidable(&op));
    let mut flags = SessionFlags::new();
    match decide(&mut flags, op, false) {
        Decision::BootstrapFetch { swiss, answer_pos, .. } => {
            assert_eq!(swiss, b"swiss");
            assert_eq!(answer_pos, Some(2));
        }
        other => panic!("unexpected {:?}", other),
    }
    let only: Operation<TokenTree> = Operation::DeliverOnly(OpDeliverOnly::new(5, vec![]));
    assert!(matches!(decide(&mut flags, only, false), Decision::UnknownTarget(5, _)));
    let only: Operation<TokenTree> = Operation::DeliverOnly(OpDeliverOnly::new(5, vec![]));
    assert!(matches!(decide(&mut flags, only, true), Decision::DeliverOnlyTo(5, _)));
    assert!(!flags.is_aborted());
    let abort: Operation<TokenTree> = Operation::Abort(OpAbort::new("r".to_string()));
    assert!(matches!(decide(&mut flags, abort, true), Decision::Abort(ref r) if r == "r"));
    assert!(flags.is_aborted());
    let boot_only: Operation<TokenTree> = Operation::DeliverOnly(OpDeliverOnly::new(0, vec![]));
    assert!(!is_decidable(&boot_only));
}

#[test]
fn remote_abort_refuses_later_sends() {
    let mut flags = SessionFlags::new();
    let only: Operation<TokenTree> = Operation::DeliverOnly(OpDeliverOnly::new(3, vec![]));
    decide(&mut flags, only, true);
    assert!(!flags.is_aborted());
    assert!(send_gate(&flags).is_ok());
    let abort: Operation<TokenTree> = Operation::Abort(OpAbort::new("bye".to_string()));
    assert!(matches!(decide(&mut flags, abort, true), Decision::Abort(_)));
    assert!(flags.is_aborted());
    match send_gate(&flags) {
        Err(SendError::SessionAborted(r)) => assert_eq!(r, "bye"),
        other => panic!("unexpected {:?}", other),
    }
    match recv_step(&flags, b"") {
        RecvStep::Failed(RecvError::SessionAborted(r)) => assert_eq!(r, "bye"),
        other => panic!("unexpected {:?}", other),
    }
    flags.local_abort();
    assert!(matches!(send_gate(&flags), Err(SendError::SessionAbortedLocally)));
}
