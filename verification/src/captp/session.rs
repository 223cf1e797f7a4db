//! The decisions of a CapTP session, apart from its input and output: when a
//! send may go out, what to do with the bytes received so far, and what a
//! received message asks for.

use vstd::prelude::*;

use crate::captp::msg::{
    operation_spec, operation_unsupported, DescExport, DescImport, OpDeliver, OpDeliverOnly,
    Operation, SpecOperation,
};
use crate::de::cursor::{CursorError, Needed};
use crate::de::error::DecodeBytesError;
use crate::de::impl_decode::{utf8_spec, Decode};
use crate::de::lex::collection::{lemma_tree_view, lemma_trees_view, tree_spec, SpecTree, TokenTree};
use crate::de::lex::literal::{Literal, SpecLiteral};
use crate::symbol;

verus! {

broadcast use lemma_tree_view;

/// Why a message could not be sent.
#[derive(Debug, Clone)]
pub enum SendError {
    /// Writing failed; the text describes how.
    Io(String),
    /// The remote ended the session, for this reason.
    SessionAborted(String),
    /// This side ended the session.
    SessionAbortedLocally,
}

/// Why no message could be received.
#[derive(Debug, Clone)]
pub enum RecvError {
    /// The bytes received do not hold a message.
    Parse(DecodeBytesError),
    /// Reading failed; the text describes how.
    Io(String),
    /// The remote ended the session, for this reason.
    SessionAborted(String),
    /// This side ended the session.
    SessionAbortedLocally,
    /// A delivery to a position that nothing is exported at.
    UnknownTarget(u64, Vec<TokenTree>),
}

/// Whether either side has ended the session, and the remote's reason where
/// it did.
#[derive(Debug, Clone)]
pub struct SessionFlags {
    /// This side ended the session.
    pub aborted_locally: bool,
    /// The remote ended the session, for this reason.
    pub aborted_by_remote: Option<String>,
}

/// The model of `SessionFlags`: the reason as its characters.
pub struct SpecSessionFlags {
    pub aborted_locally: bool,
    pub aborted_by_remote: Option<Seq<char>>,
}

impl View for SessionFlags {
    type V = SpecSessionFlags;

    open spec fn view(&self) -> SpecSessionFlags {
        SpecSessionFlags {
            aborted_locally: self.aborted_locally,
            aborted_by_remote: match self.aborted_by_remote {
                Some(r) => Some(r@),
                None => None,
            },
        }
    }
}

/// Either side has ended the session.
pub open spec fn flags_aborted(f: SpecSessionFlags) -> bool {
    f.aborted_locally || f.aborted_by_remote is Some
}

/// Why a send is refused: `None` where it may go out, `Some(None)` where
/// this side ended the session, `Some(Some(r))` where the remote did, for
/// the reason `r`.
pub open spec fn send_refusal(f: SpecSessionFlags) -> Option<Option<Seq<char>>> {
    if f.aborted_locally {
        Some(None)
    } else {
        match f.aborted_by_remote {
            Some(r) => Some(Some(r)),
            None => None,
        }
    }
}

/// The flags after a received message: an abort records the remote's
/// reason; any other message leaves them as they were.
pub open spec fn after_message(f: SpecSessionFlags, op: SpecOperation<SpecTree>) -> SpecSessionFlags {
    match op {
        SpecOperation::Abort(reason) => SpecSessionFlags { aborted_by_remote: Some(reason), ..f },
        _ => f,
    }
}

impl SessionFlags {
    /// A session that neither side has ended.
    pub fn new() -> (res: SessionFlags)
        ensures
            res@ == (SpecSessionFlags { aborted_locally: false, aborted_by_remote: None }),
    {
        SessionFlags { aborted_locally: false, aborted_by_remote: None }
    }

    /// Records that this side ended the session.
    pub fn local_abort(&mut self)
        ensures
            final(self)@ == (SpecSessionFlags { aborted_locally: true, ..old(self)@ }),
    {
        self.aborted_locally = true;
    }

    /// Records that the remote ended the session, for this reason.
    pub fn set_remote_abort(&mut self, reason: String)
        ensures
            final(self)@ == (SpecSessionFlags { aborted_by_remote: Some(reason@), ..old(self)@ }),
    {
        self.aborted_by_remote = Some(reason);
    }

    /// Whether either side has ended the session.
    pub fn is_aborted(&self) -> (res: bool)
        ensures
            res == flags_aborted(self@),
    {
        self.aborted_locally || self.aborted_by_remote.is_some()
    }
}

/// Whether a message may be sent: not after this side ended the session,
/// nor after the remote did.
pub fn send_gate(flags: &SessionFlags) -> (res: Result<(), SendError>)
    ensures
        match send_refusal(flags@) {
            None => res is Ok,
            Some(None) => res matches Err(SendError::SessionAbortedLocally),
            Some(Some(r)) => res matches Err(SendError::SessionAborted(s)) && s@ == r,
        },
{
    if flags.aborted_locally {
        return Err(SendError::SessionAbortedLocally);
    }
    match &flags.aborted_by_remote {
        Some(reason) => Err(SendError::SessionAborted(reason.clone())),
        None => Ok(()),
    }
}

/// The next step of receiving a message from the bytes received so far.
#[derive(Debug)]
pub enum RecvStep {
    /// Receiving fails.
    Failed(RecvError),
    /// A message, which took this many bytes from the front of the buffer.
    Message(usize, Operation<TokenTree>),
    /// The buffer holds only the start of a message: read up to this many
    /// more bytes, then try again.
    ReadMore(usize),
}

/// How many bytes to read for a lexer that needs more input.
pub open spec fn read_amount(n: Needed) -> usize {
    match n {
        Needed::Unknown => 1024,
        Needed::Size(a) => a,
    }
}

/// The buffer's first tree, where it lexes, reads as a message without
/// stopping the program.
pub open spec fn buffer_supported(buf: Seq<u8>) -> bool {
    tree_spec(buf) matches Ok((_, t)) ==> !operation_unsupported::<TokenTree>(t)
}

/// Decides what the bytes received so far give: an error once either side
/// has ended the session; a message and how many bytes it took; a request
/// for more bytes where the message is not complete; or the lexing or
/// decoding error.
pub fn recv_step(flags: &SessionFlags, buf: &[u8]) -> (res: RecvStep)
    requires
        buffer_supported(buf@),
    ensures
        send_refusal(flags@) == Some(None::<Seq<char>>) ==> res matches RecvStep::Failed(RecvError::SessionAbortedLocally),
        send_refusal(flags@) matches Some(Some(r)) ==> (res matches RecvStep::Failed(RecvError::SessionAborted(s)) && s@ == r),
        send_refusal(flags@) is None ==> match tree_spec(buf@) {
            Err(CursorError::Incomplete { needed }) => res == RecvStep::ReadMore(read_amount(needed)),
            Err(CursorError::Error) => res matches RecvStep::Failed(RecvError::Parse(DecodeBytesError::Lex(CursorError::Error))),
            Ok((rest, t)) => match operation_spec::<TokenTree>(t) {
                Ok(op) => res matches RecvStep::Message(n, m) && n == buf@.len() - rest.len() && m.deep_view() == op,
                Err(e) => res matches RecvStep::Failed(RecvError::Parse(DecodeBytesError::Decode(e2))) && e2 == e,
            },
        },
{
    if flags.aborted_locally {
        return RecvStep::Failed(RecvError::SessionAbortedLocally);
    }
    if let Some(reason) = &flags.aborted_by_remote {
        return RecvStep::Failed(RecvError::SessionAborted(reason.clone()));
    }
    match TokenTree::parse(buf) {
        Err(CursorError::Incomplete { needed }) => {
            let amount = match needed {
                Needed::Unknown => 1024,
                Needed::Size(a) => a,
            };
            RecvStep::ReadMore(amount)
        },
        Err(CursorError::Error) => RecvStep::Failed(RecvError::Parse(DecodeBytesError::Lex(CursorError::Error))),
        Ok((rest, tree)) => match Operation::<TokenTree>::decode(&tree) {
            Ok(op) => RecvStep::Message(buf.len() - rest.len(), op),
            Err(e) => RecvStep::Failed(RecvError::Parse(DecodeBytesError::Decode(e))),
        },
    }
}

/// What a received message asks of the session.
#[derive(Debug)]
pub enum Decision {
    /// Hand the arguments to the object exported at the position; expect no
    /// answer.
    DeliverOnlyTo(u64, Vec<TokenTree>),
    /// Hand the arguments to the object exported at the position, with
    /// where to answer.
    DeliverTo(OpDeliver<TokenTree>),
    /// The bootstrap object is asked to fetch the object registered under
    /// the swiss number; answer as the message says.
    BootstrapFetch { swiss: Vec<u8>, answer_pos: Option<u64>, resolve_me_desc: DescImport },
    /// Nothing is exported at the position.
    UnknownTarget(u64, Vec<TokenTree>),
    /// The remote ends the session, for this reason.
    Abort(String),
}

/// The first argument is the symbol `fetch` and the second a byte string.
pub open spec fn is_fetch(args: Seq<SpecTree>) -> bool {
    &&& args.len() >= 2
    &&& args[0] matches SpecTree::Literal(SpecLiteral::Symbol(b)) && utf8_spec(b) == Ok::<Seq<char>, crate::de::error::DecodeError>("fetch"@)
    &&& args[1] is Literal && args[1]->Literal_0 is Bytes
}

/// The messages on which deciding stops the program: any delivery to the
/// bootstrap object (position 0) but a well-formed `fetch`.
pub open spec fn decision_unsupported(op: SpecOperation<SpecTree>) -> bool {
    match op {
        SpecOperation::DeliverOnly(to, _) => to.position == 0,
        SpecOperation::Deliver(to, args, _, _) => to.position == 0 && !is_fetch(args),
        SpecOperation::Abort(_) => false,
    }
}

/// Decides what a received message asks for: a delivery to position 0 goes
/// to the bootstrap object, one to another position to the object exported
/// there, or is refused where there is none; an abort ends the session,
/// which the flags record with the remote's reason.
pub fn decide(flags: &mut SessionFlags, op: Operation<TokenTree>, export_exists: bool) -> (res: Decision)
    requires
        !decision_unsupported(op.deep_view()),
    ensures
        final(flags)@ == after_message(old(flags)@, op.deep_view()),
        match op.deep_view() {
            SpecOperation::DeliverOnly(to, args) => if export_exists {
                res matches Decision::DeliverOnlyTo(p, a) && p == to.position && a.deep_view() == args
            } else {
                res matches Decision::UnknownTarget(p, a) && p == to.position && a.deep_view() == args
            },
            SpecOperation::Deliver(to, args, answer, desc) => if to.position == 0 {
                res matches Decision::BootstrapFetch { swiss, answer_pos, resolve_me_desc }
                    && SpecTree::Literal(SpecLiteral::Bytes(swiss@)) == args[1]
                    && answer_pos == answer && resolve_me_desc == desc
            } else if export_exists {
                res matches Decision::DeliverTo(d) && d.deep_view() == (to, args, answer, desc)
            } else {
                res matches Decision::UnknownTarget(p, a) && p == to.position && a.deep_view() == args
            },
            SpecOperation::Abort(reason) => res matches Decision::Abort(r) && r@ == reason,
        },
{
    match op {
        Operation::DeliverOnly(del) => {
            if export_exists {
                Decision::DeliverOnlyTo(del.to_desc.position, del.args)
            } else {
                Decision::UnknownTarget(del.to_desc.position, del.args)
            }
        },
        Operation::Deliver(del) => {
            if del.to_desc.position == 0 {
                proof {
                    assert(del.args.deep_view()[1] == del.args@[1]@);
                }
                let swiss = match &del.args[1] {
                    TokenTree::Literal(Literal::Bytes(b)) => crate::de::cursor::copy_bytes(b.as_slice()),
                    _ => Vec::new(),
                };
                Decision::BootstrapFetch {
                    swiss,
                    answer_pos: del.answer_pos,
                    resolve_me_desc: del.resolve_me_desc,
                }
            } else if export_exists {
                Decision::DeliverTo(del)
            } else {
                Decision::UnknownTarget(del.to_desc.position, del.args)
            }
        },
        Operation::Abort(a) => {
            flags.set_remote_abort(a.reason.clone());
            Decision::Abort(a.reason)
        },
    }
}

/// Once the remote has ended the session, every later send is refused with
/// its reason, unless this side had ended the session first; and the session
/// counts as ended.
pub proof fn lemma_remote_abort_refuses_sends(flags: SpecSessionFlags, reason: Seq<char>)
    ensures
        flags_aborted(after_message(flags, SpecOperation::Abort(reason))),
        !flags.aborted_locally ==> send_refusal(after_message(flags, SpecOperation::Abort(reason))) == Some(Some(reason)),
        flags.aborted_locally ==> send_refusal(after_message(flags, SpecOperation::Abort(reason))) == Some(None::<Seq<char>>),
{
}

/// A message other than an abort leaves the flags as they were, and a
/// session once ended stays ended whatever message comes.
pub proof fn lemma_messages_keep_abort(flags: SpecSessionFlags, op: SpecOperation<SpecTree>)
    ensures
        !(op is Abort) ==> after_message(flags, op) == flags,
        flags_aborted(flags) ==> flags_aborted(after_message(flags, op)),
        send_refusal(flags) == Some(None::<Seq<char>>) ==> send_refusal(after_message(flags, op)) == Some(None::<Seq<char>>),
{
}

/// Whether `recv_step` can read the buffer without stopping the program.
pub fn buffer_is_supported(buf: &[u8]) -> (res: bool)
    ensures
        res == buffer_supported(buf@),
{
    match TokenTree::parse(buf) {
        Ok((_, tree)) => Operation::<TokenTree>::is_supported(&tree),
        Err(_) => true,
    }
}

/// Whether `decide` can decide on the message without stopping the
/// program.
pub fn is_decidable(op: &Operation<TokenTree>) -> (res: bool)
    ensures
        res == !decision_unsupported(op.deep_view()),
{
    match op {
        Operation::DeliverOnly(del) => del.to_desc.position != 0,
        Operation::Deliver(del) => {
            if del.to_desc.position != 0 {
                return true;
            }
            proof {
                lemma_trees_view(del.args@);
                assert(del.args.deep_view().len() == del.args@.len());
            }
            if del.args.len() < 2 {
                return false;
            }
            proof {
                assert(del.args.deep_view()[0] == del.args@[0]@);
                assert(del.args.deep_view()[1] == del.args@[1]@);
            }
            let first = match symbol::decode(&del.args[0]) {
                Ok(name) => name == "fetch".to_owned(),
                Err(_) => false,
            };
            let second = match &del.args[1] {
                TokenTree::Literal(Literal::Bytes(_)) => true,
                _ => false,
            };
            first && second
        },
        Operation::Abort(_) => true,
    }
}

} // verus!
