//! Objects at the other end of a session, its bootstrap object, and the
//! resolvers of its promises, as the messages that reach them.

use vstd::prelude::*;

use crate::bytes;
use crate::captp::session::{decision_unsupported, is_fetch};
use crate::captp::msg::{
    desc_import_tree, ident_args, symbol_tree, DescExport, DescImport, OpDeliver, OpDeliverOnly,
    SpecOperation,
};
use crate::de::impl_decode::Decode;
use crate::de::lex::collection::{lemma_tree_view, SpecTree, TokenTree};
use crate::de::lex::literal::SpecLiteral;
use crate::ser::{unsigned_tree, Encode};
use vstd::utf8::{encode_utf8, encode_utf8_decode_utf8, encode_utf8_valid_utf8};

verus! {

broadcast use lemma_tree_view;

/// An object exported by the other end of a session, at its position.
#[derive(Debug, Clone, Copy)]
pub struct RemoteObject {
    pub position: DescExport,
}

impl RemoteObject {
    /// The object at the position.
    pub fn new(position: DescExport) -> (res: Self)
        ensures
            res.position == position,
    {
        RemoteObject { position }
    }

    /// A delivery of the arguments to the object, with no answer.
    pub fn deliver_only(&self, args: Vec<TokenTree>) -> (res: OpDeliverOnly<TokenTree>)
        ensures
            res.deep_view() == (self.position, args.deep_view()),
    {
        OpDeliverOnly::new(self.position.position, args)
    }

    /// A delivery of the arguments to the object, answered as given.
    pub fn deliver(&self, args: Vec<TokenTree>, answer_pos: Option<u64>, resolve_me_desc: DescImport) -> (res: OpDeliver<TokenTree>)
        ensures
            res.deep_view() == (self.position, args.deep_view(), answer_pos, resolve_me_desc),
    {
        OpDeliver::new(self.position.position, args, answer_pos, resolve_me_desc)
    }

    /// A call of the object's named method, with no answer.
    pub fn call_only(&self, ident: &str, args: Vec<TokenTree>) -> (res: OpDeliverOnly<TokenTree>)
        ensures
            res.deep_view() == (self.position, ident_args(ident@, args.deep_view())),
    {
        OpDeliverOnly::from_ident_args(self.position.position, ident, args)
    }

    /// A call of the object's named method, answered as given.
    pub fn call(
        &self,
        ident: &str,
        args: Vec<TokenTree>,
        answer_pos: Option<u64>,
        resolve_me_desc: DescImport,
    ) -> (res: OpDeliver<TokenTree>)
        ensures
            res.deep_view() == (self.position, ident_args(ident@, args.deep_view()), answer_pos, resolve_me_desc),
    {
        OpDeliver::from_ident_args(self.position.position, ident, args, answer_pos, resolve_me_desc)
    }
}

/// Why the reply to a fetch names no object.
#[derive(Debug, Clone)]
pub enum FetchError {
    /// The reply has no arguments.
    MissingResult,
    /// The reply's last argument is not an export position.
    UnexpectedArgument(TokenTree),
}

/// The model of a fetch error.
pub enum SpecFetchError {
    MissingResult,
    UnexpectedArgument(SpecTree),
}

impl View for FetchError {
    type V = SpecFetchError;

    open spec fn view(&self) -> SpecFetchError {
        match self {
            FetchError::MissingResult => SpecFetchError::MissingResult,
            FetchError::UnexpectedArgument(t) => SpecFetchError::UnexpectedArgument(t@),
        }
    }
}

/// The object that a fetch's reply names: its last argument, read as an
/// export position.
pub open spec fn fetch_reply_spec(args: Seq<SpecTree>) -> Result<DescExport, SpecFetchError> {
    if args.len() == 0 {
        Err(SpecFetchError::MissingResult)
    } else {
        match <DescExport as Decode>::decode_spec(args.last()) {
            Ok(d) => Ok(d),
            Err(_) => Err(SpecFetchError::UnexpectedArgument(args.last())),
        }
    }
}

/// The byte-string tree of some bytes.
pub open spec fn bytes_tree(b: Seq<u8>) -> SpecTree {
    SpecTree::Literal(SpecLiteral::Bytes(b))
}

/// The bootstrap object of the other end of a session, at position 0.
#[derive(Debug, Clone, Copy)]
pub struct RemoteBootstrap {
    pub base: RemoteObject,
}

impl RemoteBootstrap {
    /// The bootstrap object.
    pub fn new() -> (res: Self)
        ensures
            res.base.position == (DescExport { position: 0 }),
    {
        RemoteBootstrap { base: RemoteObject::new(DescExport { position: 0 }) }
    }

    /// Asks for the object registered under the swiss number, answered as
    /// given.
    pub fn fetch_to(&self, swiss_number: &[u8], answer_pos: Option<u64>, resolve_me_desc: DescImport) -> (res: OpDeliver<TokenTree>)
        ensures
            res.deep_view() == (
                self.base.position,
                ident_args("fetch"@, seq![bytes_tree(swiss_number@)]),
                answer_pos,
                resolve_me_desc,
            ),
    {
        let mut args: Vec<TokenTree> = Vec::new();
        args.push(bytes::encode(crate::de::cursor::copy_bytes(swiss_number)));
        proof {
            assert(args.deep_view() =~= seq![bytes_tree(swiss_number@)]);
        }
        self.base.call("fetch", args, answer_pos, resolve_me_desc)
    }

    /// Deposits a gift: the gift's id and the descriptor of what it is.
    pub fn deposit_gift(&self, gift_id: u64, desc: DescImport) -> (res: OpDeliverOnly<TokenTree>)
        ensures
            res.deep_view() == (
                self.base.position,
                ident_args("deposit_gift"@, seq![unsigned_tree(gift_id as nat), desc_import_tree(desc)]),
            ),
    {
        let mut args: Vec<TokenTree> = Vec::new();
        args.push(gift_id.encode());
        args.push(desc.encode());
        proof {
            assert(args.deep_view() =~= seq![unsigned_tree(gift_id as nat), desc_import_tree(desc)]);
        }
        self.base.call_only("deposit_gift", args)
    }

    /// The object that the reply to a fetch names.
    pub fn fetch_reply(&self, args: Vec<TokenTree>) -> (res: Result<RemoteObject, FetchError>)
        ensures
            match (res, fetch_reply_spec(args.deep_view())) {
                (Ok(o), Ok(d)) => o.position == d,
                (Err(e), Err(se)) => e@ == se,
                _ => false,
            },
    {
        let mut args = args;
        let ghost a = args.deep_view();
        match args.pop() {
            None => Err(FetchError::MissingResult),
            Some(last) => {
                proof {
                    assert(last@ == a.last());
                }
                match DescExport::decode(&last) {
                    Ok(position) => Ok(RemoteObject { position }),
                    Err(_) => Err(FetchError::UnexpectedArgument(last)),
                }
            },
        }
    }
}

/// The position a resolver's descriptor names.
pub open spec fn desc_position(d: DescImport) -> u64 {
    match d {
        DescImport::Object(o) => o.position,
        DescImport::Promise(p) => p.position,
    }
}

/// The text tree of a string.
pub open spec fn string_tree(s: Seq<char>) -> SpecTree {
    SpecTree::Literal(SpecLiteral::String(encode_utf8(s)))
}

/// The resolver of a promise held by the other end of a session: where the
/// answer goes, and the descriptor of the object that takes it.
#[derive(Debug, Clone, Copy)]
pub struct GenericResolver {
    pub answer_pos: Option<u64>,
    pub resolve_me_desc: DescImport,
}

impl GenericResolver {
    /// The resolver for the answer position and descriptor.
    pub fn new(answer_pos: Option<u64>, resolve_me_desc: DescImport) -> (res: Self)
        ensures
            res.answer_pos == answer_pos,
            res.resolve_me_desc == resolve_me_desc,
    {
        GenericResolver { answer_pos, resolve_me_desc }
    }

    /// The export position of the object that takes the answer.
    fn position(&self) -> (res: DescExport)
        ensures
            res.position == desc_position(self.resolve_me_desc),
    {
        match self.resolve_me_desc {
            DescImport::Object(o) => DescExport { position: o.position },
            DescImport::Promise(p) => DescExport { position: p.position },
        }
    }

    /// Fulfils the promise with the arguments: a call of `fulfill`,
    /// answered as given.
    pub fn fulfill(&self, args: Vec<TokenTree>, answer_pos: Option<u64>, resolve_me_desc: DescImport) -> (res: OpDeliver<TokenTree>)
        ensures
            res.deep_view() == (
                DescExport { position: desc_position(self.resolve_me_desc) },
                ident_args("fulfill"@, args.deep_view()),
                answer_pos,
                resolve_me_desc,
            ),
    {
        RemoteObject::new(self.position()).call("fulfill", args, answer_pos, resolve_me_desc)
    }

    /// Breaks the promise: the string `break`, then the error, with no
    /// answer.
    pub fn break_promise(&self, error: TokenTree) -> (res: OpDeliverOnly<TokenTree>)
        ensures
            res.deep_view() == (
                DescExport { position: desc_position(self.resolve_me_desc) },
                seq![string_tree("break"@), error@],
            ),
    {
        let mut args: Vec<TokenTree> = Vec::new();
        args.push("break".encode());
        args.push(error);
        proof {
            assert(args.deep_view() =~= seq![string_tree("break"@), args@[1]@]);
        }
        RemoteObject::new(self.position()).deliver_only(args)
    }
}

/// The resolver of a fetch: it answers with an export position.
#[derive(Debug, Clone, Copy)]
pub struct FetchResolver {
    pub base: GenericResolver,
}

impl FetchResolver {
    /// Fulfils the fetch with the position of the object fetched.
    pub fn fulfill(&self, position: DescExport, answer_pos: Option<u64>, resolve_me_desc: DescImport) -> (res: OpDeliver<TokenTree>)
        ensures
            res.deep_view() == (
                DescExport { position: desc_position(self.base.resolve_me_desc) },
                ident_args("fulfill"@, seq![<DescExport as Encode>::encode_spec(position)]),
                answer_pos,
                resolve_me_desc,
            ),
    {
        let mut args: Vec<TokenTree> = Vec::new();
        args.push(position.encode());
        proof {
            assert(args.deep_view() =~= seq![<DescExport as Encode>::encode_spec(position)]);
        }
        self.base.fulfill(args, answer_pos, resolve_me_desc)
    }

    /// Breaks the fetch's promise with the error.
    pub fn break_promise(&self, error: TokenTree) -> (res: OpDeliverOnly<TokenTree>)
        ensures
            res.deep_view() == (
                DescExport { position: desc_position(self.base.resolve_me_desc) },
                seq![string_tree("break"@), error@],
            ),
    {
        self.base.break_promise(error)
    }
}

impl From<GenericResolver> for FetchResolver {
    fn from(base: GenericResolver) -> (res: Self) {
        FetchResolver { base }
    }
}

impl vstd::std_specs::convert::FromSpecImpl<GenericResolver> for FetchResolver {
    open spec fn obeys_from_spec() -> bool {
        true
    }

    open spec fn from_spec(base: GenericResolver) -> FetchResolver {
        FetchResolver { base }
    }
}

/// A fetch that the bootstrap side asks for is one that the receiving side
/// decides as a fetch: its arguments are the symbol `fetch` and the swiss
/// number as a byte string, which is what the decision hands on.
pub proof fn lemma_fetch_request_decided(swiss_number: Seq<u8>, answer_pos: Option<u64>, resolve_me_desc: DescImport)
    ensures
        ({
            let args = ident_args("fetch"@, seq![bytes_tree(swiss_number)]);
            &&& is_fetch(args)
            &&& args[1] == bytes_tree(swiss_number)
            &&& !decision_unsupported(SpecOperation::Deliver(DescExport { position: 0 }, args, answer_pos, resolve_me_desc))
        }),
{
    encode_utf8_valid_utf8("fetch"@);
    encode_utf8_decode_utf8("fetch"@);
    let args = ident_args("fetch"@, seq![bytes_tree(swiss_number)]);
    assert(args[0] == symbol_tree("fetch"@));
    assert(args[1] == bytes_tree(swiss_number));
}

} // verus!
