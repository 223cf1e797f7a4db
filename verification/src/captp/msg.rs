//! CapTP messages and descriptors, as Syrup records: a symbol label, then
//! the fields in order.

use vstd::prelude::*;

use crate::de::error::{DecodeError, IntDescription, SyrupKind};
use crate::de::impl_decode::{decode_view, utf8_spec, Decode};
use crate::de::lex::collection::{
    lemma_tree_view, lemma_trees_view, tree_kind, trees_view, List, Record, SpecTree, TokenTree,
};
use crate::de::lex::literal::{Literal, SpecLiteral};
use crate::de::lex::order::bytes_equal;
use crate::ser::{unsigned_tree, Encode};
use crate::symbol;
use vstd::utf8::encode_utf8;

mod start_session;
pub use start_session::{
    accept_start_session, ed25519_public_key, ed25519_signature, ed25519_verifies, generate_start_msg,
    location_verifies, try_accept_start_session, OpStartSession, PublicKey, Signature, SignatureError,
};

verus! {

broadcast use lemma_tree_view;

/// The symbol literal of a name.
pub open spec fn symbol_tree(name: Seq<char>) -> SpecTree {
    SpecTree::Literal(SpecLiteral::Symbol(encode_utf8(name)))
}

/// A record labelled with the symbol `name`.
pub open spec fn record_tree(name: Seq<char>, fields: Seq<SpecTree>) -> SpecTree {
    SpecTree::Record(Box::new(symbol_tree(name)), fields)
}

/// The error for a tree that is not a record labelled `name`.
pub open spec fn not_record(name: &'static str, t: SpecTree) -> DecodeError {
    DecodeError::Unexpected { expected: SyrupKind::Record { label: Some(name) }, found: tree_kind(t) }
}

/// The fields of a record labelled with the symbol `name`.
pub open spec fn named_fields(t: SpecTree, name: &'static str) -> Result<Seq<SpecTree>, DecodeError> {
    match t {
        SpecTree::Record(label, fields) => if *label == symbol_tree(name@) {
            Ok(fields)
        } else {
            Err(not_record(name, t))
        },
        _ => Err(not_record(name, t)),
    }
}

/// The kind of a `u64`.
pub open spec fn u64_kind() -> SyrupKind {
    SyrupKind::Int { desc: Some(IntDescription { signed: false, width: 8 }) }
}

/// A record of one position: its label checked, its first field decoded as
/// a `u64`.
pub open spec fn position_spec(t: SpecTree, name: &'static str) -> Result<u64, DecodeError> {
    match named_fields(t, name) {
        Err(e) => Err(e),
        Ok(fields) => if fields.len() == 0 {
            Err(DecodeError::Missing(u64_kind()))
        } else {
            <u64 as Decode>::decode_spec(fields[0])
        },
    }
}

/// A record labelled `name` with one position field.
pub open spec fn position_tree(name: Seq<char>, position: u64) -> SpecTree {
    record_tree(name, seq![unsigned_tree(position as nat)])
}

/// The fields of a record labelled `name`, or the error for another tree.
fn named_record_fields<'t>(input: &'t TokenTree, name: &'static str) -> (res: Result<&'t Vec<TokenTree>, DecodeError>)
    ensures
        match res {
            Ok(v) => named_fields(input@, name) == Ok::<Seq<SpecTree>, DecodeError>(trees_view(v@)),
            Err(e) => named_fields(input@, name) == Err::<Seq<SpecTree>, DecodeError>(e),
        },
{
    match input {
        TokenTree::Record(r) => {
            let matches = match &r.label {
                TokenTree::Literal(Literal::Symbol(b)) => bytes_equal(b.as_slice(), name.as_bytes()),
                _ => false,
            };
            if matches {
                Ok(&r.elements)
            } else {
                Err(DecodeError::unexpected(SyrupKind::Record { label: Some(name) }, input))
            }
        },
        _ => Err(DecodeError::unexpected(SyrupKind::Record { label: Some(name) }, input)),
    }
}

/// Decodes a record of one position field.
fn decode_position(input: &TokenTree, name: &'static str) -> (res: Result<u64, DecodeError>)
    ensures
        res == position_spec(input@, name),
{
    let fields = match named_record_fields(input, name) {
        Ok(f) => f,
        Err(e) => return Err(e),
    };
    proof {
        lemma_trees_view(fields@);
    }
    if fields.len() == 0 {
        return Err(DecodeError::Missing(SyrupKind::Int { desc: Some(IntDescription::new(false, 8)) }));
    }
    u64::decode(&fields[0])
}

/// The tree of a record labelled `name` with one position field.
fn encode_position(name: &'static str, position: u64) -> (res: TokenTree)
    ensures
        res@ == position_tree(name@, position),
{
    let mut fields: Vec<TokenTree> = Vec::new();
    fields.push(position.encode());
    proof {
        lemma_trees_view(fields@);
        assert(trees_view(fields@) =~= seq![unsigned_tree(position as nat)]);
    }
    TokenTree::Record(Box::new(Record::new(symbol::encode(name), fields)))
}

/// A position in the exporter's table.
#[derive(Debug, Clone, Copy, PartialEq, Eq, Structural)]
pub struct DescExport {
    pub position: u64,
}

/// A position in the importer's object table.
#[derive(Debug, Clone, Copy, PartialEq, Eq, Structural)]
pub struct DescImportObject {
    pub position: u64,
}

/// A position in the importer's promise table.
#[derive(Debug, Clone, Copy, PartialEq, Eq, Structural)]
pub struct DescImportPromise {
    pub position: u64,
}

/// An imported object or promise.
#[derive(Debug, Clone, Copy, PartialEq, Eq, Structural)]
pub enum DescImport {
    Object(DescImportObject),
    Promise(DescImportPromise),
}

impl DeepView for DescExport {
    type V = DescExport;

    open spec fn deep_view(&self) -> DescExport {
        *self
    }
}

impl DeepView for DescImportObject {
    type V = DescImportObject;

    open spec fn deep_view(&self) -> DescImportObject {
        *self
    }
}

impl DeepView for DescImportPromise {
    type V = DescImportPromise;

    open spec fn deep_view(&self) -> DescImportPromise {
        *self
    }
}

impl DeepView for DescImport {
    type V = DescImport;

    open spec fn deep_view(&self) -> DescImport {
        *self
    }
}

impl DescExport {
    /// The export at the position.
    pub fn new(position: u64) -> (res: Self)
        ensures
            res.position == position,
    {
        DescExport { position }
    }
}

impl Decode for DescExport {
    /// `<desc:export position>`
    open spec fn decode_spec(t: SpecTree) -> Result<DescExport, DecodeError> {
        match position_spec(t, "desc:export") {
            Ok(position) => Ok(DescExport { position }),
            Err(e) => Err(e),
        }
    }

    fn decode(input: &TokenTree) -> (res: Result<DescExport, DecodeError>) {
        match decode_position(input, "desc:export") {
            Ok(position) => Ok(DescExport { position }),
            Err(e) => Err(e),
        }
    }
}

impl Encode for DescExport {
    open spec fn encode_spec(v: DescExport) -> SpecTree {
        position_tree("desc:export"@, v.position)
    }

    fn encode(&self) -> (res: TokenTree) {
        encode_position("desc:export", self.position)
    }
}

impl Decode for DescImportObject {
    /// `<desc:import-object position>`
    open spec fn decode_spec(t: SpecTree) -> Result<DescImportObject, DecodeError> {
        match position_spec(t, "desc:import-object") {
            Ok(position) => Ok(DescImportObject { position }),
            Err(e) => Err(e),
        }
    }

    fn decode(input: &TokenTree) -> (res: Result<DescImportObject, DecodeError>) {
        match decode_position(input, "desc:import-object") {
            Ok(position) => Ok(DescImportObject { position }),
            Err(e) => Err(e),
        }
    }
}

impl Encode for DescImportObject {
    open spec fn encode_spec(v: DescImportObject) -> SpecTree {
        position_tree("desc:import-object"@, v.position)
    }

    fn encode(&self) -> (res: TokenTree) {
        encode_position("desc:import-object", self.position)
    }
}

impl Decode for DescImportPromise {
    /// `<desc:import-promise position>`
    open spec fn decode_spec(t: SpecTree) -> Result<DescImportPromise, DecodeError> {
        match position_spec(t, "desc:import-promise") {
            Ok(position) => Ok(DescImportPromise { position }),
            Err(e) => Err(e),
        }
    }

    fn decode(input: &TokenTree) -> (res: Result<DescImportPromise, DecodeError>) {
        match decode_position(input, "desc:import-promise") {
            Ok(position) => Ok(DescImportPromise { position }),
            Err(e) => Err(e),
        }
    }
}

impl Encode for DescImportPromise {
    open spec fn encode_spec(v: DescImportPromise) -> SpecTree {
        position_tree("desc:import-promise"@, v.position)
    }

    fn encode(&self) -> (res: TokenTree) {
        encode_position("desc:import-promise", self.position)
    }
}

impl From<DescImportObject> for DescImport {
    fn from(value: DescImportObject) -> (res: Self) {
        DescImport::Object(value)
    }
}

impl vstd::std_specs::convert::FromSpecImpl<DescImportObject> for DescImport {
    open spec fn obeys_from_spec() -> bool {
        true
    }

    open spec fn from_spec(v: DescImportObject) -> DescImport {
        DescImport::Object(v)
    }
}

impl From<DescImportPromise> for DescImport {
    fn from(value: DescImportPromise) -> (res: Self) {
        DescImport::Promise(value)
    }
}

impl vstd::std_specs::convert::FromSpecImpl<DescImportPromise> for DescImport {
    open spec fn obeys_from_spec() -> bool {
        true
    }

    open spec fn from_spec(v: DescImportPromise) -> DescImport {
        DescImport::Promise(v)
    }
}

/// The text of a record's label, read as a symbol.
pub open spec fn label_text(label: SpecTree) -> Result<Seq<char>, DecodeError> {
    match label {
        SpecTree::Literal(SpecLiteral::Symbol(b)) => utf8_spec(b),
        _ => Err(DecodeError::Unexpected { expected: SyrupKind::Symbol(None), found: tree_kind(label) }),
    }
}

/// The inputs on which reading a descriptor of an import stops the program:
/// a record whose label is a symbol other than the two known ones, or one
/// of those without a field.
pub open spec fn desc_import_unsupported(t: SpecTree) -> bool {
    match t {
        SpecTree::Record(label, fields) => match label_text(*label) {
            Ok(name) => if name == "desc:import-promise"@ || name == "desc:import-object"@ {
                fields.len() == 0
            } else {
                true
            },
            Err(_) => false,
        },
        _ => false,
    }
}

/// Reading a descriptor of an import: a record labelled
/// `desc:import-promise` or `desc:import-object`, whose first field is the
/// position.
pub open spec fn desc_import_spec(t: SpecTree) -> Result<DescImport, DecodeError> {
    match t {
        SpecTree::Record(label, fields) => match label_text(*label) {
            Err(e) => Err(e),
            Ok(name) => if name == "desc:import-promise"@ {
                match <u64 as Decode>::decode_spec(fields[0]) {
                    Ok(position) => Ok(DescImport::Promise(DescImportPromise { position })),
                    Err(e) => Err(e),
                }
            } else {
                match <u64 as Decode>::decode_spec(fields[0]) {
                    Ok(position) => Ok(DescImport::Object(DescImportObject { position })),
                    Err(e) => Err(e),
                }
            },
        },
        _ => Err(DecodeError::Unexpected { expected: SyrupKind::Record { label: None }, found: tree_kind(t) }),
    }
}

/// A record's label text, or the error for a tree that is not a record or
/// whose label is not a symbol of valid UTF-8.
fn record_label(input: &TokenTree) -> (res: Result<String, DecodeError>)
    ensures
        match input@ {
            SpecTree::Record(label, _) => decode_view(res) == label_text(*label),
            _ => res == Err::<String, DecodeError>(DecodeError::Unexpected { expected: SyrupKind::Record { label: None }, found: tree_kind(input@) }),
        },
{
    match input {
        TokenTree::Record(r) => symbol::decode(&r.label),
        _ => Err(DecodeError::unexpected(SyrupKind::Record { label: None }, input)),
    }
}

impl DescImport {
    /// Reads a descriptor of an import from a tree.
    pub fn decode(input: &TokenTree) -> (res: Result<DescImport, DecodeError>)
        requires
            !desc_import_unsupported(input@),
        ensures
            res == desc_import_spec(input@),
    {
        let name = match record_label(input) {
            Ok(n) => n,
            Err(e) => return Err(e),
        };
        let fields = match input {
            TokenTree::Record(r) => &r.elements,
            _ => return Err(DecodeError::unexpected(SyrupKind::Record { label: None }, input)),
        };
        proof {
            lemma_trees_view(fields@);
        }
        if name == "desc:import-promise".to_owned() {
            match u64::decode(&fields[0]) {
                Ok(position) => Ok(DescImport::Promise(DescImportPromise { position })),
                Err(e) => Err(e),
            }
        } else {
            match u64::decode(&fields[0]) {
                Ok(position) => Ok(DescImport::Object(DescImportObject { position })),
                Err(e) => Err(e),
            }
        }
    }

    /// Whether `decode` can read the tree without stopping the program.
    pub fn is_supported(input: &TokenTree) -> (res: bool)
        ensures
            res == !desc_import_unsupported(input@),
    {
        let name = match record_label(input) {
            Ok(n) => n,
            Err(_) => return true,
        };
        match input {
            TokenTree::Record(r) => {
                proof {
                    lemma_trees_view(r.elements@);
                }
                if name == "desc:import-promise".to_owned() || name == "desc:import-object".to_owned() {
                    r.elements.len() != 0
                } else {
                    false
                }
            },
            _ => true,
        }
    }

    /// The descriptor's tree.
    pub fn encode(&self) -> (res: TokenTree)
        ensures
            res@ == desc_import_tree(*self),
    {
        match self {
            DescImport::Object(o) => o.encode(),
            DescImport::Promise(p) => p.encode(),
        }
    }
}

/// The tree of a descriptor of an import.
pub open spec fn desc_import_tree(d: DescImport) -> SpecTree {
    match d {
        DescImport::Object(o) => position_tree("desc:import-object"@, o.position),
        DescImport::Promise(p) => position_tree("desc:import-promise"@, p.position),
    }
}

/// A message to an exported object, expecting no answer.
#[derive(Debug, Clone)]
pub struct OpDeliverOnly<Arg> {
    pub to_desc: DescExport,
    pub args: Vec<Arg>,
}

/// A message to an exported object, with where to send the answer.
#[derive(Debug, Clone)]
pub struct OpDeliver<Arg> {
    pub to_desc: DescExport,
    pub args: Vec<Arg>,
    pub answer_pos: Option<u64>,
    pub resolve_me_desc: DescImport,
}

/// The end of a session, with a reason.
#[derive(Debug, Clone)]
pub struct OpAbort {
    pub reason: String,
}

/// A message of a session.
#[derive(Debug, Clone)]
pub enum Operation<Inner> {
    DeliverOnly(OpDeliverOnly<Inner>),
    Deliver(OpDeliver<Inner>),
    Abort(OpAbort),
}

/// The model of a message.
pub enum SpecOperation<A> {
    DeliverOnly(DescExport, Seq<A>),
    Deliver(DescExport, Seq<A>, Option<u64>, DescImport),
    Abort(Seq<char>),
}

impl<Arg: DeepView> DeepView for OpDeliverOnly<Arg> {
    type V = (DescExport, Seq<Arg::V>);

    open spec fn deep_view(&self) -> (DescExport, Seq<Arg::V>) {
        (self.to_desc, self.args.deep_view())
    }
}

impl<Arg: DeepView> DeepView for OpDeliver<Arg> {
    type V = (DescExport, Seq<Arg::V>, Option<u64>, DescImport);

    open spec fn deep_view(&self) -> (DescExport, Seq<Arg::V>, Option<u64>, DescImport) {
        (self.to_desc, self.args.deep_view(), self.answer_pos, self.resolve_me_desc)
    }
}

impl<Inner: DeepView> DeepView for Operation<Inner> {
    type V = SpecOperation<Inner::V>;

    open spec fn deep_view(&self) -> SpecOperation<Inner::V> {
        match self {
            Operation::DeliverOnly(d) => SpecOperation::DeliverOnly(d.to_desc, d.args.deep_view()),
            Operation::Deliver(d) => SpecOperation::Deliver(d.to_desc, d.args.deep_view(), d.answer_pos, d.resolve_me_desc),
            Operation::Abort(a) => SpecOperation::Abort(a.reason@),
        }
    }
}

impl<Arg> OpDeliverOnly<Arg> {
    /// A delivery of the arguments to the position, with no answer.
    pub fn new(position: u64, args: Vec<Arg>) -> (res: Self)
        ensures
            res.to_desc.position == position,
            res.args == args,
    {
        OpDeliverOnly { to_desc: DescExport { position }, args }
    }
}

impl<Arg> OpDeliver<Arg> {
    /// A delivery of the arguments to the position, answered as given.
    pub fn new(position: u64, args: Vec<Arg>, answer_pos: Option<u64>, resolve_me_desc: DescImport) -> (res: Self)
        ensures
            res.to_desc.position == position,
            res.args == args,
            res.answer_pos == answer_pos,
            res.resolve_me_desc == resolve_me_desc,
    {
        OpDeliver { to_desc: DescExport { position }, args, answer_pos, resolve_me_desc }
    }
}

/// The arguments of a call: the method's name as a symbol, then the
/// arguments.
pub open spec fn ident_args(ident: Seq<char>, args: Seq<SpecTree>) -> Seq<SpecTree> {
    seq![symbol_tree(ident)] + args
}

/// The method's name as a symbol, then the arguments.
fn ident_arg_trees(ident: &str, args: Vec<TokenTree>) -> (res: Vec<TokenTree>)
    ensures
        res.deep_view() == ident_args(ident@, args.deep_view()),
{
    let mut res: Vec<TokenTree> = Vec::new();
    res.push(symbol::encode(ident));
    let mut rest = args;
    let ghost rest_view = rest.deep_view();
    res.append(&mut rest);
    proof {
        assert(res.deep_view() =~= ident_args(ident@, rest_view));
    }
    res
}

impl OpDeliverOnly<TokenTree> {
    /// A call of the named method of the object at the position, with no
    /// answer.
    pub fn from_ident_args(position: u64, ident: &str, args: Vec<TokenTree>) -> (res: Self)
        ensures
            res.deep_view() == (DescExport { position }, ident_args(ident@, args.deep_view())),
    {
        Self::new(position, ident_arg_trees(ident, args))
    }
}

impl OpDeliver<TokenTree> {
    /// A call of the named method of the object at the position, answered
    /// as given.
    pub fn from_ident_args(
        position: u64,
        ident: &str,
        args: Vec<TokenTree>,
        answer_pos: Option<u64>,
        resolve_me_desc: DescImport,
    ) -> (res: Self)
        ensures
            res.deep_view() == (DescExport { position }, ident_args(ident@, args.deep_view()), answer_pos, resolve_me_desc),
    {
        Self::new(position, ident_arg_trees(ident, args), answer_pos, resolve_me_desc)
    }
}

impl OpAbort {
    /// An abort for the reason.
    pub fn new(reason: String) -> (res: Self)
        ensures
            res.reason == reason,
    {
        OpAbort { reason }
    }
}

/// The inputs on which reading a message stops the program: a record whose
/// label is a symbol other than `op:deliver-only`, `op:deliver` and
/// `op:abort`, one that reaches a missing field, or an `op:deliver` whose
/// descriptor of an import is unsupported.
pub open spec fn operation_unsupported<A: Decode>(t: SpecTree) -> bool {
    match t {
        SpecTree::Record(label, f) => match label_text(*label) {
            Ok(name) => if name == "op:deliver-only"@ {
                f.len() == 0 || (<DescExport as Decode>::decode_spec(f[0]) is Ok && f.len() == 1)
            } else if name == "op:deliver"@ {
                ||| f.len() == 0
                ||| (<DescExport as Decode>::decode_spec(f[0]) is Ok && f.len() == 1)
                ||| (<DescExport as Decode>::decode_spec(f[0]) is Ok
                    && <Vec<A> as Decode>::decode_spec(f[1]) is Ok && f.len() == 2)
                ||| (<DescExport as Decode>::decode_spec(f[0]) is Ok
                    && <Vec<A> as Decode>::decode_spec(f[1]) is Ok
                    && <Option<u64> as Decode>::decode_spec(f[2]) is Ok
                    && (f.len() == 3 || desc_import_unsupported(f[3])))
            } else if name == "op:abort"@ {
                f.len() == 0
            } else {
                true
            },
            Err(_) => false,
        },
        _ => false,
    }
}

/// Reading a message: a record whose label names the operation, whose
/// fields are read in order; the first failure is the result.
pub open spec fn operation_spec<A: Decode>(t: SpecTree) -> Result<SpecOperation<A::V>, DecodeError> {
    match t {
        SpecTree::Record(label, f) => match label_text(*label) {
            Err(e) => Err(e),
            Ok(name) => if name == "op:deliver-only"@ {
                match <DescExport as Decode>::decode_spec(f[0]) {
                    Err(e) => Err(e),
                    Ok(to) => match <Vec<A> as Decode>::decode_spec(f[1]) {
                        Err(e) => Err(e),
                        Ok(args) => Ok(SpecOperation::DeliverOnly(to, args)),
                    },
                }
            } else if name == "op:deliver"@ {
                match <DescExport as Decode>::decode_spec(f[0]) {
                    Err(e) => Err(e),
                    Ok(to) => match <Vec<A> as Decode>::decode_spec(f[1]) {
                        Err(e) => Err(e),
                        Ok(args) => match <Option<u64> as Decode>::decode_spec(f[2]) {
                            Err(e) => Err(e),
                            Ok(answer) => match desc_import_spec(f[3]) {
                                Err(e) => Err(e),
                                Ok(desc) => Ok(SpecOperation::Deliver(to, args, answer, desc)),
                            },
                        },
                    },
                }
            } else {
                match <String as Decode>::decode_spec(f[0]) {
                    Err(e) => Err(e),
                    Ok(reason) => Ok(SpecOperation::Abort(reason)),
                }
            },
        },
        _ => Err(DecodeError::Unexpected { expected: SyrupKind::Record { label: None }, found: tree_kind(t) }),
    }
}

impl<Inner: Decode> Operation<Inner> {
    /// Reads a message from a tree.
    pub fn decode(input: &TokenTree) -> (res: Result<Operation<Inner>, DecodeError>)
        requires
            !operation_unsupported::<Inner>(input@),
        ensures
            decode_view(res) == operation_spec::<Inner>(input@),
    {
        let name = match record_label(input) {
            Ok(n) => n,
            Err(e) => return Err(e),
        };
        let f = match input {
            TokenTree::Record(r) => &r.elements,
            _ => return Err(DecodeError::unexpected(SyrupKind::Record { label: None }, input)),
        };
        proof {
            lemma_trees_view(f@);
        }
        if name == "op:deliver-only".to_owned() {
            let to_desc = match DescExport::decode(&f[0]) {
                Ok(v) => v,
                Err(e) => return Err(e),
            };
            let args = match Vec::<Inner>::decode(&f[1]) {
                Ok(v) => v,
                Err(e) => return Err(e),
            };
            Ok(Operation::DeliverOnly(OpDeliverOnly { to_desc, args }))
        } else if name == "op:deliver".to_owned() {
            let to_desc = match DescExport::decode(&f[0]) {
                Ok(v) => v,
                Err(e) => return Err(e),
            };
            let args = match Vec::<Inner>::decode(&f[1]) {
                Ok(v) => v,
                Err(e) => return Err(e),
            };
            let answer_pos = match Option::<u64>::decode(&f[2]) {
                Ok(v) => v,
                Err(e) => return Err(e),
            };
            let resolve_me_desc = match DescImport::decode(&f[3]) {
                Ok(v) => v,
                Err(e) => return Err(e),
            };
            Ok(Operation::Deliver(OpDeliver { to_desc, args, answer_pos, resolve_me_desc }))
        } else {
            let reason = match String::decode(&f[0]) {
                Ok(v) => v,
                Err(e) => return Err(e),
            };
            Ok(Operation::Abort(OpAbort { reason }))
        }
    }
}

/// The tree of an optional position: `false` for none.
pub open spec fn option_u64_tree(o: Option<u64>) -> SpecTree {
    match o {
        None => SpecTree::Literal(SpecLiteral::Bool(false)),
        Some(p) => unsigned_tree(p as nat),
    }
}

/// The tree of a message: a record labelled with the operation's name, its
/// fields in order.
pub open spec fn operation_tree<A: Encode>(op: SpecOperation<<A as DeepView>::V>) -> SpecTree {
    match op {
        SpecOperation::DeliverOnly(to, args) => record_tree(
            "op:deliver-only"@,
            seq![position_tree("desc:export"@, to.position), <Vec<A> as Encode>::encode_spec(args)],
        ),
        SpecOperation::Deliver(to, args, answer, desc) => record_tree(
            "op:deliver"@,
            seq![
                position_tree("desc:export"@, to.position),
                <Vec<A> as Encode>::encode_spec(args),
                option_u64_tree(answer),
                desc_import_tree(desc),
            ],
        ),
        SpecOperation::Abort(reason) => record_tree(
            "op:abort"@,
            seq![<String as Encode>::encode_spec(reason)],
        ),
    }
}

/// A record labelled `name` with the given fields.
fn make_record(name: &'static str, fields: Vec<TokenTree>) -> (res: TokenTree)
    ensures
        res@ == record_tree(name@, trees_view(fields@)),
{
    TokenTree::Record(Box::new(Record::new(symbol::encode(name), fields)))
}

impl<Inner: Encode> Operation<Inner> {
    /// The message's tree.
    pub fn encode(&self) -> (res: TokenTree)
        ensures
            res@ == operation_tree::<Inner>(self.deep_view()),
    {
        let mut fields: Vec<TokenTree> = Vec::new();
        match self {
            Operation::DeliverOnly(d) => {
                fields.push(d.to_desc.encode());
                fields.push(d.args.encode());
                proof {
                    lemma_trees_view(fields@);
                    assert(trees_view(fields@) =~= seq![position_tree("desc:export"@, d.to_desc.position), <Vec<Inner> as Encode>::encode_spec(d.args.deep_view())]);
                }
                make_record("op:deliver-only", fields)
            },
            Operation::Deliver(d) => {
                fields.push(d.to_desc.encode());
                fields.push(d.args.encode());
                fields.push(d.answer_pos.encode());
                fields.push(d.resolve_me_desc.encode());
                proof {
                    lemma_trees_view(fields@);
                    assert(trees_view(fields@) =~= seq![
                        position_tree("desc:export"@, d.to_desc.position),
                        <Vec<Inner> as Encode>::encode_spec(d.args.deep_view()),
                        option_u64_tree(d.answer_pos),
                        desc_import_tree(d.resolve_me_desc),
                    ]);
                }
                make_record("op:deliver", fields)
            },
            Operation::Abort(a) => {
                fields.push(a.reason.encode());
                proof {
                    lemma_trees_view(fields@);
                    assert(trees_view(fields@) =~= seq![<String as Encode>::encode_spec(a.reason@)]);
                }
                make_record("op:abort", fields)
            },
        }
    }
}

impl<Inner: Decode> Operation<Inner> {
    /// Whether `decode` can read the tree without stopping the program.
    pub fn is_supported(input: &TokenTree) -> (res: bool)
        ensures
            res == !operation_unsupported::<Inner>(input@),
    {
        let name = match record_label(input) {
            Ok(n) => n,
            Err(_) => return true,
        };
        let f = match input {
            TokenTree::Record(r) => &r.elements,
            _ => return true,
        };
        proof {
            lemma_trees_view(f@);
        }
        if name == "op:deliver-only".to_owned() {
            if f.len() == 0 {
                return false;
            }
            !(DescExport::decode(&f[0]).is_ok() && f.len() == 1)
        } else if name == "op:deliver".to_owned() {
            if f.len() == 0 {
                return false;
            }
            if DescExport::decode(&f[0]).is_err() {
                return true;
            }
            if f.len() == 1 {
                return false;
            }
            if Vec::<Inner>::decode(&f[1]).is_err() {
                return true;
            }
            if f.len() == 2 {
                return false;
            }
            if Option::<u64>::decode(&f[2]).is_err() {
                return true;
            }
            if f.len() == 3 {
                return false;
            }
            DescImport::is_supported(&f[3])
        } else if name == "op:abort".to_owned() {
            f.len() != 0
        } else {
            false
        }
    }
}

/// A symbol label reads back as its name.
proof fn lemma_label_text(name: Seq<char>)
    ensures
        label_text(symbol_tree(name)) == Ok::<Seq<char>, DecodeError>(name),
{
    vstd::utf8::encode_utf8_valid_utf8(name);
    vstd::utf8::encode_utf8_decode_utf8(name);
}

/// A position record reads back as its position.
proof fn lemma_position_roundtrip(name: &'static str, position: u64)
    ensures
        position_spec(position_tree(name@, position), name) == Ok::<u64, DecodeError>(position),
{
    crate::de::lex::integer::lemma_decimal(position as nat);
}

/// Trees decode to themselves, one by one.
proof fn lemma_decode_trees(es: Seq<SpecTree>)
    ensures
        crate::de::impl_decode::decode_all::<TokenTree>(es) == Ok::<Seq<SpecTree>, DecodeError>(es),
    decreases es.len(),
{
    if es.len() > 0 {
        lemma_decode_trees(es.drop_first());
        assert(seq![es[0]] + es.drop_first() =~= es);
    } else {
        assert(es =~= Seq::<SpecTree>::empty());
    }
}

/// A descriptor of an import reads back from its tree.
pub proof fn lemma_desc_import_roundtrip(d: DescImport)
    ensures
        !desc_import_unsupported(desc_import_tree(d)),
        desc_import_spec(desc_import_tree(d)) == Ok::<DescImport, DecodeError>(d),
{
    reveal_strlit("desc:import-promise");
    reveal_strlit("desc:import-object");
    match d {
        DescImport::Object(o) => {
            lemma_label_text("desc:import-object"@);
            crate::de::lex::integer::lemma_decimal(o.position as nat);
        },
        DescImport::Promise(p) => {
            lemma_label_text("desc:import-promise"@);
            crate::de::lex::integer::lemma_decimal(p.position as nat);
        },
    }
}

/// A message whose arguments are trees reads back from its tree, and
/// reading it does not stop the program.
pub proof fn lemma_operation_roundtrip(op: SpecOperation<SpecTree>)
    ensures
        !operation_unsupported::<TokenTree>(operation_tree::<TokenTree>(op)),
        operation_spec::<TokenTree>(operation_tree::<TokenTree>(op)) == Ok::<SpecOperation<SpecTree>, DecodeError>(op),
{
    reveal_strlit("op:deliver-only");
    reveal_strlit("op:deliver");
    reveal_strlit("op:abort");
    match op {
        SpecOperation::DeliverOnly(to, args) => {
            lemma_label_text("op:deliver-only"@);
            lemma_position_roundtrip("desc:export", to.position);
            assert(args.map_values(|x: SpecTree| <TokenTree as Encode>::encode_spec(x)) =~= args);
            lemma_decode_trees(args);
        },
        SpecOperation::Deliver(to, args, answer, desc) => {
            lemma_label_text("op:deliver"@);
            lemma_position_roundtrip("desc:export", to.position);
            assert(args.map_values(|x: SpecTree| <TokenTree as Encode>::encode_spec(x)) =~= args);
            lemma_decode_trees(args);
            if let Some(p) = answer {
                crate::de::lex::integer::lemma_decimal(p as nat);
            }
            lemma_desc_import_roundtrip(desc);
        },
        SpecOperation::Abort(reason) => {
            lemma_label_text("op:abort"@);
            vstd::utf8::encode_utf8_valid_utf8(reason);
            vstd::utf8::encode_utf8_decode_utf8(reason);
        },
    }
}

} // verus!
