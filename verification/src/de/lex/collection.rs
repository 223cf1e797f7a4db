//! Token trees: a literal, or a list, record, set or dictionary of token
//! trees; their canonical byte encoding and their streaming parser.

use vstd::prelude::*;
use vstd::std_specs::cmp::PartialEqSpecImpl;

use crate::de::cursor::{needs, CursorError, Needed};
use crate::de::error::SyrupKind;
use crate::de::lex::literal::{
    byte, byte_spec, encode_literal, literal_kind, lemma_literal_consumes, literal_spec, res_view, IResult,
    Literal, PRes, SpecLiteral,
};
use crate::de::lex::order::{
    bytes_equal, bytes_view, concat, concat_entries, dict_encoded_entries, encode_into_as_dict,
    encode_into_as_set, entries_view, set_encoded_entries, sorted_entries, sorted_set, Entry,
};

verus! {

/// The model of a token tree.
pub enum SpecTree {
    Dictionary(Seq<(SpecTree, SpecTree)>),
    List(Seq<SpecTree>),
    Record(Box<SpecTree>, Seq<SpecTree>),
    SetOf(Seq<SpecTree>),
    Literal(SpecLiteral),
}

/// The encoding of a tree: a literal's bytes, or an opening byte, the
/// encoded children, and a closing byte. Set entries are sorted with
/// duplicates dropped; dictionary entries are sorted by encoded key, the
/// first entry of a key winning.
pub open spec fn encode_tree(t: SpecTree) -> Seq<u8>
    decreases t,
{
    match t {
        SpecTree::Literal(l) => encode_literal(l),
        SpecTree::List(es) => seq![0x5bu8] + concat(encodings(es)) + seq![0x5du8],
        SpecTree::Record(label, es) => seq![0x3cu8] + encode_tree(*label) + concat(encodings(es))
            + seq![0x3eu8],
        SpecTree::SetOf(es) => seq![0x23u8] + concat(sorted_set(encodings(es))) + seq![0x24u8],
        SpecTree::Dictionary(ps) => seq![0x7bu8] + concat_entries(sorted_entries(pair_encodings(ps)))
            + seq![0x7du8],
    }
}

/// The encodings of a sequence of trees.
pub open spec fn encodings(es: Seq<SpecTree>) -> Seq<Seq<u8>>
    decreases es,
{
    if es.len() == 0 {
        Seq::empty()
    } else {
        encodings(es.subrange(0, es.len() - 1)).push(encode_tree(es[es.len() - 1]))
    }
}

/// The encodings of a sequence of key-value pairs.
pub open spec fn pair_encodings(ps: Seq<(SpecTree, SpecTree)>) -> Seq<Entry>
    decreases ps,
{
    if ps.len() == 0 {
        Seq::empty()
    } else {
        let last = ps[ps.len() - 1];
        proof {
            assert(decreases_to!(ps => ps[ps.len() - 1]));
        }
        pair_encodings(ps.subrange(0, ps.len() - 1)).push(
            (encode_tree(last.0), encode_tree(last.1)),
        )
    }
}

/// A token tree.
#[derive(Debug)]
pub enum TokenTree {
    Dictionary(Dictionary),
    List(List),
    Record(Box<Record>),
    SetOf(TokenSet),
    Literal(Literal),
}

/// A sequence of trees, encoded between `[` and `]`.
#[derive(Debug)]
pub struct List {
    pub elements: Vec<TokenTree>,
}

/// A label and a sequence of trees, encoded between `<` and `>`.
#[derive(Debug)]
pub struct Record {
    pub label: TokenTree,
    pub elements: Vec<TokenTree>,
}

/// Trees encoded between `#` and `$`, sorted by encoding, without
/// duplicates.
#[derive(Debug)]
pub struct TokenSet {
    entries: Vec<TokenTree>,
}

/// Key-value pairs encoded between `{` and `}`, sorted by encoded key, the
/// first pair of each key kept.
#[derive(Debug)]
pub struct Dictionary {
    entries: Vec<(TokenTree, TokenTree)>,
}

/// The model of a tree.
pub closed spec fn tree_view(t: TokenTree) -> SpecTree
    decreases t,
{
    match t {
        TokenTree::Literal(l) => SpecTree::Literal(l@),
        TokenTree::List(l) => SpecTree::List(trees_view(l.elements@)),
        TokenTree::Record(r) => SpecTree::Record(
            Box::new(tree_view(r.label)),
            trees_view(r.elements@),
        ),
        TokenTree::SetOf(s) => SpecTree::SetOf(trees_view(s.entries@)),
        TokenTree::Dictionary(d) => SpecTree::Dictionary(pairs_view(d.entries@)),
    }
}

/// The models of a sequence of trees.
pub closed spec fn trees_view(s: Seq<TokenTree>) -> Seq<SpecTree>
    decreases s,
{
    if s.len() == 0 {
        Seq::empty()
    } else {
        trees_view(s.subrange(0, s.len() - 1)).push(tree_view(s[s.len() - 1]))
    }
}

/// The models of a sequence of key-value pairs.
pub closed spec fn pairs_view(s: Seq<(TokenTree, TokenTree)>) -> Seq<(SpecTree, SpecTree)>
    decreases s,
{
    if s.len() == 0 {
        Seq::empty()
    } else {
        let last = s[s.len() - 1];
        proof {
            assert(decreases_to!(s => s[s.len() - 1]));
        }
        pairs_view(s.subrange(0, s.len() - 1)).push((tree_view(last.0), tree_view(last.1)))
    }
}

impl DeepView for List {
    type V = Seq<SpecTree>;

    open spec fn deep_view(&self) -> Seq<SpecTree> {
        self@
    }
}

impl DeepView for Record {
    type V = (SpecTree, Seq<SpecTree>);

    open spec fn deep_view(&self) -> (SpecTree, Seq<SpecTree>) {
        self@
    }
}

impl DeepView for TokenSet {
    type V = Seq<SpecTree>;

    open spec fn deep_view(&self) -> Seq<SpecTree> {
        self@
    }
}

impl DeepView for Dictionary {
    type V = Seq<(SpecTree, SpecTree)>;

    open spec fn deep_view(&self) -> Seq<(SpecTree, SpecTree)> {
        self@
    }
}

impl View for TokenTree {
    type V = SpecTree;

    open spec fn view(&self) -> SpecTree {
        tree_view(*self)
    }
}

impl DeepView for TokenTree {
    type V = SpecTree;

    open spec fn deep_view(&self) -> SpecTree {
        tree_view(*self)
    }
}

impl View for List {
    type V = Seq<SpecTree>;

    open spec fn view(&self) -> Seq<SpecTree> {
        trees_view(self.elements@)
    }
}

impl View for Record {
    type V = (SpecTree, Seq<SpecTree>);

    open spec fn view(&self) -> (SpecTree, Seq<SpecTree>) {
        (tree_view(self.label), trees_view(self.elements@))
    }
}

impl View for TokenSet {
    type V = Seq<SpecTree>;

    closed spec fn view(&self) -> Seq<SpecTree> {
        trees_view(self.entries@)
    }
}

impl View for Dictionary {
    type V = Seq<(SpecTree, SpecTree)>;

    closed spec fn view(&self) -> Seq<(SpecTree, SpecTree)> {
        pairs_view(self.entries@)
    }
}

/// How a tree's model follows from its parts.
pub broadcast proof fn lemma_tree_view(t: TokenTree)
    ensures
        #[trigger] tree_view(t) == match t {
            TokenTree::Literal(l) => SpecTree::Literal(l@),
            TokenTree::List(l) => SpecTree::List(l@),
            TokenTree::Record(r) => SpecTree::Record(Box::new(r@.0), r@.1),
            TokenTree::SetOf(s) => SpecTree::SetOf(s@),
            TokenTree::Dictionary(d) => SpecTree::Dictionary(d@),
        },
{
}

/// The models of a sequence of trees, element by element.
pub broadcast proof fn lemma_trees_view(s: Seq<TokenTree>)
    ensures
        #[trigger] trees_view(s).len() == s.len(),
        forall|i: int| 0 <= i < s.len() ==> #[trigger] trees_view(s)[i] == tree_view(s[i]),
    decreases s.len(),
{
    if s.len() > 0 {
        lemma_trees_view(s.subrange(0, s.len() - 1));
    }
}

/// The models of a sequence of pairs, pair by pair.
pub broadcast proof fn lemma_pairs_view(s: Seq<(TokenTree, TokenTree)>)
    ensures
        #[trigger] pairs_view(s).len() == s.len(),
        forall|i: int| 0 <= i < s.len() ==> #[trigger] pairs_view(s)[i] == (tree_view(s[i].0), tree_view(s[i].1)),
    decreases s.len(),
{
    if s.len() > 0 {
        lemma_pairs_view(s.subrange(0, s.len() - 1));
    }
}

/// The encodings of a sequence of trees, element by element.
pub proof fn lemma_encodings(es: Seq<SpecTree>)
    ensures
        encodings(es).len() == es.len(),
        forall|i: int| 0 <= i < es.len() ==> #[trigger] encodings(es)[i] == encode_tree(es[i]),
    decreases es.len(),
{
    if es.len() > 0 {
        lemma_encodings(es.subrange(0, es.len() - 1));
    }
}

/// The encodings of a sequence of pairs, pair by pair.
pub proof fn lemma_pair_encodings(ps: Seq<(SpecTree, SpecTree)>)
    ensures
        pair_encodings(ps).len() == ps.len(),
        forall|i: int| 0 <= i < ps.len() ==> #[trigger] pair_encodings(ps)[i] == (encode_tree(ps[i].0), encode_tree(ps[i].1)),
    decreases ps.len(),
{
    if ps.len() > 0 {
        lemma_pair_encodings(ps.subrange(0, ps.len() - 1));
    }
}

/// Pushing one more tree appends its encoding.
proof fn lemma_encodings_push(es: Seq<SpecTree>, i: int)
    requires
        0 <= i < es.len(),
    ensures
        concat(encodings(es.take(i + 1))) == concat(encodings(es.take(i))) + encode_tree(es[i]),
        encodings(es.take(i + 1)) == encodings(es.take(i)).push(encode_tree(es[i])),
{
    assert(es.take(i + 1).subrange(0, i) =~= es.take(i));
    let l = encodings(es.take(i + 1));
    assert(l.drop_last() =~= encodings(es.take(i)));
}

/// Pushing one more pair appends its encodings.
proof fn lemma_pair_encodings_push(ps: Seq<(SpecTree, SpecTree)>, i: int)
    requires
        0 <= i < ps.len(),
    ensures
        pair_encodings(ps.take(i + 1)) == pair_encodings(ps.take(i)).push(
            (encode_tree(ps[i].0), encode_tree(ps[i].1)),
        ),
{
    assert(ps.take(i + 1).subrange(0, i) =~= ps.take(i));
}

/// The kind of a tree.
pub open spec fn tree_kind(t: SpecTree) -> SyrupKind {
    match t {
        SpecTree::Dictionary(_) => SyrupKind::Dictionary,
        SpecTree::List(es) => SyrupKind::List { length: Some(es.len() as usize) },
        SpecTree::Record(_, _) => SyrupKind::Record { label: None },
        SpecTree::SetOf(_) => SyrupKind::SetOf,
        SpecTree::Literal(l) => literal_kind(l),
    }
}

impl TokenTree {
    /// The tree's kind.
    pub fn kind(&self) -> (res: SyrupKind)
        ensures
            res == tree_kind(self@),
    {
        match self {
            TokenTree::Dictionary(_) => SyrupKind::Dictionary,
            TokenTree::List(list) => {
                proof {
                    lemma_trees_view(list.elements@);
                }
                SyrupKind::List { length: Some(list.elements.len()) }
            },
            TokenTree::Record(_) => SyrupKind::Record { label: None },
            TokenTree::SetOf(_) => SyrupKind::SetOf,
            TokenTree::Literal(literal) => literal.kind(),
        }
    }

    /// Appends the tree's encoding to `w` and returns how many bytes were
    /// written.
    pub fn write_bytes(&self, w: &mut Vec<u8>) -> (res: usize)
        ensures
            final(w)@ == old(w)@ + encode_tree(self@),
            res == encode_tree(self@).len(),
        decreases self, 1nat,
    {
        match self {
            TokenTree::Dictionary(d) => d.encode_into(w),
            TokenTree::List(l) => l.encode_into(w),
            TokenTree::Record(r) => r.encode_into(w),
            TokenTree::SetOf(s) => s.encode_into(w),
            TokenTree::Literal(l) => l.encode_into(w),
        }
    }

    /// The tree's encoding.
    pub fn to_bytes(&self) -> (res: Vec<u8>)
        ensures
            res@ == encode_tree(self@),
        decreases self, 2nat,
    {
        let mut res: Vec<u8> = Vec::new();
        self.write_bytes(&mut res);
        proof {
            assert(res@ =~= encode_tree(self@));
        }
        res
    }
}

impl List {
    /// A list of the elements.
    pub fn new(elements: Vec<TokenTree>) -> (res: Self)
        ensures
            res@ == trees_view(elements@),
    {
        List { elements }
    }

    /// The list's encoding.
    pub fn encode(&self) -> (res: Vec<u8>)
        ensures
            res@ == encode_tree(SpecTree::List(self@)),
    {
        let mut res: Vec<u8> = Vec::new();
        self.encode_into(&mut res);
        proof {
            assert(res@ =~= encode_tree(SpecTree::List(self@)));
        }
        res
    }

    /// Appends the list's encoding to `w` and returns how many bytes were
    /// written.
    pub fn encode_into(&self, w: &mut Vec<u8>) -> (res: usize)
        ensures
            final(w)@ == old(w)@ + encode_tree(SpecTree::List(self@)),
            res == encode_tree(SpecTree::List(self@)).len(),
        decreases self, 0nat,
    {
        let start = w.len();
        w.push(0x5bu8);
        let mut i: usize = 0;
        proof {
            lemma_trees_view(self.elements@);
            assert(self@.take(0) =~= Seq::<SpecTree>::empty());
        }
        while i < self.elements.len()
            invariant
                i <= self.elements@.len(),
                start == old(w)@.len(),
                self@.len() == self.elements@.len(),
                forall|j: int| 0 <= j < self.elements@.len() ==> #[trigger] self@[j] == tree_view(self.elements@[j]),
                w@ == old(w)@ + seq![0x5bu8] + concat(encodings(self@.take(i as int))),
            decreases self.elements@.len() - i,
        {
            proof {
                assert(decreases_to!(self => self.elements));
                assert(decreases_to!(self.elements => self.elements@));
                assert(decreases_to!(self.elements@ => self.elements@[i as int]));
                lemma_encodings_push(self@, i as int);
            }
            self.elements[i].write_bytes(w);
            i = i + 1;
        }
        w.push(0x5du8);
        proof {
            assert(self@.take(i as int) =~= self@);
        }
        w.len() - start
    }
}

impl Record {
    /// A record with the label and elements.
    pub fn new(label: TokenTree, elements: Vec<TokenTree>) -> (res: Self)
        ensures
            res@ == (label@, trees_view(elements@)),
    {
        Record { label, elements }
    }

    /// The record's encoding.
    pub fn encode(&self) -> (res: Vec<u8>)
        ensures
            res@ == encode_tree(SpecTree::Record(Box::new(self@.0), self@.1)),
    {
        let mut res: Vec<u8> = Vec::new();
        self.encode_into(&mut res);
        proof {
            assert(res@ =~= encode_tree(SpecTree::Record(Box::new(self@.0), self@.1)));
        }
        res
    }

    /// Appends the record's encoding to `w` and returns how many bytes were
    /// written.
    pub fn encode_into(&self, w: &mut Vec<u8>) -> (res: usize)
        ensures
            final(w)@ == old(w)@ + encode_tree(SpecTree::Record(Box::new(self@.0), self@.1)),
            res == encode_tree(SpecTree::Record(Box::new(self@.0), self@.1)).len(),
        decreases self, 0nat,
    {
        let start = w.len();
        w.push(0x3cu8);
        proof {
            assert(decreases_to!(self => self.label));
        }
        self.label.write_bytes(w);
        let mut i: usize = 0;
        let ghost es = self@.1;
        proof {
            lemma_trees_view(self.elements@);
            assert(es.take(0) =~= Seq::<SpecTree>::empty());
        }
        while i < self.elements.len()
            invariant
                i <= self.elements@.len(),
                start == old(w)@.len(),
                es == self@.1,
                es.len() == self.elements@.len(),
                forall|j: int| 0 <= j < self.elements@.len() ==> #[trigger] es[j] == tree_view(self.elements@[j]),
                w@ == old(w)@ + seq![0x3cu8] + encode_tree(self@.0) + concat(encodings(es.take(i as int))),
            decreases self.elements@.len() - i,
        {
            proof {
                assert(decreases_to!(self => self.elements));
                assert(decreases_to!(self.elements => self.elements@));
                assert(decreases_to!(self.elements@ => self.elements@[i as int]));
                lemma_encodings_push(es, i as int);
            }
            self.elements[i].write_bytes(w);
            i = i + 1;
        }
        w.push(0x3eu8);
        proof {
            assert(es.take(i as int) =~= es);
        }
        w.len() - start
    }
}

impl TokenSet {
    /// A set of the given trees; trees with equal encodings count once.
    pub fn new(entries: Vec<TokenTree>) -> (res: Self)
        ensures
            res@ == trees_view(entries@),
    {
        TokenSet { entries }
    }

    /// The number of entries given, duplicates included.
    pub fn len(&self) -> (res: usize)
        ensures
            res == self@.len(),
    {
        proof {
            lemma_trees_view(self.entries@);
        }
        self.entries.len()
    }

    pub fn is_empty(&self) -> (res: bool)
        ensures
            res == (self@.len() == 0),
    {
        proof {
            lemma_trees_view(self.entries@);
        }
        self.entries.len() == 0
    }

    /// The entry at a position.
    pub fn get(&self, i: usize) -> (res: &TokenTree)
        requires
            i < self@.len(),
        ensures
            res@ == self@[i as int],
    {
        proof {
            lemma_trees_view(self.entries@);
        }
        &self.entries[i]
    }

    /// The encodings of the entries, in order.
    fn entry_encodings(&self) -> (res: Vec<Vec<u8>>)
        ensures
            bytes_view(res@) == encodings(self@),
        decreases self, 0nat,
    {
        let mut encs: Vec<Vec<u8>> = Vec::new();
        let mut i: usize = 0;
        let ghost es = self@;
        proof {
            lemma_trees_view(self.entries@);
            assert(bytes_view(encs@) =~= encodings(es.take(0)));
        }
        while i < self.entries.len()
            invariant
                i <= self.entries@.len(),
                es == self@,
                es.len() == self.entries@.len(),
                forall|j: int| 0 <= j < self.entries@.len() ==> #[trigger] es[j] == tree_view(self.entries@[j]),
                bytes_view(encs@) == encodings(es.take(i as int)),
            decreases self.entries@.len() - i,
        {
            proof {
                assert(decreases_to!(self => self.entries));
                assert(decreases_to!(self.entries => self.entries@));
                assert(decreases_to!(self.entries@ => self.entries@[i as int]));
                lemma_encodings_push(es, i as int);
            }
            let e = self.entries[i].to_bytes();
            let ghost before = encs@;
            encs.push(e);
            proof {
                assert(bytes_view(encs@) =~= bytes_view(before).push(e@));
            }
            i = i + 1;
        }
        proof {
            assert(es.take(i as int) =~= es);
        }
        encs
    }

    /// The set's encoding.
    pub fn encode(&self) -> (res: Vec<u8>)
        ensures
            res@ == encode_tree(SpecTree::SetOf(self@)),
    {
        let mut res: Vec<u8> = Vec::new();
        self.encode_into(&mut res);
        proof {
            assert(res@ =~= encode_tree(SpecTree::SetOf(self@)));
        }
        res
    }

    /// Appends the set's encoding to `w` and returns how many bytes were
    /// written.
    pub fn encode_into(&self, w: &mut Vec<u8>) -> (res: usize)
        ensures
            final(w)@ == old(w)@ + encode_tree(SpecTree::SetOf(self@)),
            res == encode_tree(SpecTree::SetOf(self@)).len(),
        decreases self, 1nat,
    {
        let encs = self.entry_encodings();
        let (_, sorted) = set_encoded_entries(encs);
        encode_into_as_set(sorted.as_slice(), w)
    }
}

impl Dictionary {
    /// A dictionary of the given pairs; of pairs whose keys have equal
    /// encodings, the first counts.
    pub fn new(entries: Vec<(TokenTree, TokenTree)>) -> (res: Self)
        ensures
            res@ == pairs_view(entries@),
    {
        Dictionary { entries }
    }

    /// The number of pairs given, duplicates included.
    pub fn len(&self) -> (res: usize)
        ensures
            res == self@.len(),
    {
        proof {
            lemma_pairs_view(self.entries@);
        }
        self.entries.len()
    }

    pub fn is_empty(&self) -> (res: bool)
        ensures
            res == (self@.len() == 0),
    {
        proof {
            lemma_pairs_view(self.entries@);
        }
        self.entries.len() == 0
    }

    /// The pair at a position.
    pub fn pair(&self, i: usize) -> (res: (&TokenTree, &TokenTree))
        requires
            i < self@.len(),
        ensures
            (res.0@, res.1@) == self@[i as int],
    {
        proof {
            lemma_pairs_view(self.entries@);
        }
        (&self.entries[i].0, &self.entries[i].1)
    }

    /// The encodings of the pairs, in order.
    fn entry_encodings(&self) -> (res: Vec<(Vec<u8>, Vec<u8>)>)
        ensures
            entries_view(res@) == pair_encodings(self@),
        decreases self, 0nat,
    {
        let mut encs: Vec<(Vec<u8>, Vec<u8>)> = Vec::new();
        let mut i: usize = 0;
        let ghost ps = self@;
        proof {
            lemma_pairs_view(self.entries@);
            assert(entries_view(encs@) =~= pair_encodings(ps.take(0)));
        }
        while i < self.entries.len()
            invariant
                i <= self.entries@.len(),
                ps == self@,
                ps.len() == self.entries@.len(),
                forall|j: int| 0 <= j < self.entries@.len() ==> #[trigger] ps[j] == (tree_view(self.entries@[j].0), tree_view(self.entries@[j].1)),
                entries_view(encs@) == pair_encodings(ps.take(i as int)),
            decreases self.entries@.len() - i,
        {
            proof {
                assert(decreases_to!(self => self.entries));
                assert(decreases_to!(self.entries => self.entries@));
                assert(decreases_to!(self.entries@ => self.entries@[i as int]));
                assert(decreases_to!(self.entries@[i as int] => self.entries@[i as int].0));
                assert(decreases_to!(self.entries@[i as int] => self.entries@[i as int].1));
                lemma_pair_encodings_push(ps, i as int);
            }
            let k = self.entries[i].0.to_bytes();
            let v = self.entries[i].1.to_bytes();
            let ghost before = encs@;
            encs.push((k, v));
            proof {
                assert(entries_view(encs@) =~= entries_view(before).push((k@, v@)));
            }
            i = i + 1;
        }
        proof {
            assert(ps.take(i as int) =~= ps);
        }
        encs
    }

    /// The dictionary's encoding.
    pub fn encode(&self) -> (res: Vec<u8>)
        ensures
            res@ == encode_tree(SpecTree::Dictionary(self@)),
    {
        let mut res: Vec<u8> = Vec::new();
        self.encode_into(&mut res);
        proof {
            assert(res@ =~= encode_tree(SpecTree::Dictionary(self@)));
        }
        res
    }

    /// Appends the dictionary's encoding to `w` and returns how many bytes
    /// were written.
    pub fn encode_into(&self, w: &mut Vec<u8>) -> (res: usize)
        ensures
            final(w)@ == old(w)@ + encode_tree(SpecTree::Dictionary(self@)),
            res == encode_tree(SpecTree::Dictionary(self@)).len(),
        decreases self, 1nat,
    {
        let encs = self.entry_encodings();
        let (_, pairs) = dict_encoded_entries(encs);
        encode_into_as_dict(&pairs, w)
    }
}

/// One tree. The alternatives are tried in order: a literal, a list, a
/// record, a set, a dictionary; an alternative that fails with `Error`
/// passes the input on to the next, any other outcome is final.
pub open spec fn tree_spec(s: Seq<u8>) -> PRes<SpecTree>
    decreases s.len(), 3nat,
{
    match literal_spec(s) {
        Ok((r, l)) => Ok((r, SpecTree::Literal(l))),
        Err(CursorError::Error) => match delimited_spec(s, 0x5b, 0x5d) {
            Ok((r, es)) => Ok((r, SpecTree::List(es))),
            Err(CursorError::Error) => match record_spec(s) {
                Ok((r, (label, es))) => Ok((r, SpecTree::Record(Box::new(label), es))),
                Err(CursorError::Error) => match delimited_spec(s, 0x23, 0x24) {
                    Ok((r, es)) => Ok((r, SpecTree::SetOf(es))),
                    Err(CursorError::Error) => match dict_spec(s) {
                        Ok((r, ps)) => Ok((r, SpecTree::Dictionary(ps))),
                        Err(e) => Err(e),
                    },
                    Err(e) => Err(e),
                },
                Err(e) => Err(e),
            },
            Err(e) => Err(e),
        },
        Err(e) => Err(e),
    }
}

/// The byte `open`, any number of trees, then the byte `close` (lists and
/// sets).
pub open spec fn delimited_spec(s: Seq<u8>, open: u8, close: u8) -> PRes<Seq<SpecTree>>
    decreases s.len(), 2nat,
{
    if s.len() == 0 {
        Err(needs(1))
    } else if s[0] != open {
        Err(CursorError::Error)
    } else {
        match many_spec(s.drop_first()) {
            Err(e) => Err(e),
            Ok((r, es)) => match byte_spec(r, close) {
                Err(e) => Err(e),
                Ok((r2, _)) => Ok((r2, es)),
            },
        }
    }
}

/// `<`, a label tree, any number of trees, then `>`.
pub open spec fn record_spec(s: Seq<u8>) -> PRes<(SpecTree, Seq<SpecTree>)>
    decreases s.len(), 2nat,
{
    if s.len() == 0 {
        Err(needs(1))
    } else if s[0] != 0x3c {
        Err(CursorError::Error)
    } else {
        match tree_spec(s.drop_first()) {
            Err(e) => Err(e),
            Ok((r, label)) => if r.len() < s.len() {
                match many_spec(r) {
                    Err(e) => Err(e),
                    Ok((r2, es)) => match byte_spec(r2, 0x3e) {
                        Err(e) => Err(e),
                        Ok((r3, _)) => Ok((r3, (label, es))),
                    },
                }
            } else {
                Err(CursorError::Error)
            },
        }
    }
}

/// `{`, any number of key-value pairs, then `}`.
pub open spec fn dict_spec(s: Seq<u8>) -> PRes<Seq<(SpecTree, SpecTree)>>
    decreases s.len(), 2nat,
{
    if s.len() == 0 {
        Err(needs(1))
    } else if s[0] != 0x7b {
        Err(CursorError::Error)
    } else {
        match pairs_spec(s.drop_first()) {
            Err(e) => Err(e),
            Ok((r, ps)) => match byte_spec(r, 0x7d) {
                Err(e) => Err(e),
                Ok((r2, _)) => Ok((r2, ps)),
            },
        }
    }
}

/// Trees, as many as parse: an `Error` ends the run before the failed tree,
/// any other failure is passed on, and a tree that consumes nothing is an
/// `Error`.
pub open spec fn many_spec(s: Seq<u8>) -> PRes<Seq<SpecTree>>
    decreases s.len(), 4nat,
{
    match tree_spec(s) {
        Err(CursorError::Error) => Ok((s, Seq::empty())),
        Err(e) => Err(e),
        Ok((r, t)) => if r.len() < s.len() {
            match many_spec(r) {
                Err(e) => Err(e),
                Ok((r2, ts)) => Ok((r2, seq![t] + ts)),
            }
        } else {
            Err(CursorError::Error)
        },
    }
}

/// Key-value pairs, as many as parse, as in `many_spec`; a key whose value
/// fails with `Error` ends the run before the key.
pub open spec fn pairs_spec(s: Seq<u8>) -> PRes<Seq<(SpecTree, SpecTree)>>
    decreases s.len(), 4nat,
{
    match tree_spec(s) {
        Err(CursorError::Error) => Ok((s, Seq::empty())),
        Err(e) => Err(e),
        Ok((r, k)) => if r.len() <= s.len() {
            match tree_spec(r) {
                Err(CursorError::Error) => Ok((s, Seq::empty())),
                Err(e) => Err(e),
                Ok((r2, v)) => if r2.len() < s.len() {
                    match pairs_spec(r2) {
                        Err(e) => Err(e),
                        Ok((r3, ps)) => Ok((r3, seq![(k, v)] + ps)),
                    }
                } else {
                    Err(CursorError::Error)
                },
            }
        } else {
            Err(CursorError::Error)
        },
    }
}

/// Values parsed before a run of values, put in front of the run's result.
pub open spec fn prepend<T>(a: Seq<T>, r: PRes<Seq<T>>) -> PRes<Seq<T>> {
    match r {
        Ok((rest, ts)) => Ok((rest, a + ts)),
        Err(e) => Err(e),
    }
}

/// Trees, as many as parse.
fn many_trees<'i>(i: &'i [u8]) -> (res: Result<(&'i [u8], Vec<TokenTree>), CursorError>)
    ensures
        match res {
            Ok((r, v)) => many_spec(i@) == Ok::<(Seq<u8>, Seq<SpecTree>), CursorError>((r@, trees_view(v@))) && r@.len() <= i@.len(),
            Err(e) => many_spec(i@) == Err::<(Seq<u8>, Seq<SpecTree>), CursorError>(e),
        },
    decreases i@.len(), 4nat,
{
    let mut acc: Vec<TokenTree> = Vec::new();
    let mut cur: &'i [u8] = i;
    proof {
        assert(trees_view(acc@) =~= Seq::<SpecTree>::empty());
        assert(many_spec(i@) == prepend(trees_view(acc@), many_spec(cur@))) by {
            match many_spec(i@) {
                Ok((r, ts)) => {
                    assert(Seq::<SpecTree>::empty() + ts =~= ts);
                },
                Err(_) => {},
            }
        }
    }
    loop
        invariant
            cur@.len() <= i@.len(),
            many_spec(i@) == prepend(trees_view(acc@), many_spec(cur@)),
        decreases cur@.len(),
    {
        match TokenTree::parse(cur) {
            Err(CursorError::Error) => {
                proof {
                    assert(trees_view(acc@) + Seq::<SpecTree>::empty() =~= trees_view(acc@));
                }
                return Ok((cur, acc));
            },
            Err(e) => {
                return Err(e);
            },
            Ok((r, t)) => {
                let ghost before = acc@;
                acc.push(t);
                proof {
                    assert(acc@.subrange(0, acc@.len() - 1) =~= before);
                    assert(trees_view(acc@) == trees_view(before).push(t@));
                    match many_spec(r@) {
                        Ok((r2, ts)) => {
                            assert(trees_view(before) + (seq![t@] + ts) =~= trees_view(acc@) + ts);
                        },
                        Err(_) => {},
                    }
                }
                cur = r;
            },
        }
    }
}

/// Key-value pairs, as many as parse.
fn many_pairs<'i>(i: &'i [u8]) -> (res: Result<(&'i [u8], Vec<(TokenTree, TokenTree)>), CursorError>)
    ensures
        match res {
            Ok((r, v)) => pairs_spec(i@) == Ok::<(Seq<u8>, Seq<(SpecTree, SpecTree)>), CursorError>((r@, pairs_view(v@))) && r@.len() <= i@.len(),
            Err(e) => pairs_spec(i@) == Err::<(Seq<u8>, Seq<(SpecTree, SpecTree)>), CursorError>(e),
        },
    decreases i@.len(), 4nat,
{
    let mut acc: Vec<(TokenTree, TokenTree)> = Vec::new();
    let mut cur: &'i [u8] = i;
    proof {
        assert(pairs_view(acc@) =~= Seq::<(SpecTree, SpecTree)>::empty());
        assert(pairs_spec(i@) == prepend(pairs_view(acc@), pairs_spec(cur@))) by {
            match pairs_spec(i@) {
                Ok((r, ps)) => {
                    assert(Seq::<(SpecTree, SpecTree)>::empty() + ps =~= ps);
                },
                Err(_) => {},
            }
        }
    }
    loop
        invariant
            cur@.len() <= i@.len(),
            pairs_spec(i@) == prepend(pairs_view(acc@), pairs_spec(cur@)),
        decreases cur@.len(),
    {
        match TokenTree::parse(cur) {
            Err(CursorError::Error) => {
                proof {
                    assert(pairs_view(acc@) + Seq::<(SpecTree, SpecTree)>::empty() =~= pairs_view(acc@));
                }
                return Ok((cur, acc));
            },
            Err(e) => {
                return Err(e);
            },
            Ok((r, k)) => {
                match TokenTree::parse(r) {
                    Err(CursorError::Error) => {
                        proof {
                            assert(pairs_view(acc@) + Seq::<(SpecTree, SpecTree)>::empty() =~= pairs_view(acc@));
                        }
                        return Ok((cur, acc));
                    },
                    Err(e) => {
                        return Err(e);
                    },
                    Ok((r2, v)) => {
                        let ghost before = acc@;
                        acc.push((k, v));
                        proof {
                            assert(acc@.subrange(0, acc@.len() - 1) =~= before);
                            assert(pairs_view(acc@) == pairs_view(before).push((k@, v@)));
                            match pairs_spec(r2@) {
                                Ok((r3, ps)) => {
                                    assert(pairs_view(before) + (seq![(k@, v@)] + ps) =~= pairs_view(acc@) + ps);
                                },
                                Err(_) => {},
                            }
                        }
                        cur = r2;
                    },
                }
            },
        }
    }
}

/// The bytes after a leading `open`, or the error for their absence.
fn open_byte<'i>(i: &'i [u8], open: u8) -> (res: Result<&'i [u8], CursorError>)
    ensures
        match res {
            Ok(r) => i@.len() > 0 && i@[0] == open && r@ == i@.drop_first(),
            Err(e) => (i@.len() == 0 && e == needs(1)) || (i@.len() > 0 && i@[0] != open && e == CursorError::Error),
        },
{
    if i.len() == 0 {
        return Err(CursorError::Incomplete { needed: Needed::Size(1) });
    }
    if i[0] != open {
        return Err(CursorError::Error);
    }
    let (_, rest) = i.split_at(1);
    proof {
        assert(rest@ =~= i@.drop_first());
    }
    Ok(rest)
}

/// `open`, trees, then `close`.
fn delimited<'i>(i: &'i [u8], open: u8, close: u8) -> (res: Result<(&'i [u8], Vec<TokenTree>), CursorError>)
    ensures
        match res {
            Ok((r, v)) => delimited_spec(i@, open, close) == Ok::<(Seq<u8>, Seq<SpecTree>), CursorError>((r@, trees_view(v@))) && r@.len() < i@.len(),
            Err(e) => delimited_spec(i@, open, close) == Err::<(Seq<u8>, Seq<SpecTree>), CursorError>(e),
        },
    decreases i@.len(), 1nat,
{
    let rest = match open_byte(i, open) {
        Ok(r) => r,
        Err(e) => return Err(e),
    };
    let (r, es) = match many_trees(rest) {
        Ok(x) => x,
        Err(e) => return Err(e),
    };
    match byte(r, close) {
        Ok((r2, _)) => Ok((r2, es)),
        Err(e) => Err(e),
    }
}

impl TokenTree {
    /// Lex one tree.
    pub fn parse<'i>(i: &'i [u8]) -> (res: IResult<'i, TokenTree>)
        ensures
            res_view(res) == tree_spec(i@),
            res matches Ok((r, _)) ==> r@.len() < i@.len(),
        decreases i@.len(), 3nat,
    {
        proof {
            lemma_literal_consumes(i@);
        }
        match Literal::parse(i) {
            Ok((r, l)) => return Ok((r, TokenTree::Literal(l))),
            Err(CursorError::Error) => {},
            Err(e) => return Err(e),
        }
        match List::parse(i) {
            Ok((r, l)) => return Ok((r, TokenTree::List(l))),
            Err(CursorError::Error) => {},
            Err(e) => return Err(e),
        }
        match Record::parse(i) {
            Ok((r, rec)) => return Ok((r, TokenTree::Record(Box::new(rec)))),
            Err(CursorError::Error) => {},
            Err(e) => return Err(e),
        }
        match TokenSet::parse(i) {
            Ok((r, s)) => return Ok((r, TokenTree::SetOf(s))),
            Err(CursorError::Error) => {},
            Err(e) => return Err(e),
        }
        match Dictionary::parse(i) {
            Ok((r, d)) => Ok((r, TokenTree::Dictionary(d))),
            Err(e) => Err(e),
        }
    }
}

impl List {
    /// Lex `[`, trees, then `]`.
    pub fn parse<'i>(i: &'i [u8]) -> (res: IResult<'i, List>)
        ensures
            res_view(res) == delimited_spec(i@, 0x5b, 0x5d),
            res matches Ok((r, _)) ==> r@.len() < i@.len(),
        decreases i@.len(), 2nat,
    {
        match delimited(i, 0x5bu8, 0x5du8) {
            Ok((r, es)) => Ok((r, List::new(es))),
            Err(e) => Err(e),
        }
    }
}

impl TokenSet {
    /// Lex `#`, trees, then `$`.
    pub fn parse<'i>(i: &'i [u8]) -> (res: IResult<'i, TokenSet>)
        ensures
            res_view(res) == delimited_spec(i@, 0x23, 0x24),
            res matches Ok((r, _)) ==> r@.len() < i@.len(),
        decreases i@.len(), 2nat,
    {
        match delimited(i, 0x23u8, 0x24u8) {
            Ok((r, es)) => Ok((r, TokenSet::new(es))),
            Err(e) => Err(e),
        }
    }
}

impl Record {
    /// Lex `<`, a label tree, trees, then `>`.
    pub fn parse<'i>(i: &'i [u8]) -> (res: IResult<'i, Record>)
        ensures
            res_view(res) == record_spec(i@),
            res matches Ok((r, _)) ==> r@.len() < i@.len(),
        decreases i@.len(), 2nat,
    {
        let rest = match open_byte(i, 0x3cu8) {
            Ok(r) => r,
            Err(e) => return Err(e),
        };
        let (r, label) = match TokenTree::parse(rest) {
            Ok(x) => x,
            Err(e) => return Err(e),
        };
        let (r2, es) = match many_trees(r) {
            Ok(x) => x,
            Err(e) => return Err(e),
        };
        match byte(r2, 0x3eu8) {
            Ok((r3, _)) => Ok((r3, Record::new(label, es))),
            Err(e) => Err(e),
        }
    }
}

impl Dictionary {
    /// Lex `{`, key-value pairs, then `}`.
    pub fn parse<'i>(i: &'i [u8]) -> (res: IResult<'i, Dictionary>)
        ensures
            res_view(res) == dict_spec(i@),
            res matches Ok((r, _)) ==> r@.len() < i@.len(),
        decreases i@.len(), 2nat,
    {
        let rest = match open_byte(i, 0x7bu8) {
            Ok(r) => r,
            Err(e) => return Err(e),
        };
        let (r, ps) = match many_pairs(rest) {
            Ok(x) => x,
            Err(e) => return Err(e),
        };
        match byte(r, 0x7du8) {
            Ok((r2, _)) => Ok((r2, Dictionary::new(ps))),
            Err(e) => Err(e),
        }
    }
}

impl Clone for TokenTree {
    /// A copy with the same model.
    fn clone(&self) -> (res: Self)
        ensures
            res@ == self@,
    {
        self.deep_clone()
    }
}

impl TokenTree {
    /// A copy with the same model.
    pub fn deep_clone(&self) -> (res: TokenTree)
        ensures
            res@ == self@,
        decreases self, 1nat,
    {
        match self {
            TokenTree::Literal(l) => TokenTree::Literal(l.clone()),
            TokenTree::List(l) => {
                proof {
                    assert(decreases_to!(self => l.elements));
                }
                TokenTree::List(List { elements: clone_trees(&l.elements) })
            },
            TokenTree::Record(r) => {
                proof {
                    assert(decreases_to!(self => r.label));
                    assert(decreases_to!(self => r.elements));
                }
                let label = r.label.deep_clone();
                TokenTree::Record(Box::new(Record { label, elements: clone_trees(&r.elements) }))
            },
            TokenTree::SetOf(s) => {
                proof {
                    assert(decreases_to!(self => s.entries));
                }
                TokenTree::SetOf(TokenSet { entries: clone_trees(&s.entries) })
            },
            TokenTree::Dictionary(d) => {
                proof {
                    assert(decreases_to!(self => d.entries));
                }
                TokenTree::Dictionary(Dictionary { entries: clone_pairs(&d.entries) })
            },
        }
    }
}

/// Copies of trees, with the same models.
fn clone_trees(v: &Vec<TokenTree>) -> (res: Vec<TokenTree>)
    ensures
        trees_view(res@) == trees_view(v@),
    decreases v, 0nat,
{
    let mut res: Vec<TokenTree> = Vec::new();
    let mut i: usize = 0;
    proof {
        lemma_trees_view(v@);
    }
    while i < v.len()
        invariant
            i <= v@.len(),
            res@.len() == i,
            forall|j: int| 0 <= j < i ==> #[trigger] res@[j]@ == v@[j]@,
        decreases v@.len() - i,
    {
        proof {
            assert(decreases_to!(v => v@));
            assert(decreases_to!(v@ => v@[i as int]));
        }
        let t = v[i].deep_clone();
        res.push(t);
        i = i + 1;
    }
    proof {
        lemma_trees_view(res@);
        lemma_trees_view(v@);
        assert forall|j: int| 0 <= j < v@.len() implies #[trigger] trees_view(res@)[j] == trees_view(v@)[j] by {
            assert(res@[j]@ == v@[j]@);
        }
        assert(trees_view(res@) =~= trees_view(v@));
    }
    res
}

/// Copies of pairs of trees, with the same models.
fn clone_pairs(v: &Vec<(TokenTree, TokenTree)>) -> (res: Vec<(TokenTree, TokenTree)>)
    ensures
        pairs_view(res@) == pairs_view(v@),
    decreases v, 0nat,
{
    let mut res: Vec<(TokenTree, TokenTree)> = Vec::new();
    let mut i: usize = 0;
    proof {
        lemma_pairs_view(v@);
    }
    while i < v.len()
        invariant
            i <= v@.len(),
            res@.len() == i,
            forall|j: int| #![trigger res@[j]] 0 <= j < i ==> res@[j].0@ == v@[j].0@ && res@[j].1@ == v@[j].1@,
        decreases v@.len() - i,
    {
        proof {
            assert(decreases_to!(v => v@));
            assert(decreases_to!(v@ => v@[i as int]));
            assert(decreases_to!(v@[i as int] => v@[i as int].0));
            assert(decreases_to!(v@[i as int] => v@[i as int].1));
        }
        let k = v[i].0.deep_clone();
        let x = v[i].1.deep_clone();
        res.push((k, x));
        i = i + 1;
    }
    proof {
        lemma_pairs_view(res@);
        lemma_pairs_view(v@);
        assert forall|j: int| 0 <= j < v@.len() implies #[trigger] pairs_view(res@)[j] == pairs_view(v@)[j] by {
            assert(res@[j].0@ == v@[j].0@ && res@[j].1@ == v@[j].1@);
        }
        assert(pairs_view(res@) =~= pairs_view(v@));
    }
    res
}

/// `<[u8] as Hash>::hash`: feeds the bytes to the hasher. Nothing is stated
/// of the hasher's state.
#[verifier::external_body]
pub(crate) fn hash_bytes<H: std::hash::Hasher>(bytes: &[u8], state: &mut H) {
    std::hash::Hash::hash(bytes, state)
}

/// Trees are equal when they encode to the same bytes; sets and
/// dictionaries compare by their canonical encodings.
impl PartialEq for TokenTree {
    fn eq(&self, other: &Self) -> (res: bool) {
        let a = self.to_bytes();
        let b = other.to_bytes();
        bytes_equal(a.as_slice(), b.as_slice())
    }
}

impl PartialEqSpecImpl for TokenTree {
    open spec fn obeys_eq_spec() -> bool {
        true
    }

    open spec fn eq_spec(&self, other: &Self) -> bool {
        encode_tree(self@) == encode_tree(other@)
    }
}

impl Eq for TokenTree {
}

/// A tree hashes its encoding, so that equal trees hash alike.
impl std::hash::Hash for TokenTree {
    fn hash<H: std::hash::Hasher>(&self, state: &mut H) {
        let b = self.to_bytes();
        hash_bytes(b.as_slice(), state);
    }
}

} // verus!
