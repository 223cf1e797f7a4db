//! Grouping tokens: literals, and the groups that delimiters open and close,
//! each with the span of input it came from.

use vstd::prelude::*;

use crate::de::cursor::{
    advanced, cursor_literal_spec, lemma_leading_digits_bound, Cursor, CursorError, Needed, ParseLiteralError,
};
use crate::de::group::{close_byte, open_byte, Delimiter};
use crate::de::lex::integer::IntErrorKind;
use crate::de::lex::literal::{Literal, SpecLiteral};

verus! {

/// A stretch of input, from the offset `lo` up to the offset `hi`.
#[derive(Debug, Clone, Copy, PartialEq, Eq, Structural)]
pub struct Span {
    pub lo: usize,
    pub hi: usize,
}

impl Span {
    pub fn new(lo: usize, hi: usize) -> (res: Span)
        ensures
            res == (Span { lo, hi }),
    {
        Span { lo, hi }
    }
}

/// The span between two offsets.
pub open spec fn span_at(lo: int, hi: int) -> Span {
    Span { lo: lo as usize, hi: hi as usize }
}

/// Why tokens could not be read.
#[derive(Debug, Clone, Copy)]
#[allow(inconsistent_fields)]
pub enum LexErrorKind {
    /// The input ends inside a token.
    Incomplete { needed: Needed },
    /// A byte that no token starts with.
    Unexpected { expected: &'static str },
    /// A closing delimiter that does not close the open group, whose
    /// delimiter is `expected`.
    Unmatched { expected: Delimiter },
    /// The length of a byte string, string or symbol does not fit.
    Int(IntErrorKind),
}

/// Why tokens could not be read, and where.
#[derive(Debug, Clone, Copy)]
pub struct LexError {
    pub span: Span,
    pub kind: LexErrorKind,
}

/// What the first byte of a group's elements is expected to be, where a
/// closing delimiter stands with no group open.
pub open spec fn unexpected_close() -> &'static str {
    "group element or closing delimiter"
}

impl LexError {
    pub fn new(span: Span, kind: LexErrorKind) -> (res: LexError)
        ensures
            res == (LexError { span, kind }),
    {
        LexError { span, kind }
    }

    /// The input ends inside a token.
    pub fn incomplete(span: Span, needed: Needed) -> (res: LexError)
        ensures
            res == (LexError { span, kind: LexErrorKind::Incomplete { needed } }),
    {
        Self::new(span, LexErrorKind::Incomplete { needed })
    }

    fn unexpected(span: Span, expected: &'static str) -> (res: LexError)
        ensures
            res == (LexError { span, kind: LexErrorKind::Unexpected { expected } }),
    {
        Self::new(span, LexErrorKind::Unexpected { expected })
    }

    fn unmatched(span: Span, expected: Delimiter) -> (res: LexError)
        ensures
            res == (LexError { span, kind: LexErrorKind::Unmatched { expected } }),
    {
        Self::new(span, LexErrorKind::Unmatched { expected })
    }
}

/// The model of a token: a group with its delimiter, its tokens and its
/// span, or a literal with its span.
pub enum SpecToken {
    Group(Delimiter, Seq<SpecToken>, Span),
    Leaf(SpecLiteral, Span),
}

/// The delimiter that the byte opens, if any.
pub open spec fn opened_by(b: u8) -> Option<Delimiter> {
    if b == 0x7b {
        Some(Delimiter::Curly)
    } else if b == 0x5b {
        Some(Delimiter::Square)
    } else if b == 0x3c {
        Some(Delimiter::Angle)
    } else if b == 0x23 {
        Some(Delimiter::HashDollar)
    } else {
        None
    }
}

/// The delimiter that the byte closes, if any.
pub open spec fn closed_by(b: u8) -> Option<Delimiter> {
    if b == 0x7d {
        Some(Delimiter::Curly)
    } else if b == 0x5d {
        Some(Delimiter::Square)
    } else if b == 0x3e {
        Some(Delimiter::Angle)
    } else if b == 0x24 {
        Some(Delimiter::HashDollar)
    } else {
        None
    }
}

/// The literal at the front of `r`, which starts at offset `off`, and how
/// many bytes it takes; `None` where reading stops the program (a byte that
/// starts no literal).
pub open spec fn leaf_spec(r: Seq<u8>, off: int) -> Option<Result<(SpecToken, nat), LexError>> {
    match cursor_literal_spec(r) {
        Ok((n, l)) => Some(Ok((SpecToken::Leaf(l, span_at(off, off + n)), n as nat))),
        Err(ParseLiteralError::ParseLen(k)) => Some(Err(LexError { span: span_at(off, off), kind: LexErrorKind::Int(k) })),
        Err(ParseLiteralError::Cursor(CursorError::Incomplete { needed })) => Some(
            Err(LexError { span: span_at(off, off), kind: LexErrorKind::Incomplete { needed } }),
        ),
        Err(ParseLiteralError::Cursor(CursorError::Error)) => None,
    }
}

/// The first token of `r`, which starts at offset `off`, and how many bytes
/// it takes: a literal; or a group, from its opening delimiter through the
/// tokens inside to the delimiter that closes it. `None` where reading
/// stops the program.
pub open spec fn token_spec(r: Seq<u8>, off: int) -> Option<Result<(SpecToken, nat), LexError>>
    decreases r.len(), 0nat,
{
    if r.len() == 0 {
        Some(Err(LexError { span: span_at(off, off), kind: LexErrorKind::Incomplete { needed: Needed::Unknown } }))
    } else if opened_by(r[0]) is Some {
        let d = opened_by(r[0])->0;
        match items_spec(r.drop_first(), off + 1, d, off) {
            Some(Ok((ts, n))) => Some(Ok((SpecToken::Group(d, ts, span_at(off, off + 1 + n)), (1 + n) as nat))),
            Some(Err(e)) => Some(Err(e)),
            None => None,
        }
    } else if closed_by(r[0]) is Some {
        Some(Err(LexError { span: span_at(off, off), kind: LexErrorKind::Unexpected { expected: unexpected_close() } }))
    } else {
        leaf_spec(r, off)
    }
}

/// The tokens of a group opened by `d` at offset `lo`, from the front of
/// `r` (at offset `off`) through the closing delimiter, and how many bytes
/// they take with it. A closing delimiter of another kind is unmatched; the
/// end of the input leaves the group incomplete.
pub open spec fn items_spec(r: Seq<u8>, off: int, d: Delimiter, lo: int) -> Option<Result<(Seq<SpecToken>, nat), LexError>>
    decreases r.len(), 1nat,
{
    if r.len() == 0 {
        Some(Err(LexError { span: span_at(lo, off), kind: LexErrorKind::Incomplete { needed: Needed::Unknown } }))
    } else if closed_by(r[0]) is Some {
        if closed_by(r[0]) == Some(d) {
            Some(Ok((Seq::empty(), 1nat)))
        } else {
            Some(Err(LexError { span: span_at(off, off), kind: LexErrorKind::Unmatched { expected: d } }))
        }
    } else {
        match token_spec(r, off) {
            Some(Ok((t, n))) => if 0 < n <= r.len() {
                prepend(seq![t], n, items_spec(r.skip(n as int), off + n, d, lo))
            } else {
                None
            },
            Some(Err(e)) => Some(Err(e)),
            None => None,
        }
    }
}

/// Puts `ts` and `k` bytes in front of a successful result.
pub open spec fn prepend(ts: Seq<SpecToken>, k: nat, r: Option<Result<(Seq<SpecToken>, nat), LexError>>) -> Option<Result<(Seq<SpecToken>, nat), LexError>> {
    match r {
        Some(Ok((us, n))) => Some(Ok((ts + us, k + n))),
        other => other,
    }
}

/// All the tokens of `r` (at offset `off`) one after another, how many
/// bytes they take, and the error that stopped reading before the end, if
/// any. `None` where reading stops the program.
pub open spec fn stream_spec(r: Seq<u8>, off: int) -> Option<(Seq<SpecToken>, nat, Option<LexError>)>
    decreases r.len(),
{
    if r.len() == 0 {
        Some((Seq::empty(), 0nat, None))
    } else {
        match token_spec(r, off) {
            Some(Ok((t, n))) => if 0 < n <= r.len() {
                match stream_spec(r.skip(n as int), off + n) {
                    Some((ts, m, e)) => Some((seq![t] + ts, n + m, e)),
                    None => None,
                }
            } else {
                None
            },
            Some(Err(e)) => Some((Seq::empty(), 0nat, Some(e))),
            None => None,
        }
    }
}

/// The span of a token's model.
pub open spec fn token_span(t: SpecToken) -> Span {
    match t {
        SpecToken::Group(_, _, s) => s,
        SpecToken::Leaf(_, s) => s,
    }
}

/// The token with its span replaced.
pub open spec fn with_span(t: SpecToken, s: Span) -> SpecToken {
    match t {
        SpecToken::Group(d, ts, _) => SpecToken::Group(d, ts, s),
        SpecToken::Leaf(l, _) => SpecToken::Leaf(l, s),
    }
}

/// A token read from input at offset `off` spans exactly the bytes it
/// took, which are at least one and no more than the input holds; a group's
/// tokens lie inside its delimiters.
pub proof fn lemma_token_span(r: Seq<u8>, off: int)
    requires
        0 <= off,
        off + r.len() <= usize::MAX,
    ensures
        token_spec(r, off) matches Some(Ok((t, n))) ==> token_span(t) == span_at(off, off + n) && 0 < n <= r.len(),
{
    if r.len() > 0 && opened_by(r[0]) is Some {
        lemma_items_take(r.drop_first(), off + 1, opened_by(r[0])->0, off);
    } else if r.len() > 0 && closed_by(r[0]) is None {
        lemma_leading_digits_bound(r);
        assert(cursor_literal_spec(r) matches Ok((n, _)) ==> 0 < n <= r.len());
    }
}

/// A group's tokens take at least its closing delimiter and no more than
/// the input holds.
proof fn lemma_items_take(r: Seq<u8>, off: int, d: Delimiter, lo: int)
    ensures
        items_spec(r, off, d, lo) matches Some(Ok((_, n))) ==> 0 < n <= r.len(),
    decreases r.len(),
{
    if r.len() > 0 && closed_by(r[0]) is None {
        if let Some(Ok((t, n))) = token_spec(r, off) {
            if 0 < n <= r.len() {
                lemma_items_take(r.skip(n as int), off + n, d, lo);
            }
        }
    }
}

/// A token: a group of one of four kinds, or a literal, with the span of
/// input it came from.
#[derive(Debug)]
pub enum TokenTree {
    Dictionary(Group),
    Sequence(Group),
    Record(Group),
    SetOf(Group),
    Literal(Literal, Span),
}

/// The tokens inside a pair of delimiters, and the span from the opening
/// delimiter through the closing one.
#[derive(Debug)]
pub struct Group {
    pub stream: TokenStream,
    pub span: Span,
}

/// A sequence of tokens.
#[derive(Debug)]
pub struct TokenStream {
    tokens: Vec<TokenTree>,
}

/// The model of a token.
pub closed spec fn token_view(t: TokenTree) -> SpecToken
    decreases t,
{
    match t {
        TokenTree::Dictionary(g) => SpecToken::Group(Delimiter::Curly, tokens_view(g.stream.tokens@), g.span),
        TokenTree::Sequence(g) => SpecToken::Group(Delimiter::Square, tokens_view(g.stream.tokens@), g.span),
        TokenTree::Record(g) => SpecToken::Group(Delimiter::Angle, tokens_view(g.stream.tokens@), g.span),
        TokenTree::SetOf(g) => SpecToken::Group(Delimiter::HashDollar, tokens_view(g.stream.tokens@), g.span),
        TokenTree::Literal(l, s) => SpecToken::Leaf(l@, s),
    }
}

/// The models of a sequence of tokens.
pub closed spec fn tokens_view(s: Seq<TokenTree>) -> Seq<SpecToken>
    decreases s,
{
    if s.len() == 0 {
        Seq::empty()
    } else {
        tokens_view(s.subrange(0, s.len() - 1)).push(token_view(s[s.len() - 1]))
    }
}

/// The model of a token, by its kind.
pub broadcast proof fn lemma_token_view(t: TokenTree)
    ensures
        #[trigger] token_view(t) == match t {
            TokenTree::Dictionary(g) => SpecToken::Group(Delimiter::Curly, g.stream@, g.span),
            TokenTree::Sequence(g) => SpecToken::Group(Delimiter::Square, g.stream@, g.span),
            TokenTree::Record(g) => SpecToken::Group(Delimiter::Angle, g.stream@, g.span),
            TokenTree::SetOf(g) => SpecToken::Group(Delimiter::HashDollar, g.stream@, g.span),
            TokenTree::Literal(l, s) => SpecToken::Leaf(l@, s),
        },
{
}

/// The models of a sequence of tokens, token by token.
pub broadcast proof fn lemma_tokens_view(s: Seq<TokenTree>)
    ensures
        #[trigger] tokens_view(s).len() == s.len(),
        forall|i: int| 0 <= i < s.len() ==> #[trigger] tokens_view(s)[i] == token_view(s[i]),
    decreases s.len(),
{
    if s.len() > 0 {
        lemma_tokens_view(s.subrange(0, s.len() - 1));
    }
}

/// Pushing a token pushes its model.
proof fn lemma_tokens_view_push(s: Seq<TokenTree>, t: TokenTree)
    ensures
        tokens_view(s.push(t)) == tokens_view(s).push(token_view(t)),
{
    assert(s.push(t).subrange(0, s.len() as int) =~= s);
}

impl View for TokenTree {
    type V = SpecToken;

    open spec fn view(&self) -> SpecToken {
        token_view(*self)
    }
}

impl View for TokenStream {
    type V = Seq<SpecToken>;

    closed spec fn view(&self) -> Seq<SpecToken> {
        tokens_view(self.tokens@)
    }
}

/// The model of a token result.
pub open spec fn token_outcome(res: Option<Result<(TokenTree, usize), LexError>>) -> Option<Result<(SpecToken, nat), LexError>> {
    match res {
        Some(Ok((t, n))) => Some(Ok((t@, n as nat))),
        Some(Err(e)) => Some(Err(e)),
        None => None,
    }
}

/// The model of a group's result.
pub open spec fn items_outcome(res: Option<Result<(Vec<TokenTree>, usize), LexError>>) -> Option<Result<(Seq<SpecToken>, nat), LexError>> {
    match res {
        Some(Ok((ts, n))) => Some(Ok((tokens_view(ts@), n as nat))),
        Some(Err(e)) => Some(Err(e)),
        None => None,
    }
}

proof fn lemma_opened_by(b: u8, res: Option<Delimiter>)
    requires
        match res {
            Some(d) => open_byte(d) == b,
            None => forall|d: Delimiter| open_byte(d) != b,
        },
    ensures
        res == opened_by(b),
{
    if res is None {
        assert(open_byte(Delimiter::Curly) != b);
        assert(open_byte(Delimiter::Square) != b);
        assert(open_byte(Delimiter::Angle) != b);
        assert(open_byte(Delimiter::HashDollar) != b);
    }
}

proof fn lemma_closed_by(b: u8, res: Option<Delimiter>)
    requires
        match res {
            Some(d) => close_byte(d) == b,
            None => forall|d: Delimiter| close_byte(d) != b,
        },
    ensures
        res == closed_by(b),
{
    if res is None {
        assert(close_byte(Delimiter::Curly) != b);
        assert(close_byte(Delimiter::Square) != b);
        assert(close_byte(Delimiter::Angle) != b);
        assert(close_byte(Delimiter::HashDollar) != b);
    }
}

proof fn lemma_prepend_twice(a: Seq<SpecToken>, k: nat, b: Seq<SpecToken>, n: nat, r: Option<Result<(Seq<SpecToken>, nat), LexError>>)
    ensures
        prepend(a, k, prepend(b, n, r)) == prepend(a + b, k + n, r),
{
    if let Some(Ok((us, m))) = r {
        assert(a + (b + us) =~= (a + b) + us);
    }
}

/// The group of the delimiter's kind.
fn group_tree(d: Delimiter, stream: TokenStream, span: Span) -> (res: TokenTree)
    ensures
        res@ == SpecToken::Group(d, stream@, span),
{
    let g = Group { stream, span };
    match d {
        Delimiter::Curly => TokenTree::Dictionary(g),
        Delimiter::Square => TokenTree::Sequence(g),
        Delimiter::Angle => TokenTree::Record(g),
        Delimiter::HashDollar => TokenTree::SetOf(g),
    }
}

/// The literal at the front of the cursor as a token.
fn lex_leaf<'rem>(cur: Cursor<'rem>) -> (res: Option<Result<(TokenTree, usize), LexError>>)
    requires
        cur.inv(),
    ensures
        token_outcome(res) == leaf_spec(cur.rem@, cur.off as int),
        res matches Some(Ok((_, n))) ==> 0 < n <= cur.rem@.len(),
{
    let here = Span::new(cur.off, cur.off);
    match cur.literal() {
        Ok((next, lit)) => {
            proof {
                assert(cursor_literal_spec(cur.rem@) matches Ok((n, _)) && 0 < n);
            }
            let n = next.off - cur.off;
            let span = Span::new(cur.off, next.off);
            Some(Ok((TokenTree::Literal(lit, span), n)))
        },
        Err(ParseLiteralError::ParseLen(k)) => Some(Err(LexError::new(here, LexErrorKind::Int(k)))),
        Err(ParseLiteralError::Cursor(CursorError::Incomplete { needed })) => Some(Err(LexError::incomplete(here, needed))),
        Err(ParseLiteralError::Cursor(CursorError::Error)) => None,
    }
}

/// The first token at the cursor, and how many bytes it takes; `None` where
/// reading stops the program.
fn lex_token<'rem>(cur: Cursor<'rem>) -> (res: Option<Result<(TokenTree, usize), LexError>>)
    requires
        cur.inv(),
    ensures
        token_outcome(res) == token_spec(cur.rem@, cur.off as int),
        res matches Some(Ok((_, n))) ==> 0 < n <= cur.rem@.len(),
    decreases cur.rem@.len(), 0nat,
{
    if cur.rem.len() == 0 {
        return Some(Err(LexError::incomplete(Span::new(cur.off, cur.off), Needed::Unknown)));
    }
    let first = cur.rem[0];
    let open = Delimiter::from_open(first);
    proof {
        lemma_opened_by(first, open);
    }
    if let Some(d) = open {
        let inner = cur.advance(1);
        proof {
            assert(inner.rem@ =~= cur.rem@.drop_first());
        }
        match lex_items(inner, d, cur.off) {
            None => None,
            Some(Err(e)) => Some(Err(e)),
            Some(Ok((trees, n))) => {
                let span = Span::new(cur.off, cur.off + 1 + n);
                let stream = TokenStream { tokens: trees };
                Some(Ok((group_tree(d, stream, span), 1 + n)))
            },
        }
    } else {
        let close = Delimiter::from_close(first);
        proof {
            lemma_closed_by(first, close);
        }
        if close.is_some() {
            Some(Err(LexError::unexpected(Span::new(cur.off, cur.off), "group element or closing delimiter")))
        } else {
            lex_leaf(cur)
        }
    }
}

/// The tokens of a group opened by `d` at offset `lo`, read from the cursor
/// through the closing delimiter, and how many bytes they take with it.
fn lex_items<'rem>(cur: Cursor<'rem>, d: Delimiter, lo: usize) -> (res: Option<Result<(Vec<TokenTree>, usize), LexError>>)
    requires
        cur.inv(),
        lo <= cur.off,
    ensures
        items_outcome(res) == items_spec(cur.rem@, cur.off as int, d, lo as int),
        res matches Some(Ok((_, n))) ==> 0 < n <= cur.rem@.len(),
    decreases cur.rem@.len(), 1nat,
{
    let mut trees: Vec<TokenTree> = Vec::new();
    let mut c = cur;
    proof {
        assert(cur.rem@.skip(0) =~= cur.rem@);
        assert(tokens_view(trees@) =~= Seq::<SpecToken>::empty());
        assert(prepend(Seq::empty(), 0, items_spec(cur.rem@, cur.off as int, d, lo as int)) =~~= items_spec(cur.rem@, cur.off as int, d, lo as int)) by {
            if let Some(Ok((us, m))) = items_spec(cur.rem@, cur.off as int, d, lo as int) {
                assert(Seq::<SpecToken>::empty() + us =~= us);
            }
        }
    }
    loop
        invariant
            cur.inv(),
            lo <= cur.off,
            c.inv(),
            cur.off <= c.off <= cur.off + cur.rem@.len(),
            c.rem@ == cur.rem@.skip(c.off - cur.off),
            items_spec(cur.rem@, cur.off as int, d, lo as int) == prepend(tokens_view(trees@), (c.off - cur.off) as nat, items_spec(c.rem@, c.off as int, d, lo as int)),
        decreases c.rem@.len(),
    {
        let k = c.off - cur.off;
        if c.rem.len() == 0 {
            return Some(Err(LexError::incomplete(Span::new(lo, c.off), Needed::Unknown)));
        }
        let first = c.rem[0];
        let close = Delimiter::from_close(first);
        proof {
            lemma_closed_by(first, close);
        }
        if let Some(found) = close {
            if found == d {
                proof {
                    assert(tokens_view(trees@) + Seq::<SpecToken>::empty() =~= tokens_view(trees@));
                }
                return Some(Ok((trees, k + 1)));
            } else {
                return Some(Err(LexError::unmatched(Span::new(c.off, c.off), d)));
            }
        }
        match lex_token(c) {
            None => return None,
            Some(Err(e)) => return Some(Err(e)),
            Some(Ok((t, n))) => {
                let ghost old_trees = trees@;
                let ghost tv = t@;
                let next = c.advance(n);
                proof {
                    assert(items_spec(c.rem@, c.off as int, d, lo as int) == prepend(seq![tv], n as nat, items_spec(next.rem@, next.off as int, d, lo as int)));
                    lemma_prepend_twice(tokens_view(old_trees), k as nat, seq![tv], n as nat, items_spec(next.rem@, next.off as int, d, lo as int));
                    lemma_tokens_view_push(old_trees, t);
                    assert(tokens_view(old_trees) + seq![tv] =~= tokens_view(old_trees).push(tv));
                    assert(cur.rem@.skip(next.off - cur.off) =~= c.rem@.skip(n as int));
                }
                trees.push(t);
                c = next;
            },
        }
    }
}

impl TokenTree {
    /// The span of input the token came from.
    pub fn span(&self) -> (res: &Span)
        ensures
            match self@ {
                SpecToken::Group(_, _, s) => *res == s,
                SpecToken::Leaf(_, s) => *res == s,
            },
    {
        match self {
            TokenTree::Dictionary(g) => &g.span,
            TokenTree::Sequence(g) => &g.span,
            TokenTree::Record(g) => &g.span,
            TokenTree::SetOf(g) => &g.span,
            TokenTree::Literal(_, s) => s,
        }
    }

    /// The span of input the token came from, to change in place.
    pub fn span_mut(&mut self) -> (res: &mut Span)
        ensures
            *res == token_span(old(self)@),
            final(self)@ == with_span(old(self)@, *final(res)),
    {
        match self {
            TokenTree::Dictionary(g) => &mut g.span,
            TokenTree::Sequence(g) => &mut g.span,
            TokenTree::Record(g) => &mut g.span,
            TokenTree::SetOf(g) => &mut g.span,
            TokenTree::Literal(_, s) => s,
        }
    }

    /// A dictionary group.
    pub fn dictionary(stream: TokenStream, span: Span) -> (res: TokenTree)
        ensures
            res@ == SpecToken::Group(Delimiter::Curly, stream@, span),
    {
        group_tree(Delimiter::Curly, stream, span)
    }

    /// A sequence group.
    pub fn sequence(stream: TokenStream, span: Span) -> (res: TokenTree)
        ensures
            res@ == SpecToken::Group(Delimiter::Square, stream@, span),
    {
        group_tree(Delimiter::Square, stream, span)
    }

    /// A record group.
    pub fn record(stream: TokenStream, span: Span) -> (res: TokenTree)
        ensures
            res@ == SpecToken::Group(Delimiter::Angle, stream@, span),
    {
        group_tree(Delimiter::Angle, stream, span)
    }

    /// A set group.
    pub fn set(stream: TokenStream, span: Span) -> (res: TokenTree)
        ensures
            res@ == SpecToken::Group(Delimiter::HashDollar, stream@, span),
    {
        group_tree(Delimiter::HashDollar, stream, span)
    }

    /// The first token at the cursor and the cursor after it, or the error
    /// that stopped reading; `None` where the input holds, where a token
    /// should start, a byte that starts no literal.
    pub fn try_tokenize<'rem>(input: Cursor<'rem>) -> (res: Option<Result<(TokenTree, Cursor<'rem>), LexError>>)
        requires
            input.inv(),
        ensures
            match token_spec(input.rem@, input.off as int) {
                Some(Ok((t, n))) => res matches Some(Ok((tree, next))) && tree@ == t && advanced(input, next, n as int),
                Some(Err(e)) => res == Some(Err::<(TokenTree, Cursor), LexError>(e)),
                None => res is None,
            },
    {
        match lex_token(input) {
            Some(Ok((t, n))) => Some(Ok((t, input.advance(n)))),
            Some(Err(e)) => Some(Err(e)),
            None => None,
        }
    }

    /// Lexes the first token from the cursor: a literal, or a group with the
    /// tokens inside it, and returns it with the cursor after it.
    pub fn tokenize<'rem>(input: Cursor<'rem>) -> (res: Result<(TokenTree, Cursor<'rem>), LexError>)
        requires
            input.inv(),
            token_spec(input.rem@, input.off as int) is Some,
        ensures
            match token_spec(input.rem@, input.off as int) {
                Some(Ok((t, n))) => res matches Ok((tree, next)) && tree@ == t && advanced(input, next, n as int),
                Some(Err(e)) => res == Err::<(TokenTree, Cursor), LexError>(e),
                None => false,
            },
    {
        match Self::try_tokenize(input) {
            Some(r) => r,
            None => Err(LexError::incomplete(Span::new(input.off, input.off), Needed::Unknown)),
        }
    }

    /// The same as `tokenize`: the tokens own their bytes.
    pub fn tokenize_static<'rem>(input: Cursor<'rem>) -> (res: Result<(TokenTree, Cursor<'rem>), LexError>)
        requires
            input.inv(),
            token_spec(input.rem@, input.off as int) is Some,
        ensures
            match token_spec(input.rem@, input.off as int) {
                Some(Ok((t, n))) => res matches Ok((tree, next)) && tree@ == t && advanced(input, next, n as int),
                Some(Err(e)) => res == Err::<(TokenTree, Cursor), LexError>(e),
                None => false,
            },
    {
        Self::tokenize(input)
    }
}

impl TokenStream {
    pub fn new(tokens: Vec<TokenTree>) -> (res: TokenStream)
        ensures
            res@ == tokens_view(tokens@),
    {
        TokenStream { tokens }
    }

    pub fn len(&self) -> (res: usize)
        ensures
            res == self@.len(),
    {
        proof {
            lemma_tokens_view(self.tokens@);
        }
        self.tokens.len()
    }

    pub fn is_empty(&self) -> (res: bool)
        ensures
            res == (self@.len() == 0),
    {
        proof {
            lemma_tokens_view(self.tokens@);
        }
        self.tokens.len() == 0
    }

    pub fn as_slice(&self) -> (res: &[TokenTree])
        ensures
            tokens_view(res@) == self@,
    {
        self.tokens.as_slice()
    }

    /// The first token, if any.
    pub fn peek(&self) -> (res: Option<&TokenTree>)
        ensures
            self@.len() == 0 ==> res is None,
            self@.len() > 0 ==> (res matches Some(t) && t@ == self@[0]),
    {
        proof {
            lemma_tokens_view(self.tokens@);
        }
        if self.tokens.len() == 0 {
            None
        } else {
            Some(&self.tokens[0])
        }
    }

    /// Takes the last token, if any.
    pub fn pop(&mut self) -> (res: Option<TokenTree>)
        ensures
            old(self)@.len() == 0 ==> res is None && final(self)@ == old(self)@,
            old(self)@.len() > 0 ==> (res matches Some(t) && t@ == old(self)@.last()
                && final(self)@ == old(self)@.drop_last()),
    {
        proof {
            lemma_tokens_view(self.tokens@);
        }
        let res = self.tokens.pop();
        proof {
            let s = old(self).tokens@;
            if s.len() > 0 {
                assert(s.drop_last() =~= s.subrange(0, s.len() - 1));
                assert(tokens_view(self.tokens@) =~= tokens_view(s).drop_last());
            }
        }
        res
    }

    /// Puts a token at the index, moving those after it back by one.
    pub fn insert(&mut self, index: usize, element: TokenTree)
        requires
            index <= old(self)@.len(),
        ensures
            final(self)@ == old(self)@.insert(index as int, element@),
    {
        proof {
            lemma_tokens_view(self.tokens@);
        }
        let ghost ev = element@;
        self.tokens.insert(index, element);
        proof {
            lemma_tokens_view(self.tokens@);
            assert(tokens_view(self.tokens@) =~= tokens_view(old(self).tokens@).insert(index as int, ev));
        }
    }

    /// Lexes tokens from the cursor until its input ends or an error stops
    /// reading; `None` where the input holds, where a token should start, a
    /// byte that starts no literal.
    pub fn try_tokenize<'rem>(input: Cursor<'rem>) -> (res: Option<(TokenStream, Cursor<'rem>, Option<LexError>)>)
        requires
            input.inv(),
        ensures
            match stream_spec(input.rem@, input.off as int) {
                Some((ts, n, e)) => res matches Some((s, next, err)) && s@ == ts && advanced(input, next, n as int) && err == e,
                None => res is None,
            },
    {
        let mut res: Vec<TokenTree> = Vec::new();
        let mut c = input;
        proof {
            assert(input.rem@.skip(0) =~= input.rem@);
        }
        loop
            invariant
                input.inv(),
                c.inv(),
                input.off <= c.off <= input.off + input.rem@.len(),
                c.rem@ == input.rem@.skip(c.off - input.off),
                stream_spec(input.rem@, input.off as int) == (match stream_spec(c.rem@, c.off as int) {
                    Some((ts, m, e)) => Some((tokens_view(res@) + ts, ((c.off - input.off) + m) as nat, e)),
                    None => None::<(Seq<SpecToken>, nat, Option<LexError>)>,
                }),
            decreases c.rem@.len(),
        {
            if c.rem.len() == 0 {
                proof {
                    assert(tokens_view(res@) + Seq::<SpecToken>::empty() =~= tokens_view(res@));
                }
                return Some((TokenStream { tokens: res }, c, None));
            }
            match lex_token(c) {
                None => return None,
                Some(Err(e)) => {
                    proof {
                        assert(tokens_view(res@) + Seq::<SpecToken>::empty() =~= tokens_view(res@));
                    }
                    return Some((TokenStream { tokens: res }, c, Some(e)));
                },
                Some(Ok((t, n))) => {
                    let ghost old_res = res@;
                    let ghost tv = t@;
                    let next = c.advance(n);
                    proof {
                        lemma_tokens_view_push(old_res, t);
                        assert(input.rem@.skip(next.off - input.off) =~= c.rem@.skip(n as int));
                        if let Some((ts, m, e)) = stream_spec(next.rem@, next.off as int) {
                            assert(tokens_view(old_res) + (seq![tv] + ts) =~= tokens_view(old_res).push(tv) + ts);
                        }
                    }
                    res.push(t);
                    c = next;
                },
            }
        }
    }

    /// Lexes all tokens from the cursor; returns them, the cursor after
    /// them, and, where not all input could be read, the error that stopped
    /// reading.
    pub fn tokenize<'rem>(input: Cursor<'rem>) -> (res: (TokenStream, Cursor<'rem>, Option<LexError>))
        requires
            input.inv(),
            stream_spec(input.rem@, input.off as int) is Some,
        ensures
            match stream_spec(input.rem@, input.off as int) {
                Some((ts, n, e)) => res.0@ == ts && advanced(input, res.1, n as int) && res.2 == e,
                None => false,
            },
    {
        match Self::try_tokenize(input) {
            Some(r) => r,
            None => (TokenStream { tokens: Vec::new() }, input, None),
        }
    }
}

} // verus!
