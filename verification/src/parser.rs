//! Token-level structural validator.

use crate::scanner;
use crate::scanner::{remaining, tokens_text, Scanner, Token, TokenView};
use vstd::prelude::*;
use vstd::std_specs::convert::FromSpecImpl;

verus! {

/// Mathematical value of an [`Error`].
pub enum ErrorView {
    Eof,
    ParseError(Seq<char>),
}

impl ErrorView {
    /// The text that describes the error.
    pub open spec fn message(self) -> Seq<char> {
        match self {
            ErrorView::Eof => "EOF"@,
            ErrorView::ParseError(s) => s,
        }
    }
}

/// What can go wrong while parsing.
#[derive(Debug, PartialEq, Eq)]
pub enum Error {
    /// End of input.
    Eof,
    /// The token sequence breaks the structure; the text says what was expected.
    ParseError(String),
}

impl View for Error {
    type V = ErrorView;

    open spec fn view(&self) -> ErrorView {
        match self {
            Error::Eof => ErrorView::Eof,
            Error::ParseError(s) => ErrorView::ParseError(s@),
        }
    }
}

impl Clone for Error {
    fn clone(&self) -> (r: Self)
        ensures
            r == *self,
    {
        match self {
            Error::Eof => Error::Eof,
            Error::ParseError(s) => Error::ParseError(s.clone()),
        }
    }
}

impl Error {
    /// The text that describes the error.
    pub fn to_string(&self) -> (r: String)
        ensures
            r@ == self@.message(),
    {
        match self {
            Error::Eof => "EOF".to_owned(),
            Error::ParseError(s) => s.clone(),
        }
    }
}

impl From<scanner::Error> for Error {
    /// A scan error becomes a parse error with the same text.
    fn from(err: scanner::Error) -> (r: Error)
        ensures
            r@ == ErrorView::ParseError(err@.message()),
    {
        Error::ParseError(err.to_string())
    }
}

/// The conversion is stated over views, in the postcondition of `from`: no function on
/// values is claimed for it.
impl FromSpecImpl<scanner::Error> for Error {
    open spec fn obeys_from_spec() -> bool {
        false
    }

    open spec fn from_spec(err: scanner::Error) -> Error {
        arbitrary()
    }
}

pub type Result<T> = std::result::Result<T, Error>;

/// Mathematical value of a [`Node`].
pub enum NodeView {
    Eof,
    Exp(Seq<char>),
    DollarExp(Seq<char>),
}

/// Semantic unit of a parsed text.
#[derive(Debug, PartialEq, Eq)]
pub enum Node {
    /// Virtual end of input; never stored in a node sequence.
    Eof,
    /// Literal text outside any dollar-expression.
    Exp(String),
    /// The text between an opening `$$` and the `$$` that closes it.
    DollarExp(String),
}

impl View for Node {
    type V = NodeView;

    open spec fn view(&self) -> NodeView {
        match self {
            Node::Eof => NodeView::Eof,
            Node::Exp(s) => NodeView::Exp(s@),
            Node::DollarExp(s) => NodeView::DollarExp(s@),
        }
    }
}

impl DeepView for Node {
    type V = NodeView;

    open spec fn deep_view(&self) -> NodeView {
        self@
    }
}

impl Clone for Node {
    fn clone(&self) -> (r: Self)
        ensures
            r == *self,
    {
        match self {
            Node::Eof => Node::Eof,
            Node::Exp(s) => Node::Exp(s.clone()),
            Node::DollarExp(s) => Node::DollarExp(s.clone()),
        }
    }
}

/// The token at offset `i` of `t`, or the end-of-input token where `i` lies outside `t`.
pub open spec fn lookahead(t: Seq<TokenView>, i: int) -> TokenView {
    if 0 <= i < t.len() {
        t[i]
    } else {
        TokenView::Eof
    }
}

/// Number of tokens in the plain text that starts at offset `i`: the literal runs and
/// lone dollars up to the next `$$` or the end of input.
pub open spec fn text_len(t: Seq<TokenView>, i: int) -> nat
    decreases t.len() - i,
{
    match lookahead(t, i) {
        TokenView::Other(_) | TokenView::Dollar => 1 + text_len(t, i + 1),
        _ => 0,
    }
}

/// The plain text that starts at offset `i`: its literal runs in order, with `$` for
/// each lone dollar.
pub open spec fn text_of(t: Seq<TokenView>, i: int) -> Seq<char>
    decreases t.len() - i,
{
    match lookahead(t, i) {
        TokenView::Other(s) => s + text_of(t, i + 1),
        TokenView::Dollar => seq!['$'] + text_of(t, i + 1),
        _ => Seq::empty(),
    }
}

/// Text of the error for a dollar-expression that lacks a `$$`.
pub open spec fn expected_marker() -> Seq<char> {
    "expected $$"@
}

/// Outcome of reading a dollar-expression at offset `i`: the text between the `$$` at
/// `i` and the next `$$`, or an error where either of the two is missing.
pub open spec fn dollar_exp_at(t: Seq<TokenView>, i: int) -> std::result::Result<
    NodeView,
    ErrorView,
> {
    if lookahead(t, i) is DollarDollar && lookahead(t, i + 1 + text_len(t, i + 1))
        is DollarDollar {
        Ok(NodeView::DollarExp(text_of(t, i + 1)))
    } else {
        Err(ErrorView::ParseError(expected_marker()))
    }
}

/// Number of tokens taken while reading a dollar-expression at offset `i`: the token at
/// `i` and, where that is a `$$`, the text after it and the token that follows the text,
/// be it the closing `$$` or not.
pub open spec fn dollar_exp_len(t: Seq<TokenView>, i: int) -> nat {
    if lookahead(t, i) is DollarDollar {
        2 + text_len(t, i + 1)
    } else {
        1
    }
}

/// Outcome of reading one node at offset `i`.
pub open spec fn node_at(t: Seq<TokenView>, i: int) -> std::result::Result<NodeView, ErrorView> {
    match lookahead(t, i) {
        TokenView::Eof => Ok(NodeView::Eof),
        TokenView::DollarDollar => dollar_exp_at(t, i),
        _ => Ok(NodeView::Exp(text_of(t, i))),
    }
}

/// Number of tokens taken while reading one node at offset `i`.
pub open spec fn node_len(t: Seq<TokenView>, i: int) -> nat {
    match lookahead(t, i) {
        TokenView::Eof => 0,
        TokenView::DollarDollar => dollar_exp_len(t, i),
        _ => text_len(t, i),
    }
}

/// The nodes of `t` from offset `i` on, up to the end of input, or `None` where a
/// dollar-expression among them is not closed.
pub open spec fn nodes_from(t: Seq<TokenView>, i: int) -> Option<Seq<NodeView>>
    decreases remaining(t, i),
{
    match node_at(t, i) {
        Err(_) => None,
        Ok(NodeView::Eof) => Some(Seq::empty()),
        Ok(n) => match nodes_from(t, i + node_len(t, i)) {
            Some(rest) => Some(seq![n] + rest),
            None => None,
        },
    }
}

/// Offset at which parsing from offset `i` meets the end of input. It has a meaning
/// only where `nodes_from(t, i)` is `Some`.
pub open spec fn nodes_end(t: Seq<TokenView>, i: int) -> int
    decreases remaining(t, i),
{
    match node_at(t, i) {
        Err(_) => i,
        Ok(NodeView::Eof) => i,
        Ok(_) => nodes_end(t, i + node_len(t, i)),
    }
}

/// Plain text never reaches past the end of the input.
pub proof fn lemma_text_len(t: Seq<TokenView>, i: int)
    ensures
        text_len(t, i) <= remaining(t, i),
    decreases t.len() - i,
{
    match lookahead(t, i) {
        TokenView::Other(_) | TokenView::Dollar => lemma_text_len(t, i + 1),
        _ => {},
    }
}

/// Plain text ends before a `$$` or at the end of input.
pub proof fn lemma_text_end(t: Seq<TokenView>, i: int)
    ensures
        lookahead(t, i + text_len(t, i)) is DollarDollar || lookahead(t, i + text_len(t, i))
            is Eof,
    decreases t.len() - i,
{
    match lookahead(t, i) {
        TokenView::Other(_) | TokenView::Dollar => lemma_text_end(t, i + 1),
        _ => {},
    }
}

/// The end-of-input node is never among the nodes of a token sequence.
pub proof fn lemma_nodes_never_eof(t: Seq<TokenView>, i: int)
    ensures
        nodes_from(t, i) matches Some(ns) ==> forall|k: int|
            0 <= k < ns.len() ==> !(#[trigger] ns[k] is Eof),
    decreases remaining(t, i),
{
    if node_at(t, i) matches Ok(n) && !(n is Eof) {
        lemma_nodes_never_eof(t, i + node_len(t, i));
    }
}

/// Neighbouring tokens of plain text end up in one node: no node of plain text is
/// followed by another.
pub proof fn lemma_nodes_neighbours(t: Seq<TokenView>, i: int)
    ensures
        nodes_from(t, i) matches Some(ns) ==> forall|k: int|
            0 <= k && k + 1 < ns.len() ==> !(#[trigger] ns[k] is Exp && ns[k + 1] is Exp),
    decreases remaining(t, i),
{
    if node_at(t, i) matches Ok(n) && !(n is Eof) {
        lemma_nodes_neighbours(t, i + node_len(t, i));
        lemma_text_end(t, i);
    }
}

/// Number of `$$` tokens of `t` at or after offset `i`.
pub open spec fn marker_count(t: Seq<TokenView>, i: int) -> nat
    decreases remaining(t, i),
{
    if 0 <= i < t.len() {
        if t[i] is DollarDollar {
            1 + marker_count(t, i + 1)
        } else {
            marker_count(t, i + 1)
        }
    } else {
        0
    }
}

/// Plain text holds no `$$`.
pub proof fn lemma_text_has_no_marker(t: Seq<TokenView>, i: int)
    requires
        0 <= i,
    ensures
        marker_count(t, i) == marker_count(t, i + text_len(t, i)),
    decreases t.len() - i,
{
    match lookahead(t, i) {
        TokenView::Other(_) | TokenView::Dollar => lemma_text_has_no_marker(t, i + 1),
        _ => {},
    }
}

/// A token sequence parses exactly when its `$$` tokens come in pairs: each one that
/// opens a dollar-expression has another that closes it.
pub proof fn lemma_parses_iff_markers_pair(t: Seq<TokenView>, i: int)
    requires
        0 <= i,
        forall|k: int| 0 <= k < t.len() ==> !(#[trigger] t[k] is Eof),
    ensures
        nodes_from(t, i) is Some <==> marker_count(t, i) % 2 == 0,
    decreases remaining(t, i),
{
    match lookahead(t, i) {
        TokenView::Eof => {},
        TokenView::DollarDollar => {
            let k = i + 1 + text_len(t, i + 1);
            lemma_text_has_no_marker(t, i + 1);
            lemma_text_end(t, i + 1);
            lemma_text_len(t, i + 1);
            if lookahead(t, k) is DollarDollar {
                lemma_parses_iff_markers_pair(t, k + 1);
            }
        },
        _ => {
            lemma_text_has_no_marker(t, i);
            lemma_parses_iff_markers_pair(t, i + text_len(t, i));
        },
    }
}

/// The nodes of `ns` written out one after the other: plain text as it is, the text of
/// a dollar-expression between two `$$`.
pub open spec fn nodes_text(ns: Seq<NodeView>) -> Seq<char>
    decreases ns.len(),
{
    if ns.len() == 0 {
        Seq::empty()
    } else {
        match ns[0] {
            NodeView::Eof => nodes_text(ns.drop_first()),
            NodeView::Exp(s) => s + nodes_text(ns.drop_first()),
            NodeView::DollarExp(s) => seq!['$', '$'] + s + seq!['$', '$'] + nodes_text(
                ns.drop_first(),
            ),
        }
    }
}

/// Written out, tokens of plain text give the plain text.
pub proof fn lemma_text_of_tokens(t: Seq<TokenView>, i: int)
    requires
        0 <= i,
    ensures
        tokens_text(t, i) == text_of(t, i) + tokens_text(t, i + text_len(t, i)),
    decreases t.len() - i,
{
    match lookahead(t, i) {
        TokenView::Other(_) | TokenView::Dollar => lemma_text_of_tokens(t, i + 1),
        _ => {},
    }
}

/// Parsing keeps every character in its place: written out, the nodes give the same
/// text as the tokens they were made of.
pub proof fn lemma_nodes_keep_text(t: Seq<TokenView>, i: int)
    requires
        0 <= i,
        forall|k: int| 0 <= k < t.len() ==> !(#[trigger] t[k] is Eof),
    ensures
        nodes_from(t, i) matches Some(ns) ==> nodes_text(ns) == tokens_text(t, i),
    decreases remaining(t, i),
{
    if nodes_from(t, i) is Some && !(lookahead(t, i) is Eof) {
        let ns = nodes_from(t, i)->0;
        let j = i + node_len(t, i);
        lemma_nodes_keep_text(t, j);
        assert(ns.drop_first() == nodes_from(t, j)->0);
        if lookahead(t, i) is DollarDollar {
            lemma_text_of_tokens(t, i + 1);
        } else {
            lemma_text_of_tokens(t, i);
        }
    }
}

/// Cursor over the tokens of one input, with the nodes recognized so far.
pub struct Parser {
    pub nodes: Vec<Node>,
    index: usize,
    tokens: Vec<Token>,
}

impl Parser {
    /// The tokens of the input.
    pub closed spec fn input(&self) -> Seq<TokenView> {
        self.tokens.deep_view()
    }

    /// The nodes recognized so far.
    pub closed spec fn parsed(&self) -> Seq<NodeView> {
        self.nodes.deep_view()
    }

    /// Offset of the cursor. It may lie past the end of the input.
    pub closed spec fn pos(&self) -> nat {
        self.index as nat
    }

    /// The cursor can move one token past the end of the input.
    pub open spec fn wf(&self) -> bool {
        self.input().len() < usize::MAX
    }

    /// A parser at the start of the tokens of `s`, with no nodes yet.
    pub fn new(s: &str) -> (r: Result<Self>)
        ensures
            match r {
                Ok(p) => {
                    &&& p.wf()
                    &&& p.input() == scanner::tokenize(s@)
                    &&& p.pos() == 0
                    &&& p.parsed() == Seq::<NodeView>::empty()
                },
                Err(_) => false,
            },
    {
        let sc = match Scanner::new(s).scan() {
            Ok(sc) => sc,
            Err(e) => return Err(Error::from(e)),
        };
        proof {
            sc.lemma_input_len();
            scanner::lemma_tokens_len(s@, 0);
        }
        let p = Parser { index: 0, tokens: sc.into_tokens(), nodes: Vec::new() };
        Ok(p)
    }

    /// Parses to the end of the input and appends every node met on the way. Fails at
    /// the first dollar-expression that is not closed.
    pub fn parse(self) -> (r: Result<Self>)
        requires
            self.wf(),
        ensures
            match r {
                Ok(p) => {
                    &&& nodes_from(self.input(), self.pos() as int) matches Some(found)
                        && p.parsed() == self.parsed() + found
                    &&& p.input() == self.input()
                    &&& p.pos() == nodes_end(self.input(), self.pos() as int)
                    &&& p.wf()
                },
                Err(e) => {
                    &&& nodes_from(self.input(), self.pos() as int) is None
                    &&& e@ == ErrorView::ParseError(expected_marker())
                },
            },
    {
        let mut p = self;
        loop
            invariant
                p.wf(),
                p.input() == self.input(),
                nodes_end(p.input(), p.pos() as int) == nodes_end(self.input(), self.pos() as int),
                match nodes_from(p.input(), p.pos() as int) {
                    Some(rest) => nodes_from(self.input(), self.pos() as int) matches Some(found)
                        && p.parsed() + rest == self.parsed() + found,
                    None => nodes_from(self.input(), self.pos() as int) is None,
                },
            ensures
                p.wf(),
                p.input() == self.input(),
                p.pos() == nodes_end(self.input(), self.pos() as int),
                nodes_from(self.input(), self.pos() as int) matches Some(found) && p.parsed()
                    == self.parsed() + found,
            decreases remaining(p.input(), p.pos() as int),
        {
            match p.parse_node() {
                Ok(Node::Eof) => break,
                Ok(node) => {
                    p.nodes.push(node);
                },
                Err(e) => return Err(Error::ParseError(e.to_string())),
            }
        }
        Ok(p)
    }

    /// Reads the node at the cursor: end of input, a dollar-expression at `$$`, plain
    /// text at anything else.
    pub fn parse_node(&mut self) -> (r: Result<Node>)
        requires
            old(self).wf(),
        ensures
            final(self).input() == old(self).input(),
            final(self).parsed() == old(self).parsed(),
            final(self).pos() == old(self).pos() + node_len(
                old(self).input(),
                old(self).pos() as int,
            ),
            match r {
                Ok(n) => node_at(old(self).input(), old(self).pos() as int) == Ok::<
                    NodeView,
                    ErrorView,
                >(n@),
                Err(e) => node_at(old(self).input(), old(self).pos() as int) == Err::<
                    NodeView,
                    ErrorView,
                >(e@),
            },
    {
        let node = match self.peek(0) {
            Token::Eof => Ok(Node::Eof),
            Token::DollarDollar => self.parse_dollardollar(),
            Token::Other(_) | Token::Dollar => self.parse_other(),
        };
        node
    }

    /// Reads plain text at the cursor: every literal run and lone dollar up to the next
    /// `$$` or the end of input, joined into one node.
    pub fn parse_other(&mut self) -> (r: Result<Node>)
        ensures
            final(self).input() == old(self).input(),
            final(self).parsed() == old(self).parsed(),
            final(self).pos() == old(self).pos() + text_len(
                old(self).input(),
                old(self).pos() as int,
            ),
            r matches Ok(n) && n@ == NodeView::Exp(
                text_of(old(self).input(), old(self).pos() as int),
            ),
    {
        let mut text = String::new();
        loop
            invariant
                self.input() == old(self).input(),
                self.parsed() == old(self).parsed(),
                self.pos() + text_len(self.input(), self.pos() as int) == old(self).pos()
                    + text_len(old(self).input(), old(self).pos() as int),
                text@ + text_of(self.input(), self.pos() as int) == text_of(
                    old(self).input(),
                    old(self).pos() as int,
                ),
            ensures
                self.input() == old(self).input(),
                self.parsed() == old(self).parsed(),
                self.pos() == old(self).pos() + text_len(
                    old(self).input(),
                    old(self).pos() as int,
                ),
                text@ == text_of(old(self).input(), old(self).pos() as int),
            decreases remaining(self.input(), self.pos() as int),
        {
            assert(self.input().len() == self.tokens.len());
            match self.peek(0) {
                Token::Other(s) => {
                    text.append(s.as_str());
                    self.read();
                },
                Token::Dollar => {
                    proof {
                        reveal_strlit("$");
                    }
                    text.append("$");
                    self.read();
                },
                _ => break,
            }
        }
        Ok(Node::Exp(text))
    }

    /// Reads a dollar-expression at the cursor: `$$`, plain text, `$$`. Fails where
    /// either `$$` is missing, with the cursor past the token found in its place.
    pub fn parse_dollardollar(&mut self) -> (r: Result<Node>)
        requires
            old(self).wf(),
            old(self).pos() < usize::MAX,
        ensures
            final(self).input() == old(self).input(),
            final(self).parsed() == old(self).parsed(),
            final(self).pos() == old(self).pos() + dollar_exp_len(
                old(self).input(),
                old(self).pos() as int,
            ),
            match r {
                Ok(n) => dollar_exp_at(old(self).input(), old(self).pos() as int) == Ok::<
                    NodeView,
                    ErrorView,
                >(n@),
                Err(e) => dollar_exp_at(old(self).input(), old(self).pos() as int) == Err::<
                    NodeView,
                    ErrorView,
                >(e@),
            },
    {
        let d: Node;
        proof {
            lemma_text_len(self.input(), self.pos() as int + 1);
        }
        match self.read() {
            Token::DollarDollar => {
                match self.parse_other() {
                    Ok(Node::Exp(s)) => d = Node::DollarExp(s),
                    _ => return Err(Error::ParseError("expected expression".to_owned())),
                }
                match self.read() {
                    Token::DollarDollar => (),
                    _ => return Err(Error::ParseError("expected $$".to_owned())),
                }
            },
            _ => return Err(Error::ParseError("expected $$".to_owned())),
        }
        Ok(d)
    }

    /// Gives up the parser for the nodes it has recognized.
    pub fn into_nodes(self) -> (r: Vec<Node>)
        ensures
            r.deep_view() == self.parsed(),
    {
        self.nodes
    }

    /// Returns the token at the cursor and moves the cursor one token on.
    pub fn read(&mut self) -> (t: Token)
        requires
            old(self).pos() < usize::MAX,
        ensures
            t@ == lookahead(old(self).input(), old(self).pos() as int),
            final(self).input() == old(self).input(),
            final(self).parsed() == old(self).parsed(),
            final(self).pos() == old(self).pos() + 1,
    {
        let t = self.peek(0);
        self.index += 1;
        t
    }

    /// The token `n` places ahead of the cursor, or the end-of-input token past the end
    /// of the input.
    pub fn peek(&mut self, n: usize) -> (t: Token)
        ensures
            t@ == lookahead(old(self).input(), old(self).pos() + n),
            *final(self) == *old(self),
    {
        if self.index >= self.tokens.len() || n >= self.tokens.len() - self.index {
            return Token::Eof;
        }
        self.tokens[self.index + n].clone()
    }
}

} // verus!
