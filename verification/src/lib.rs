//! Recognizer for text that mixes literal characters with `$$ ... $$` expressions.
//!
//! A text is first cut into tokens by the [`scanner`], then the [`parser`] groups the
//! tokens into nodes and checks that every dollar-expression is closed.

pub mod parser;
pub mod scanner;

use parser::{
    expected_marker, marker_count, nodes_end, nodes_from, nodes_text, text_len, text_of,
    ErrorView, NodeView, Parser,
};
use scanner::{run_len, run_text, tokenize, tokens_from, unescaped, TokenView};
use vstd::prelude::*;

verus! {

/// The nodes of the text `s`, or `None` where a dollar-expression in it is not closed.
pub open spec fn document(s: Seq<char>) -> Option<Seq<NodeView>> {
    nodes_from(tokenize(s), 0)
}

/// Scans and parses `s`. The parser that comes back holds the nodes of `s`; the error
/// says that a dollar-expression lacks its closing `$$`.
pub fn validate(s: &str) -> (r: Result<Parser, parser::Error>)
    ensures
        match r {
            Ok(p) => {
                &&& document(s@) == Some(p.parsed())
                &&& p.input() == tokenize(s@)
                &&& p.pos() == nodes_end(tokenize(s@), 0)
                &&& p.wf()
            },
            Err(e) => {
                &&& document(s@) is None
                &&& e@ == ErrorView::ParseError(expected_marker())
            },
        },
{
    let p = match Parser::new(s) {
        Ok(p) => p,
        Err(e) => return Err(e),
    };
    p.parse()
}

/// No character of `s` is `$`, a backslash or the null character.
pub open spec fn is_plain(s: Seq<char>) -> bool {
    forall|k: int| 0 <= k < s.len() ==> s[k] != '$' && s[k] != '\\' && s[k] != '\0'
}

/// In a text without `$`, backslash and null character, the run of literal text that
/// starts at `i` is the rest of the text.
pub proof fn lemma_plain_run(s: Seq<char>, i: int)
    requires
        is_plain(s),
        0 <= i <= s.len(),
    ensures
        run_len(s, i) == s.len() - i,
        run_text(s, i) == s.skip(i),
    decreases s.len() - i,
{
    if i < s.len() {
        lemma_plain_run(s, i + 1);
    }
}

/// A text that is not empty and holds no `$`, no backslash and no null character is a
/// single node of plain text, and that node's text is the text itself.
pub proof fn lemma_plain_text_is_one_node(s: Seq<char>)
    requires
        s.len() > 0,
        is_plain(s),
    ensures
        tokenize(s) == seq![TokenView::Other(s)],
        document(s) == Some(seq![NodeView::Exp(s)]),
{
    lemma_plain_run(s, 0);
    assert(s.skip(0) == s);
    assert(tokens_from(s, s.len() as int) == Seq::<TokenView>::empty());
    reveal_with_fuel(text_of, 2);
    reveal_with_fuel(text_len, 2);
    reveal_with_fuel(nodes_from, 2);
}

/// A text has nodes exactly when the `$$` markers among its tokens come in pairs.
pub proof fn lemma_document_iff_markers_pair(s: Seq<char>)
    ensures
        document(s) is Some <==> marker_count(tokenize(s), 0) % 2 == 0,
{
    scanner::lemma_tokens_never_eof(s, 0);
    parser::lemma_parses_iff_markers_pair(tokenize(s), 0);
}

/// Scanning and parsing lose nothing but the backslashes: written out, the nodes of a
/// text give the text with its escapes resolved.
pub proof fn lemma_document_keeps_text(s: Seq<char>)
    ensures
        document(s) matches Some(ns) ==> nodes_text(ns) == unescaped(s, 0),
{
    scanner::lemma_tokens_never_eof(s, 0);
    scanner::lemma_tokens_keep_text(s, 0);
    parser::lemma_nodes_keep_text(tokenize(s), 0);
}

} // verus!
