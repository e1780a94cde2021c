//! Character-level tokenizer.

use vstd::prelude::*;

verus! {

/// Mathematical value of an [`Error`].
pub enum ErrorView {
    Eof,
    ScanError(Seq<char>),
}

impl ErrorView {
    /// The text that describes the error.
    pub open spec fn message(self) -> Seq<char> {
        match self {
            ErrorView::Eof => "EOF"@,
            ErrorView::ScanError(s) => s,
        }
    }
}

/// What can go wrong while scanning.
#[derive(Debug, PartialEq, Eq)]
pub enum Error {
    /// End of input.
    Eof,
    /// The input holds something that is no token. The scanning rules are total, so the
    /// scanner itself never reports this.
    ScanError(String),
}

impl View for Error {
    type V = ErrorView;

    open spec fn view(&self) -> ErrorView {
        match self {
            Error::Eof => ErrorView::Eof,
            Error::ScanError(s) => ErrorView::ScanError(s@),
        }
    }
}

impl Clone for Error {
    fn clone(&self) -> (r: Self)
        ensures
            r == *self,
    {
        match self {
            Error::Eof => Error::Eof,
            Error::ScanError(s) => Error::ScanError(s.clone()),
        }
    }
}

impl Error {
    /// The text that describes the error.
    pub fn to_string(&self) -> (r: String)
        ensures
            r@ == self@.message(),
    {
        match self {
            Error::Eof => "EOF".to_owned(),
            Error::ScanError(s) => s.clone(),
        }
    }
}

pub type Result<T> = std::result::Result<T, Error>;

/// `String::push` appends the character to the end of the string.
pub assume_specification[ String::push ](s: &mut String, ch: char)
    ensures
        final(s)@ == old(s)@.push(ch),
;

/// Mathematical value of a [`Token`].
pub enum TokenView {
    Eof,
    Dollar,
    DollarDollar,
    Other(Seq<char>),
}

/// Atomic lexical unit.
#[derive(Debug, PartialEq, Eq)]
pub enum Token {
    /// Virtual end of input; never stored in a token sequence.
    Eof,
    /// A single `$` that is not followed by another `$`.
    Dollar,
    /// The two-character marker `$$`.
    DollarDollar,
    /// A run of literal characters with escapes resolved.
    Other(String),
}

impl View for Token {
    type V = TokenView;

    open spec fn view(&self) -> TokenView {
        match self {
            Token::Eof => TokenView::Eof,
            Token::Dollar => TokenView::Dollar,
            Token::DollarDollar => TokenView::DollarDollar,
            Token::Other(s) => TokenView::Other(s@),
        }
    }
}

impl DeepView for Token {
    type V = TokenView;

    open spec fn deep_view(&self) -> TokenView {
        self@
    }
}

impl Clone for Token {
    fn clone(&self) -> (r: Self)
        ensures
            r == *self,
    {
        match self {
            Token::Eof => Token::Eof,
            Token::Dollar => Token::Dollar,
            Token::DollarDollar => Token::DollarDollar,
            Token::Other(s) => Token::Other(s.clone()),
        }
    }
}

/// The character at offset `i` of `s`, or the null character where `i` lies outside `s`.
pub open spec fn char_at(s: Seq<char>, i: int) -> char {
    if 0 <= i < s.len() {
        s[i]
    } else {
        '\0'
    }
}

/// Number of input characters taken up by the run of literal text that starts at offset `i`.
///
/// A run ends before the first unescaped `$` or null character, or at the end of `s`.
/// A backslash takes up two characters, itself and the one it escapes, even where the
/// escaped one lies past the end of `s`.
pub open spec fn run_len(s: Seq<char>, i: int) -> nat
    decreases s.len() + 1 - i,
{
    let c = char_at(s, i);
    if c == '\0' || c == '$' {
        0
    } else if c == '\\' {
        2 + run_len(s, i + 2)
    } else {
        1 + run_len(s, i + 1)
    }
}

/// Text of the run that starts at offset `i`: its characters in order, each backslash
/// dropped and the character after it kept as it is.
pub open spec fn run_text(s: Seq<char>, i: int) -> Seq<char>
    decreases s.len() + 1 - i,
{
    let c = char_at(s, i);
    if c == '\0' || c == '$' {
        Seq::empty()
    } else if c == '\\' {
        seq![char_at(s, i + 1)] + run_text(s, i + 2)
    } else {
        seq![c] + run_text(s, i + 1)
    }
}

/// The token that starts at offset `i`: the end-of-input token at a null character or
/// outside `s`, `$$` before `$`, and a run of literal text at any other character.
pub open spec fn token_at(s: Seq<char>, i: int) -> TokenView {
    let c = char_at(s, i);
    if c == '\0' {
        TokenView::Eof
    } else if c == '$' {
        if char_at(s, i + 1) == '$' {
            TokenView::DollarDollar
        } else {
            TokenView::Dollar
        }
    } else {
        TokenView::Other(run_text(s, i))
    }
}

/// Number of input characters that the token starting at offset `i` takes up.
pub open spec fn token_len(s: Seq<char>, i: int) -> nat {
    let c = char_at(s, i);
    if c == '\0' {
        0
    } else if c == '$' {
        if char_at(s, i + 1) == '$' {
            2
        } else {
            1
        }
    } else {
        run_len(s, i)
    }
}

/// Number of items of `s` at or after offset `i`.
pub open spec fn remaining<A>(s: Seq<A>, i: int) -> nat {
    if i < s.len() {
        (s.len() - i) as nat
    } else {
        0
    }
}

/// The tokens of `s` from offset `i` on, up to the first end-of-input token, which is
/// left out.
pub open spec fn tokens_from(s: Seq<char>, i: int) -> Seq<TokenView>
    decreases remaining(s, i),
{
    if token_at(s, i) is Eof {
        Seq::empty()
    } else {
        seq![token_at(s, i)] + tokens_from(s, i + token_len(s, i))
    }
}

/// Offset at which scanning from offset `i` meets the end-of-input token.
pub open spec fn tokens_end(s: Seq<char>, i: int) -> int
    decreases remaining(s, i),
{
    if token_at(s, i) is Eof {
        i
    } else {
        tokens_end(s, i + token_len(s, i))
    }
}

/// The token sequence of the whole of `s`.
pub open spec fn tokenize(s: Seq<char>) -> Seq<TokenView> {
    tokens_from(s, 0)
}

/// Every token takes up at least one character, so there are never more tokens than
/// characters left.
pub proof fn lemma_tokens_len(s: Seq<char>, i: int)
    ensures
        tokens_from(s, i).len() <= remaining(s, i),
    decreases remaining(s, i),
{
    if !(token_at(s, i) is Eof) {
        lemma_tokens_len(s, i + token_len(s, i));
    }
}

/// The end-of-input token is never among the tokens of a text.
pub proof fn lemma_tokens_never_eof(s: Seq<char>, i: int)
    ensures
        forall|k: int|
            0 <= k < tokens_from(s, i).len() ==> !(#[trigger] tokens_from(s, i)[k] is Eof),
    decreases remaining(s, i),
{
    if !(token_at(s, i) is Eof) {
        lemma_tokens_never_eof(s, i + token_len(s, i));
    }
}

/// A run of literal text ends before a `$`, before a null character or at the end of the
/// input.
pub proof fn lemma_run_end(s: Seq<char>, i: int)
    ensures
        char_at(s, i + run_len(s, i)) == '$' || char_at(s, i + run_len(s, i)) == '\0',
    decreases s.len() + 1 - i,
{
    let c = char_at(s, i);
    if c == '\0' || c == '$' {
    } else if c == '\\' {
        lemma_run_end(s, i + 2);
    } else {
        lemma_run_end(s, i + 1);
    }
}

/// Runs of literal text are maximal and `$$` is recognized before `$`: a run is never
/// followed by another run, and a lone `$` is followed by a run or by nothing.
pub proof fn lemma_tokens_neighbours(s: Seq<char>, i: int)
    ensures
        forall|k: int|
            0 <= k && k + 1 < tokens_from(s, i).len() ==> match #[trigger] tokens_from(s, i)[k] {
                TokenView::Other(_) => !(tokens_from(s, i)[k + 1] is Other),
                TokenView::Dollar => tokens_from(s, i)[k + 1] is Other,
                _ => true,
            },
    decreases remaining(s, i),
{
    if !(token_at(s, i) is Eof) {
        lemma_tokens_neighbours(s, i + token_len(s, i));
        lemma_run_end(s, i);
    }
}

/// The tokens of `t` from offset `i` on written out one after the other: a literal run
/// as its text, a lone dollar as `$`, a marker as `$$`.
pub open spec fn tokens_text(t: Seq<TokenView>, i: int) -> Seq<char>
    decreases remaining(t, i),
{
    if 0 <= i < t.len() {
        match t[i] {
            TokenView::Eof => tokens_text(t, i + 1),
            TokenView::Dollar => seq!['$'] + tokens_text(t, i + 1),
            TokenView::DollarDollar => seq!['$', '$'] + tokens_text(t, i + 1),
            TokenView::Other(s) => s + tokens_text(t, i + 1),
        }
    } else {
        Seq::empty()
    }
}

/// The text of `s` from offset `i` up to the first unescaped null character, with each
/// backslash dropped and the character after it kept as it is.
pub open spec fn unescaped(s: Seq<char>, i: int) -> Seq<char>
    decreases s.len() + 1 - i,
{
    let c = char_at(s, i);
    if c == '\0' {
        Seq::empty()
    } else if c == '\\' {
        seq![char_at(s, i + 1)] + unescaped(s, i + 2)
    } else {
        seq![c] + unescaped(s, i + 1)
    }
}

/// A run of literal text is the unescaped text up to the end of the run.
pub proof fn lemma_run_unescaped(s: Seq<char>, i: int)
    ensures
        unescaped(s, i) == run_text(s, i) + unescaped(s, i + run_len(s, i)),
    decreases s.len() + 1 - i,
{
    let c = char_at(s, i);
    if c == '\0' || c == '$' {
    } else if c == '\\' {
        lemma_run_unescaped(s, i + 2);
    } else {
        lemma_run_unescaped(s, i + 1);
    }
}

/// Writing out a token sequence from its second token on is writing out the rest.
pub proof fn lemma_tokens_text_rest(first: TokenView, rest: Seq<TokenView>, k: int)
    requires
        0 <= k,
    ensures
        tokens_text(seq![first] + rest, k + 1) == tokens_text(rest, k),
    decreases remaining(rest, k),
{
    if k < rest.len() {
        lemma_tokens_text_rest(first, rest, k + 1);
    }
}

/// Scanning keeps every character in its place and drops only the backslashes: written
/// out, the tokens give the unescaped text.
pub proof fn lemma_tokens_keep_text(s: Seq<char>, i: int)
    ensures
        tokens_text(tokens_from(s, i), 0) == unescaped(s, i),
    decreases remaining(s, i),
{
    if !(token_at(s, i) is Eof) {
        let j = i + token_len(s, i);
        let rest = tokens_from(s, j);
        lemma_tokens_keep_text(s, j);
        lemma_tokens_text_rest(token_at(s, i), rest, 0);
        match token_at(s, i) {
            TokenView::Other(_) => lemma_run_unescaped(s, i),
            TokenView::DollarDollar => {
                assert(unescaped(s, i + 1) == seq!['$'] + unescaped(s, i + 2));
            },
            _ => {},
        }
    }
}

/// Cursor over the characters of one input, with the tokens recognized so far.
pub struct Scanner {
    pub tokens: Vec<Token>,
    index: usize,
    /// The characters of the input, followed by one null character.
    input: Vec<char>,
}

impl Scanner {
    /// The characters of the input.
    pub closed spec fn chars(&self) -> Seq<char> {
        self.input@.drop_last()
    }

    /// The tokens recognized so far.
    pub closed spec fn scanned(&self) -> Seq<TokenView> {
        self.tokens.deep_view()
    }

    /// Offset of the cursor. It may lie past the end of the input.
    pub closed spec fn pos(&self) -> nat {
        self.index as nat
    }

    /// The buffer ends with the null character that stands for the end of the input.
    pub closed spec fn wf(&self) -> bool {
        self.input.len() > 0 && self.input@.last() == '\0'
    }

    /// The terminating null character takes one place of the buffer, so the cursor can
    /// move one character past the end of the input.
    pub proof fn lemma_input_len(&self)
        requires
            self.wf(),
        ensures
            self.chars().len() < usize::MAX,
    {
    }

    /// A scanner at the start of `s`, with no tokens yet.
    pub fn new(s: &str) -> (r: Self)
        ensures
            r.wf(),
            r.chars() == s@,
            r.pos() == 0,
            r.scanned() == Seq::<TokenView>::empty(),
    {
        broadcast use vstd::string::group_string_axioms;

        let mut input: Vec<char> = Vec::new();
        for c in it: s.chars()
            invariant
                it.seq() == s@,
                input@ == s@.take(it.index()),
        {
            input.push(c);
        }
        input.push('\0');
        Scanner { tokens: Vec::new(), index: 0, input }
    }

    /// Gives up the scanner for the tokens it has recognized.
    pub fn into_tokens(self) -> (r: Vec<Token>)
        ensures
            r.deep_view() == self.scanned(),
    {
        self.tokens
    }

    /// Scans to the end of the input and appends every token met on the way.
    pub fn scan(self) -> (r: Result<Self>)
        requires
            self.wf(),
        ensures
            match r {
                Ok(sc) => {
                    &&& sc.wf()
                    &&& sc.chars() == self.chars()
                    &&& sc.pos() == tokens_end(self.chars(), self.pos() as int)
                    &&& sc.scanned() == self.scanned() + tokens_from(
                        self.chars(),
                        self.pos() as int,
                    )
                },
                Err(_) => false,
            },
    {
        let mut sc = self;
        loop
            invariant
                sc.wf(),
                sc.chars() == self.chars(),
                tokens_end(sc.chars(), sc.pos() as int) == tokens_end(
                    self.chars(),
                    self.pos() as int,
                ),
                sc.scanned() + tokens_from(sc.chars(), sc.pos() as int)
                    == self.scanned() + tokens_from(self.chars(), self.pos() as int),
            ensures
                sc.wf(),
                sc.chars() == self.chars(),
                sc.pos() == tokens_end(self.chars(), self.pos() as int),
                sc.scanned() == self.scanned() + tokens_from(
                    self.chars(),
                    self.pos() as int,
                ),
            decreases remaining(sc.chars(), sc.pos() as int),
        {
            match sc.scan_token() {
                Ok(Token::Eof) => break,
                Ok(tok) => {
                    sc.tokens.push(tok);
                },
                Err(e) => return Err(Error::ScanError(e.to_string())),
            }
        }
        Ok(sc)
    }

    /// Recognizes the token at the cursor and moves the cursor past it.
    pub fn scan_token(&mut self) -> (r: Result<Token>)
        requires
            old(self).wf(),
        ensures
            final(self).wf(),
            final(self).chars() == old(self).chars(),
            final(self).scanned() == old(self).scanned(),
            final(self).pos() == old(self).pos() + token_len(
                old(self).chars(),
                old(self).pos() as int,
            ),
            r matches Ok(t) && t@ == token_at(old(self).chars(), old(self).pos() as int),
    {
        let token = match self.peek(0) {
            '\0' => Ok(Token::Eof),
            '$' => {
                self.read();
                match self.peek(0) {
                    '$' => {
                        self.read();
                        Ok(Token::DollarDollar)
                    },
                    _ => Ok(Token::Dollar),
                }
            },
            _ => self.read_any(),
        };
        token
    }

    /// Reads the run of literal text at the cursor, up to the next unescaped `$` or null
    /// character or the end of the input, and resolves the escapes in it.
    pub fn read_any(&mut self) -> (r: Result<Token>)
        requires
            old(self).wf(),
        ensures
            final(self).wf(),
            final(self).chars() == old(self).chars(),
            final(self).scanned() == old(self).scanned(),
            final(self).pos() == old(self).pos() + run_len(
                old(self).chars(),
                old(self).pos() as int,
            ),
            r matches Ok(t) && t@ == TokenView::Other(
                run_text(old(self).chars(), old(self).pos() as int),
            ),
    {
        let mut text = String::new();
        loop
            invariant
                self.wf(),
                self.chars() == old(self).chars(),
                self.scanned() == old(self).scanned(),
                self.pos() + run_len(self.chars(), self.pos() as int) == old(self).pos() + run_len(
                    old(self).chars(),
                    old(self).pos() as int,
                ),
                text@ + run_text(self.chars(), self.pos() as int) == run_text(
                    old(self).chars(),
                    old(self).pos() as int,
                ),
            ensures
                self.wf(),
                self.chars() == old(self).chars(),
                self.scanned() == old(self).scanned(),
                self.pos() == old(self).pos() + run_len(old(self).chars(), old(self).pos() as int),
                text@ == run_text(old(self).chars(), old(self).pos() as int),
            decreases remaining(self.chars(), self.pos() as int),
        {
            match self.peek(0) {
                '\0' | '$' => break,
                '\\' => {
                    self.read();
                    let c = self.read();
                    text.push(c);
                },
                c => {
                    text.push(c);
                    self.read();
                },
            }
        }
        Ok(Token::Other(text))
    }

    /// Returns the character at the cursor and moves the cursor one character on.
    pub fn read(&mut self) -> (c: char)
        requires
            old(self).wf(),
            old(self).pos() < usize::MAX,
        ensures
            c == char_at(old(self).chars(), old(self).pos() as int),
            final(self).wf(),
            final(self).chars() == old(self).chars(),
            final(self).scanned() == old(self).scanned(),
            final(self).pos() == old(self).pos() + 1,
    {
        let c = self.peek(0);
        self.index += 1;
        c
    }

    /// The character `n` places ahead of the cursor, or the null character past the end
    /// of the input.
    pub fn peek(&mut self, n: usize) -> (c: char)
        requires
            old(self).wf(),
        ensures
            c == char_at(old(self).chars(), old(self).pos() + n),
            *final(self) == *old(self),
    {
        if self.index >= self.input.len() || n >= self.input.len() - self.index {
            return '\0';
        }
        self.input[self.index + n]
    }
}

} // verus!
