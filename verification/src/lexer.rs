//! The spatial lexer: tokens of Xeon source text, each with the line and column
//! at which it starts.
use vstd::prelude::*;
use crate::text::{
    char_is_alphabetic, char_is_alphanumeric, char_is_numeric, char_is_whitespace, chars_of,
    is_alphabetic_char, is_numeric_char, is_whitespace_char, push_char, string_is,
};

verus! {

/// A token. A number literal holds one numeric character: the lexer makes
/// one `NumberLiteral` of each numeric character that does not continue an
/// identifier.
#[derive(Debug, PartialEq, Clone)]
pub enum Token {
    Import,
    From,
    Component,
    Return,
    Let,
    Identifier(String),
    StringLiteral(String),
    NumberLiteral(char),
    OpenParen,
    CloseParen,
    OpenBrace,
    CloseBrace,
    OpenBracket,
    CloseBracket,
    AngleOpen,
    AngleClose,
    Slash,
    Assign,
    Arrow,
    Comma,
    Semicolon,
    Eof,
    Illegal(char),
}

/// A token with the line and column (both counted from 1) where it starts.
#[derive(Debug, Clone)]
pub struct TokenSpan {
    pub token: Token,
    pub line: usize,
    pub col: usize,
}

/// The lexer: the characters of the source and the index of the next one,
/// and the line and column of that character.
pub struct Lexer {
    pub input: LexInput,
    pub line: usize,
    pub col: usize,
}

/// The characters of the source and the index of the next one.
pub struct LexInput {
    chars: Vec<char>,
    pos: usize,
}

impl LexInput {
    /// The characters of the source.
    pub closed spec fn text(&self) -> Seq<char> {
        self.chars@
    }

    /// The index of the next character.
    pub closed spec fn pos(&self) -> int {
        self.pos as int
    }
}

// ---------------------------------------------------------------------------
// Model
// ---------------------------------------------------------------------------

/// Model of `Token`.
pub enum TokenView {
    Import,
    From,
    Component,
    Return,
    Let,
    Identifier(Seq<char>),
    StringLiteral(Seq<char>),
    NumberLiteral(char),
    OpenParen,
    CloseParen,
    OpenBrace,
    CloseBrace,
    OpenBracket,
    CloseBracket,
    AngleOpen,
    AngleClose,
    Slash,
    Assign,
    Arrow,
    Comma,
    Semicolon,
    Eof,
    Illegal(char),
}

/// Model of `TokenSpan`.
pub struct SpanView {
    pub token: TokenView,
    pub line: int,
    pub col: int,
}

/// Where a lexer stands: the index of the next character and its line and column.
pub struct LexState {
    pub pos: int,
    pub line: int,
    pub col: int,
}

impl View for Token {
    type V = TokenView;

    open spec fn view(&self) -> TokenView {
        match self {
            Token::Import => TokenView::Import,
            Token::From => TokenView::From,
            Token::Component => TokenView::Component,
            Token::Return => TokenView::Return,
            Token::Let => TokenView::Let,
            Token::Identifier(s) => TokenView::Identifier(s@),
            Token::StringLiteral(s) => TokenView::StringLiteral(s@),
            Token::NumberLiteral(c) => TokenView::NumberLiteral(*c),
            Token::OpenParen => TokenView::OpenParen,
            Token::CloseParen => TokenView::CloseParen,
            Token::OpenBrace => TokenView::OpenBrace,
            Token::CloseBrace => TokenView::CloseBrace,
            Token::OpenBracket => TokenView::OpenBracket,
            Token::CloseBracket => TokenView::CloseBracket,
            Token::AngleOpen => TokenView::AngleOpen,
            Token::AngleClose => TokenView::AngleClose,
            Token::Slash => TokenView::Slash,
            Token::Assign => TokenView::Assign,
            Token::Arrow => TokenView::Arrow,
            Token::Comma => TokenView::Comma,
            Token::Semicolon => TokenView::Semicolon,
            Token::Eof => TokenView::Eof,
            Token::Illegal(c) => TokenView::Illegal(*c),
        }
    }
}

impl View for TokenSpan {
    type V = SpanView;

    open spec fn view(&self) -> SpanView {
        SpanView { token: self.token@, line: self.line as int, col: self.col as int }
    }
}

/// A lexer state that the lexer can run from without overflow.
pub open spec fn lex_wf(text: Seq<char>, s: LexState) -> bool {
    &&& text.len() < usize::MAX
    &&& 0 <= s.pos <= text.len()
    &&& 0 <= s.line
    &&& 0 <= s.col
    &&& s.line + (text.len() - s.pos) <= usize::MAX
    &&& s.col + (text.len() - s.pos) <= usize::MAX
}

/// The state after reading one character (none at the end): a newline moves
/// to column 1 of the next line, any other character one column right.
pub open spec fn step(text: Seq<char>, s: LexState) -> LexState {
    if 0 <= s.pos < text.len() {
        if text[s.pos] == '\n' {
            LexState { pos: s.pos + 1, line: s.line + 1, col: 1 }
        } else {
            LexState { pos: s.pos + 1, line: s.line, col: s.col + 1 }
        }
    } else {
        s
    }
}

/// The state after reading characters up to index `end`.
pub open spec fn walk(text: Seq<char>, s: LexState, end: int) -> LexState
    decreases end - s.pos,
{
    if 0 <= s.pos < end && s.pos < text.len() {
        walk(text, step(text, s), end)
    } else {
        s
    }
}

/// The state after skipping whitespace.
pub open spec fn skip_ws(text: Seq<char>, s: LexState) -> LexState
    decreases text.len() - s.pos,
{
    if 0 <= s.pos < text.len() && is_whitespace_char(text[s.pos]) {
        skip_ws(text, step(text, s))
    } else {
        s
    }
}

/// Whether a character continues an identifier.
pub open spec fn is_ident_char(c: char) -> bool {
    is_alphabetic_char(c) || is_numeric_char(c) || c == '_'
}

/// The end of the run of identifier characters that starts at `p`.
pub open spec fn ident_end(text: Seq<char>, p: int) -> int
    decreases text.len() - p,
{
    if 0 <= p < text.len() && is_ident_char(text[p]) {
        ident_end(text, p + 1)
    } else {
        p
    }
}

/// The index of the first `"` at or after `p`, or the length of the text.
pub open spec fn quote_end(text: Seq<char>, p: int) -> int
    decreases text.len() - p,
{
    if 0 <= p < text.len() && text[p] != '"' {
        quote_end(text, p + 1)
    } else {
        p
    }
}

/// The token that a word reads as: a keyword or an identifier.
pub open spec fn word_token(w: Seq<char>) -> TokenView {
    if w == "import"@ {
        TokenView::Import
    } else if w == "from"@ {
        TokenView::From
    } else if w == "component"@ {
        TokenView::Component
    } else if w == "return"@ {
        TokenView::Return
    } else if w == "let"@ {
        TokenView::Let
    } else {
        TokenView::Identifier(w)
    }
}

/// The token of a one-character punctuation mark, if `c` is one.
pub open spec fn punct_token(c: char) -> Option<TokenView> {
    if c == '(' {
        Some(TokenView::OpenParen)
    } else if c == ')' {
        Some(TokenView::CloseParen)
    } else if c == '{' {
        Some(TokenView::OpenBrace)
    } else if c == '}' {
        Some(TokenView::CloseBrace)
    } else if c == '[' {
        Some(TokenView::OpenBracket)
    } else if c == ']' {
        Some(TokenView::CloseBracket)
    } else if c == '<' {
        Some(TokenView::AngleOpen)
    } else if c == '>' {
        Some(TokenView::AngleClose)
    } else if c == '/' {
        Some(TokenView::Slash)
    } else if c == ',' {
        Some(TokenView::Comma)
    } else if c == ';' {
        Some(TokenView::Semicolon)
    } else {
        None
    }
}

/// The token that starts with character `c` at `s0.pos` (already read, giving
/// `s1`), and the state after it.
pub open spec fn token_body(text: Seq<char>, c: char, s0: LexState, s1: LexState) -> (TokenView, LexState) {
    if punct_token(c) is Some {
        (punct_token(c)->0, s1)
    } else if c == '=' {
        if 0 <= s1.pos < text.len() && text[s1.pos] == '>' {
            (TokenView::Arrow, step(text, s1))
        } else {
            (TokenView::Assign, s1)
        }
    } else if c == '"' {
        let q = quote_end(text, s1.pos);
        (
            TokenView::StringLiteral(text.subrange(s1.pos, q)),
            if q < text.len() { walk(text, s1, q + 1) } else { walk(text, s1, q) },
        )
    } else if is_alphabetic_char(c) {
        let q = ident_end(text, s1.pos);
        (word_token(text.subrange(s0.pos, q)), walk(text, s1, q))
    } else if is_numeric_char(c) {
        (TokenView::NumberLiteral(c), s1)
    } else {
        (TokenView::Illegal(c), s1)
    }
}

/// The next token from state `s`, positioned where it starts after any
/// whitespace, and the state after it. At the end of the text it is `Eof`,
/// and the state is left where the whitespace ends.
#[verifier::opaque]
pub open spec fn scan(text: Seq<char>, s: LexState) -> (SpanView, LexState) {
    let s0 = skip_ws(text, s);
    if 0 <= s0.pos < text.len() {
        let c = text[s0.pos];
        let (t, s2) = token_body(text, c, s0, step(text, s0));
        (SpanView { token: t, line: s0.line, col: s0.col }, s2)
    } else {
        (SpanView { token: TokenView::Eof, line: s0.line, col: s0.col }, s0)
    }
}

// ---------------------------------------------------------------------------
// Lemmas on the model
// ---------------------------------------------------------------------------

pub proof fn lemma_step_wf(text: Seq<char>, s: LexState)
    requires
        lex_wf(text, s),
    ensures
        lex_wf(text, step(text, s)),
        s.pos < text.len() ==> step(text, s).pos == s.pos + 1,
        step(text, s).pos >= s.pos,
{
}

pub proof fn lemma_walk(text: Seq<char>, s: LexState, end: int)
    requires
        lex_wf(text, s),
        s.pos <= end <= text.len(),
    ensures
        lex_wf(text, walk(text, s, end)),
        walk(text, s, end).pos == end,
    decreases end - s.pos,
{
    if s.pos < end {
        lemma_step_wf(text, s);
        lemma_walk(text, step(text, s), end);
    }
}

pub proof fn lemma_skip_ws(text: Seq<char>, s: LexState)
    requires
        lex_wf(text, s),
    ensures
        lex_wf(text, skip_ws(text, s)),
        s.pos <= skip_ws(text, s).pos,
    decreases text.len() - s.pos,
{
    if 0 <= s.pos < text.len() && is_whitespace_char(text[s.pos]) {
        lemma_step_wf(text, s);
        lemma_skip_ws(text, step(text, s));
    }
}

pub proof fn lemma_ident_end(text: Seq<char>, p: int)
    requires
        0 <= p <= text.len(),
    ensures
        p <= ident_end(text, p) <= text.len(),
    decreases text.len() - p,
{
    if 0 <= p < text.len() && is_ident_char(text[p]) {
        lemma_ident_end(text, p + 1);
    }
}

/// A word is read whole and is a keyword only when it is exactly one: when
/// the next token starts with a letter (none of the punctuation marks), the
/// token is the longest run of letters, digits and underscores from there,
/// read as `Import`, `From`, `Component`, `Return` or `Let` when the run is
/// exactly `import`, `from`, `component`, `return` or `let`, and as an
/// identifier holding the run otherwise.
pub proof fn law_words_and_keywords(text: Seq<char>, s: LexState)
    requires
        lex_wf(text, s),
        token_start(text, s) < text.len(),
        is_alphabetic_char(text[token_start(text, s)]),
        text[token_start(text, s)] != '(' && text[token_start(text, s)] != ')',
        text[token_start(text, s)] != '{' && text[token_start(text, s)] != '}',
        text[token_start(text, s)] != '[' && text[token_start(text, s)] != ']',
        text[token_start(text, s)] != '<' && text[token_start(text, s)] != '>',
        text[token_start(text, s)] != '/' && text[token_start(text, s)] != ',',
        text[token_start(text, s)] != ';' && text[token_start(text, s)] != '=',
        text[token_start(text, s)] != '"',
    ensures
        ({
            let p = token_start(text, s);
            let q = ident_end(text, p);
            let w = text.subrange(p, q);
            let t = scan(text, s).0.token;
            &&& p < q <= text.len()
            &&& forall|k: int| p <= k < q ==> is_ident_char(#[trigger] text[k])
            &&& (q == text.len() || !is_ident_char(text[q]))
            &&& (w == "import"@ ==> t == TokenView::Import)
            &&& (w == "from"@ ==> t == TokenView::From)
            &&& (w == "component"@ ==> t == TokenView::Component)
            &&& (w == "return"@ ==> t == TokenView::Return)
            &&& (w == "let"@ ==> t == TokenView::Let)
            &&& (w != "import"@ && w != "from"@ && w != "component"@ && w != "return"@ && w
                != "let"@ ==> t == TokenView::Identifier(w))
        }),
{
    reveal(scan);
    reveal_strlit("import");
    reveal_strlit("from");
    reveal_strlit("component");
    reveal_strlit("return");
    reveal_strlit("let");
    assert("import"@.len() == 6 && "import"@[0] == 'i');
    assert("from"@.len() == 4);
    assert("component"@.len() == 9);
    assert("return"@.len() == 6 && "return"@[0] == 'r');
    assert("let"@.len() == 3);
    assert("return"@ != "import"@);
    let p = token_start(text, s);
    lemma_skip_ws(text, s);
    lemma_ident_end(text, p);
    lemma_ident_run(text, p);
    assert(is_ident_char(text[p]));
    assert(ident_end(text, p) == ident_end(text, p + 1));
    let s0 = skip_ws(text, s);
    let c = text[p];
    assert(step(text, s0).pos == p + 1);
    assert(punct_token(c) is None);
    let w = text.subrange(p, ident_end(text, p));
    assert(token_body(text, c, s0, step(text, s0)).0 == word_token(w));
    assert(scan(text, s).0.token == word_token(w));
}

pub proof fn lemma_quote_end(text: Seq<char>, p: int)
    requires
        0 <= p <= text.len(),
    ensures
        p <= quote_end(text, p) <= text.len(),
        quote_end(text, p) < text.len() ==> text[quote_end(text, p)] == '"',
    decreases text.len() - p,
{
    if 0 <= p < text.len() && text[p] != '"' {
        lemma_quote_end(text, p + 1);
    }
}

/// Scanning keeps the state well formed and never moves back; it moves
/// forward exactly when the token is not `Eof`, and `Eof` leaves the state at
/// the end of the text.
pub proof fn lemma_scan(text: Seq<char>, s: LexState)
    requires
        lex_wf(text, s),
    ensures
        lex_wf(text, scan(text, s).1),
        s.pos <= scan(text, s).1.pos,
        scan(text, s).0.token is Eof ==> scan(text, s).1.pos == text.len(),
        !(scan(text, s).0.token is Eof) ==> s.pos < scan(text, s).1.pos,
{
    reveal(scan);
    let s0 = skip_ws(text, s);
    lemma_skip_ws(text, s);
    if 0 <= s0.pos < text.len() {
        let c = text[s0.pos];
        let s1 = step(text, s0);
        lemma_step_wf(text, s0);
        if punct_token(c) is Some {
        } else if c == '=' {
            lemma_step_wf(text, s1);
        } else if c == '"' {
            lemma_quote_end(text, s1.pos);
            let q = quote_end(text, s1.pos);
            if q < text.len() {
                lemma_walk(text, s1, q + 1);
            } else {
                lemma_walk(text, s1, q);
            }
        } else if is_alphabetic_char(c) {
            lemma_ident_end(text, s1.pos);
            lemma_walk(text, s1, ident_end(text, s1.pos));
        }
    }
}

/// Scanning again from the state that `Eof` left gives `Eof` at the same
/// place and leaves the state unchanged.
pub proof fn lemma_scan_eof_stable(text: Seq<char>, s: LexState)
    requires
        lex_wf(text, s),
        scan(text, s).0.token is Eof,
    ensures
        scan(text, scan(text, s).1) == scan(text, s),
{
    reveal(scan);
    lemma_scan(text, s);
    let s0 = skip_ws(text, s);
    lemma_skip_ws(text, s);
    assert(skip_ws(text, s0) == s0);
}

// ---------------------------------------------------------------------------
// The token stream
// ---------------------------------------------------------------------------

/// The tokens read from state `s` up to and including the first `Eof`, each
/// with the state after it.
pub open spec fn trace(text: Seq<char>, s: LexState) -> Seq<(SpanView, LexState)>
    decreases text.len() - s.pos,
{
    let (t, s2) = scan(text, s);
    if t.token is Eof || s2.pos <= s.pos || s2.pos > text.len() {
        seq![(t, s2)]
    } else {
        seq![(t, s2)].add(trace(text, s2))
    }
}

/// The token stream read from state `s`: it ends with its only `Eof`.
pub open spec fn tokens_from(text: Seq<char>, s: LexState) -> Seq<SpanView> {
    trace(text, s).map_values(|p: (SpanView, LexState)| p.0)
}

/// A token stream as the lexer produces it: one `Eof`, at its end.
pub open spec fn wf_tokens(toks: Seq<SpanView>) -> bool {
    &&& toks.len() >= 1
    &&& toks.last().token is Eof
    &&& forall|i: int| 0 <= i < toks.len() - 1 ==> !(#[trigger] toks[i].token is Eof)
}

/// Entry `i` of a trace is scanned from the state of entry `i - 1`.
pub open spec fn linked(text: Seq<char>, tr: Seq<(SpanView, LexState)>, i: int) -> bool {
    tr[i] == scan(text, tr[i - 1].1)
}

/// The shape of the trace: it starts with the first token, each next entry is
/// scanned from the state of the previous one, and only the last is `Eof`.
pub proof fn lemma_trace(text: Seq<char>, s: LexState)
    requires
        lex_wf(text, s),
    ensures
        trace(text, s).len() >= 1,
        trace(text, s).len() <= text.len() - s.pos + 1,
        trace(text, s)[0] == scan(text, s),
        trace(text, s).last().0.token is Eof,
        forall|i: int| 0 <= i < trace(text, s).len() ==> lex_wf(text, #[trigger] trace(text, s)[i].1),
        forall|i: int|
            0 <= i < trace(text, s).len() - 1 ==> !(#[trigger] trace(text, s)[i].0.token is Eof),
        forall|i: int| 1 <= i < trace(text, s).len() ==> #[trigger] linked(text, trace(text, s), i),
    decreases text.len() - s.pos,
{
    lemma_scan(text, s);
    let (t, s2) = scan(text, s);
    if t.token is Eof {
    } else {
        lemma_trace(text, s2);
        let rest = trace(text, s2);
        let all = trace(text, s);
        assert(all == seq![(t, s2)].add(rest));
        assert forall|i: int| 0 <= i < all.len() implies lex_wf(text, #[trigger] all[i].1) by {
            if i > 0 {
                assert(all[i] == rest[i - 1]);
            }
        }
        assert forall|i: int| 0 <= i < all.len() - 1 implies !(#[trigger] all[i].0.token is Eof) by {
            if i > 0 {
                assert(all[i] == rest[i - 1]);
            }
        }
        assert forall|i: int| 1 <= i < all.len() implies #[trigger] linked(text, all, i) by {
            assert(all[i] == rest[i - 1]);
            if i > 1 {
                assert(all[i - 1] == rest[i - 2]);
                assert(linked(text, rest, i - 1));
            }
        }
    }
}

pub proof fn lemma_tokens_from(text: Seq<char>, s: LexState)
    requires
        lex_wf(text, s),
    ensures
        wf_tokens(tokens_from(text, s)),
        tokens_from(text, s).len() == trace(text, s).len(),
        tokens_from(text, s).len() <= text.len() - s.pos + 1,
        forall|i: int|
            0 <= i < tokens_from(text, s).len() ==> #[trigger] tokens_from(text, s)[i] == trace(
                text,
                s,
            )[i].0,
{
    lemma_trace(text, s);
    let toks = tokens_from(text, s);
    let tr = trace(text, s);
    assert forall|i: int| 0 <= i < toks.len() - 1 implies !(#[trigger] toks[i].token is Eof) by {
        assert(toks[i] == tr[i].0);
    }
    assert(toks.last() == tr.last().0);
}

/// Scanning from the state after the `i`-th token gives the next token of the
/// trace, or, after the final `Eof`, that same `Eof` again.
pub proof fn lemma_trace_step(text: Seq<char>, s: LexState, i: int)
    requires
        lex_wf(text, s),
        0 <= i < trace(text, s).len(),
    ensures
        scan(text, trace(text, s)[i].1) == trace(text, s)[if i + 1 < trace(text, s).len() {
            i + 1
        } else {
            i
        }],
{
    let tr = trace(text, s);
    lemma_trace(text, s);
    if i + 1 < tr.len() {
        assert(linked(text, tr, i + 1));
    } else {
        if i == 0 {
            assert(tr[0] == scan(text, s));
            lemma_scan_eof_stable(text, s);
        } else {
            let prev = tr[i - 1].1;
            assert(linked(text, tr, i));
            assert(lex_wf(text, prev));
            lemma_scan_eof_stable(text, prev);
        }
    }
}

proof fn lemma_ident_run(text: Seq<char>, p: int)
    requires
        0 <= p <= text.len(),
    ensures
        forall|k: int| p <= k < ident_end(text, p) ==> is_ident_char(#[trigger] text[k]),
        ident_end(text, p) < text.len() ==> !is_ident_char(text[ident_end(text, p)]),
    decreases text.len() - p,
{
    if 0 <= p < text.len() && is_ident_char(text[p]) {
        lemma_ident_run(text, p + 1);
    }
}

proof fn lemma_quote_run(text: Seq<char>, p: int)
    requires
        0 <= p <= text.len(),
    ensures
        forall|k: int| p <= k < quote_end(text, p) ==> #[trigger] text[k] != '"',
    decreases text.len() - p,
{
    if 0 <= p < text.len() && text[p] != '"' {
        lemma_quote_run(text, p + 1);
    }
}

/// What the text of a token is made of: an identifier starts with a letter,
/// goes on with letters, digits and underscores, and is not a keyword; a
/// string literal holds no double quote.
pub proof fn law_token_text(text: Seq<char>, s: LexState)
    requires
        lex_wf(text, s),
    ensures
        match scan(text, s).0.token {
            TokenView::Identifier(w) => {
                &&& w.len() >= 1
                &&& is_alphabetic_char(w[0])
                &&& forall|k: int| 1 <= k < w.len() ==> is_ident_char(#[trigger] w[k])
                &&& w != "import"@ && w != "from"@ && w != "component"@ && w != "return"@
                    && w != "let"@
            },
            TokenView::StringLiteral(x) => forall|k: int| 0 <= k < x.len() ==> #[trigger] x[k] != '"',
            _ => true,
        },
{
    reveal(scan);
    lemma_skip_ws(text, s);
    let s0 = skip_ws(text, s);
    if 0 <= s0.pos < text.len() {
        let c = text[s0.pos];
        let s1 = step(text, s0);
        lemma_step_wf(text, s0);
        if punct_token(c) is Some || c == '=' {
        } else if c == '"' {
            lemma_quote_end(text, s1.pos);
            lemma_quote_run(text, s1.pos);
            let x = text.subrange(s1.pos, quote_end(text, s1.pos));
            assert forall|k: int| 0 <= k < x.len() implies #[trigger] x[k] != '"' by {
                assert(x[k] == text[s1.pos + k]);
            }
        } else if is_alphabetic_char(c) {
            lemma_ident_end(text, s1.pos);
            lemma_ident_run(text, s1.pos);
            let w = text.subrange(s0.pos, ident_end(text, s1.pos));
            assert(w[0] == c);
            assert forall|k: int| 1 <= k < w.len() implies is_ident_char(#[trigger] w[k]) by {
                assert(w[k] == text[s0.pos + k]);
            }
        }
    }
}

// ---------------------------------------------------------------------------
// Positions only move forward
// ---------------------------------------------------------------------------

/// Line and column `(l1, c1)` come no later than `(l2, c2)`.
pub open spec fn coords_le(l1: int, c1: int, l2: int, c2: int) -> bool {
    l1 < l2 || (l1 == l2 && c1 <= c2)
}

/// Line and column `(l1, c1)` come strictly before `(l2, c2)`.
pub open spec fn coords_lt(l1: int, c1: int, l2: int, c2: int) -> bool {
    l1 < l2 || (l1 == l2 && c1 < c2)
}

proof fn lemma_walk_forward(text: Seq<char>, s: LexState, end: int)
    ensures
        coords_le(s.line, s.col, walk(text, s, end).line, walk(text, s, end).col),
        walk(text, s, end).pos != s.pos ==> coords_lt(
            s.line,
            s.col,
            walk(text, s, end).line,
            walk(text, s, end).col,
        ),
    decreases end - s.pos,
{
    if 0 <= s.pos < end && s.pos < text.len() {
        lemma_walk_forward(text, step(text, s), end);
    }
}

proof fn lemma_skip_ws_forward(text: Seq<char>, s: LexState)
    ensures
        coords_le(s.line, s.col, skip_ws(text, s).line, skip_ws(text, s).col),
    decreases text.len() - s.pos,
{
    if 0 <= s.pos < text.len() && is_whitespace_char(text[s.pos]) {
        lemma_skip_ws_forward(text, step(text, s));
    }
}

/// Positions never go back: a token starts no earlier than the line and
/// column the lexer stood at, and after any token but `Eof` the lexer stands
/// strictly after the token's start (the token consumed input).
pub proof fn law_positions_advance(text: Seq<char>, s: LexState)
    requires
        lex_wf(text, s),
    ensures
        coords_le(s.line, s.col, scan(text, s).0.line, scan(text, s).0.col),
        coords_le(scan(text, s).0.line, scan(text, s).0.col, scan(text, s).1.line, scan(text, s).1.col),
        !(scan(text, s).0.token is Eof) ==> coords_lt(
            scan(text, s).0.line,
            scan(text, s).0.col,
            scan(text, s).1.line,
            scan(text, s).1.col,
        ),
{
    reveal(scan);
    lemma_skip_ws_forward(text, s);
    lemma_skip_ws(text, s);
    let s0 = skip_ws(text, s);
    if 0 <= s0.pos < text.len() {
        let c = text[s0.pos];
        let s1 = step(text, s0);
        assert(coords_lt(s0.line, s0.col, s1.line, s1.col));
        if punct_token(c) is Some {
        } else if c == '=' {
            let s2 = step(text, s1);
            assert(coords_le(s1.line, s1.col, s2.line, s2.col));
        } else if c == '"' {
            let q = quote_end(text, s1.pos);
            lemma_walk_forward(text, s1, q + 1);
            lemma_walk_forward(text, s1, q);
        } else if is_alphabetic_char(c) {
            lemma_walk_forward(text, s1, ident_end(text, s1.pos));
        }
    }
}

// ---------------------------------------------------------------------------
// Line and column
// ---------------------------------------------------------------------------

/// The number of newlines in `s`.
pub open spec fn newlines(s: Seq<char>) -> nat
    decreases s.len(),
{
    if s.len() == 0 {
        0
    } else {
        newlines(s.drop_last()) + if s.last() == '\n' { 1nat } else { 0nat }
    }
}

/// The index of the last newline before index `p`, or -1.
pub open spec fn last_newline(text: Seq<char>, p: int) -> int
    decreases p,
{
    if p <= 0 {
        -1
    } else if text[p - 1] == '\n' {
        p - 1
    } else {
        last_newline(text, p - 1)
    }
}

/// The line of index `p`: one more than the newlines before it.
pub open spec fn line_at(text: Seq<char>, p: int) -> int {
    1 + newlines(text.take(p)) as int
}

/// The column of index `p`: one more than the characters since the last newline.
pub open spec fn col_at(text: Seq<char>, p: int) -> int {
    p - last_newline(text, p)
}

/// A state whose line and column are those of its index.
pub open spec fn at_coords(text: Seq<char>, s: LexState) -> bool {
    s.line == line_at(text, s.pos) && s.col == col_at(text, s.pos)
}

/// The state at the start of a text.
pub open spec fn start_state() -> LexState {
    LexState { pos: 0, line: 1, col: 1 }
}

proof fn lemma_step_coords(text: Seq<char>, s: LexState)
    requires
        0 <= s.pos <= text.len(),
        at_coords(text, s),
    ensures
        at_coords(text, step(text, s)),
{
    if s.pos < text.len() {
        assert(text.take(s.pos + 1).drop_last() =~= text.take(s.pos));
    }
}

proof fn lemma_walk_coords(text: Seq<char>, s: LexState, end: int)
    requires
        0 <= s.pos <= text.len(),
        at_coords(text, s),
    ensures
        at_coords(text, walk(text, s, end)),
    decreases end - s.pos,
{
    if 0 <= s.pos < end && s.pos < text.len() {
        lemma_step_coords(text, s);
        lemma_walk_coords(text, step(text, s), end);
    }
}

proof fn lemma_skip_ws_coords(text: Seq<char>, s: LexState)
    requires
        0 <= s.pos <= text.len(),
        at_coords(text, s),
    ensures
        at_coords(text, skip_ws(text, s)),
        s.pos <= skip_ws(text, s).pos <= text.len(),
        skip_ws(text, s).pos < text.len() ==> !is_whitespace_char(text[skip_ws(text, s).pos]),
        forall|k: int| s.pos <= k < skip_ws(text, s).pos ==> is_whitespace_char(#[trigger] text[k]),
    decreases text.len() - s.pos,
{
    if 0 <= s.pos < text.len() && is_whitespace_char(text[s.pos]) {
        lemma_step_coords(text, s);
        lemma_skip_ws_coords(text, step(text, s));
    }
}

/// Where the token scanned from `s` starts: the index after the whitespace.
pub open spec fn token_start(text: Seq<char>, s: LexState) -> int {
    skip_ws(text, s).pos
}

/// Scanning from a state at its coordinates reports the token at the line and
/// column of the index where it starts, which holds its first character (or is
/// the end for `Eof`) after nothing but whitespace; the state after it is at
/// its coordinates again.
pub proof fn lemma_scan_coords(text: Seq<char>, s: LexState)
    requires
        lex_wf(text, s),
        at_coords(text, s),
    ensures
        at_coords(text, scan(text, s).1),
        scan(text, s).0.line == line_at(text, token_start(text, s)),
        scan(text, s).0.col == col_at(text, token_start(text, s)),
        s.pos <= token_start(text, s) <= text.len(),
        forall|k: int| s.pos <= k < token_start(text, s) ==> is_whitespace_char(#[trigger] text[k]),
        scan(text, s).0.token is Eof <==> token_start(text, s) == text.len(),
        token_start(text, s) < text.len() ==> !is_whitespace_char(text[token_start(text, s)]),
{
    reveal(scan);
    lemma_skip_ws_coords(text, s);
    lemma_skip_ws(text, s);
    let s0 = skip_ws(text, s);
    if 0 <= s0.pos < text.len() {
        let c = text[s0.pos];
        let s1 = step(text, s0);
        lemma_step_coords(text, s0);
        lemma_step_wf(text, s0);
        if punct_token(c) is Some {
        } else if c == '=' {
            lemma_step_coords(text, s1);
        } else if c == '"' {
            let q = quote_end(text, s1.pos);
            lemma_walk_coords(text, s1, q + 1);
            lemma_walk_coords(text, s1, q);
        } else if is_alphabetic_char(c) {
            lemma_walk_coords(text, s1, ident_end(text, s1.pos));
        }
    }
}

/// The lexer reports every token of a text where it starts: the `i`-th token
/// of the stream from the start of the text lies at `token_start` of the state
/// the previous token left (only whitespace in between), and its line is one
/// more than the newlines before that index, its column one more than the
/// characters since the last of them.
pub proof fn law_token_positions(text: Seq<char>, i: int)
    requires
        text.len() < usize::MAX,
        0 <= i < tokens_from(text, start_state()).len(),
    ensures
        ({
            let prev = if i == 0 { start_state() } else { trace(text, start_state())[i - 1].1 };
            let p = token_start(text, prev);
            &&& tokens_from(text, start_state())[i].line == line_at(text, p)
            &&& tokens_from(text, start_state())[i].col == col_at(text, p)
            &&& prev.pos <= p <= text.len()
            &&& forall|k: int| prev.pos <= k < p ==> is_whitespace_char(#[trigger] text[k])
            &&& (tokens_from(text, start_state())[i].token is Eof <==> p == text.len())
        }),
    decreases i,
{
    let s = start_state();
    lemma_tokens_from(text, s);
    lemma_trace(text, s);
    assert(at_coords(text, s)) by {
        assert(text.take(0) =~= Seq::<char>::empty());
    }
    lemma_trace_coords(text, i);
    let tr = trace(text, s);
    let prev = if i == 0 { s } else { tr[i - 1].1 };
    if i > 0 {
        lemma_trace_coords(text, i - 1);
        assert(linked(text, tr, i));
        assert(lex_wf(text, tr[i - 1].1));
    }
    lemma_scan_coords(text, prev);
}

/// Every state the lexer passes through from the start is at its coordinates,
/// and entry `i` of the trace is scanned from the state the previous one left.
proof fn lemma_trace_coords(text: Seq<char>, i: int)
    requires
        text.len() < usize::MAX,
        0 <= i < trace(text, start_state()).len(),
    ensures
        at_coords(text, trace(text, start_state())[i].1),
        trace(text, start_state())[i] == scan(
            text,
            if i == 0 { start_state() } else { trace(text, start_state())[i - 1].1 },
        ),
    decreases i,
{
    let s = start_state();
    lemma_trace(text, s);
    assert(at_coords(text, s)) by {
        assert(text.take(0) =~= Seq::<char>::empty());
    }
    let tr = trace(text, s);
    if i == 0 {
        lemma_scan_coords(text, s);
    } else {
        lemma_trace_coords(text, i - 1);
        assert(linked(text, tr, i));
        lemma_scan_coords(text, tr[i - 1].1);
    }
}

// ---------------------------------------------------------------------------
// The executable lexer
// ---------------------------------------------------------------------------

/// A position in the characters: index, line and column.
#[derive(Clone, Copy)]
struct Cursor {
    pos: usize,
    line: usize,
    col: usize,
}

impl Cursor {
    spec fn state(self) -> LexState {
        LexState { pos: self.pos as int, line: self.line as int, col: self.col as int }
    }
}

/// Reads one character, updating line and column.
fn next_char(chars: &Vec<char>, cur: &mut Cursor) -> (r: Option<char>)
    requires
        lex_wf(chars@, old(cur).state()),
    ensures
        lex_wf(chars@, final(cur).state()),
        final(cur).state() == step(chars@, old(cur).state()),
        r == (if old(cur).pos < chars@.len() {
            Some(chars@[old(cur).pos as int])
        } else {
            None::<char>
        }),
{
    proof {
        lemma_step_wf(chars@, cur.state());
    }
    if cur.pos < chars.len() {
        let c = chars[cur.pos];
        cur.pos = cur.pos + 1;
        if c == '\n' {
            cur.line = cur.line + 1;
            cur.col = 1;
        } else {
            cur.col = cur.col + 1;
        }
        Some(c)
    } else {
        None
    }
}

/// Skips whitespace.
fn skip_whitespace(chars: &Vec<char>, cur: &mut Cursor)
    requires
        lex_wf(chars@, old(cur).state()),
    ensures
        lex_wf(chars@, final(cur).state()),
        final(cur).state() == skip_ws(chars@, old(cur).state()),
{
    while cur.pos < chars.len() && char_is_whitespace(chars[cur.pos])
        invariant
            lex_wf(chars@, cur.state()),
            skip_ws(chars@, cur.state()) == skip_ws(chars@, old(cur).state()),
        decreases chars@.len() - cur.pos,
    {
        next_char(chars, cur);
    }
}

/// Reads the rest of an identifier whose first character `first` has been read.
fn read_identifier(chars: &Vec<char>, cur: &mut Cursor, first: char) -> (ident: String)
    requires
        lex_wf(chars@, old(cur).state()),
    ensures
        lex_wf(chars@, final(cur).state()),
        ident@ == seq![first] + chars@.subrange(
            old(cur).pos as int,
            ident_end(chars@, old(cur).pos as int),
        ),
        final(cur).state() == walk(chars@, old(cur).state(), ident_end(chars@, old(cur).pos as int)),
{
    let ghost text = chars@;
    let ghost p0 = cur.pos as int;
    let ghost q = ident_end(text, p0);
    proof {
        lemma_ident_end(text, p0);
    }
    let mut ident = String::new();
    push_char(&mut ident, first);
    while cur.pos < chars.len() && (char_is_alphanumeric(chars[cur.pos]) || chars[cur.pos] == '_')
        invariant
            lex_wf(text, cur.state()),
            text == chars@,
            0 <= p0 <= cur.pos <= q <= text.len(),
            ident_end(text, cur.pos as int) == q,
            ident@ == seq![first] + text.subrange(p0, cur.pos as int),
            walk(text, cur.state(), q) == walk(text, old(cur).state(), q),
        decreases text.len() - cur.pos,
    {
        proof {
            lemma_ident_end(text, cur.pos + 1);
        }
        let ghost before = cur.pos as int;
        let ghost old_ident = ident@;
        let c = next_char(chars, cur);
        let ch = c.unwrap();
        push_char(&mut ident, ch);
        assert(text.subrange(p0, before + 1) =~= text.subrange(p0, before).push(ch));
        assert(ident@ =~= seq![first] + text.subrange(p0, cur.pos as int));
    }
    ident
}

/// Reads the rest of a string literal whose opening quote has been read.
fn read_string(chars: &Vec<char>, cur: &mut Cursor) -> (s: String)
    requires
        lex_wf(chars@, old(cur).state()),
    ensures
        lex_wf(chars@, final(cur).state()),
        s@ == chars@.subrange(old(cur).pos as int, quote_end(chars@, old(cur).pos as int)),
        final(cur).state() == (if quote_end(chars@, old(cur).pos as int) < chars@.len() {
            walk(chars@, old(cur).state(), quote_end(chars@, old(cur).pos as int) + 1)
        } else {
            walk(chars@, old(cur).state(), quote_end(chars@, old(cur).pos as int))
        }),
{
    let ghost text = chars@;
    let ghost p0 = cur.pos as int;
    let ghost q = quote_end(text, p0);
    let ghost target = if q < text.len() { q + 1 } else { q };
    proof {
        lemma_quote_end(text, p0);
    }
    let mut s = String::new();
    while cur.pos < chars.len() && chars[cur.pos] != '"'
        invariant
            lex_wf(text, cur.state()),
            text == chars@,
            0 <= p0 <= cur.pos <= q <= text.len(),
            q < text.len() ==> text[q] == '"',
            target == (if q < text.len() { q + 1 } else { q }),
            quote_end(text, cur.pos as int) == q,
            s@ == text.subrange(p0, cur.pos as int),
            walk(text, cur.state(), target) == walk(text, old(cur).state(), target),
        decreases text.len() - cur.pos,
    {
        proof {
            lemma_quote_end(text, cur.pos + 1);
        }
        let c = next_char(chars, cur);
        push_char(&mut s, c.unwrap());
        assert(s@ =~= text.subrange(p0, cur.pos as int));
    }
    assert(cur.pos == q);
    if cur.pos < chars.len() {
        let ghost at_quote = cur.state();
        next_char(chars, cur);
        assert(walk(text, at_quote, target) == walk(text, cur.state(), target));
        assert(walk(text, cur.state(), target) == cur.state());
    } else {
        assert(walk(text, cur.state(), target) == cur.state());
    }
    s
}

/// A keyword token for the five keywords, an identifier token otherwise.
fn keyword_or_identifier(ident: String) -> (t: Token)
    ensures
        t@ == word_token(ident@),
{
    if string_is(&ident, "import") {
        Token::Import
    } else if string_is(&ident, "from") {
        Token::From
    } else if string_is(&ident, "component") {
        Token::Component
    } else if string_is(&ident, "return") {
        Token::Return
    } else if string_is(&ident, "let") {
        Token::Let
    } else {
        Token::Identifier(ident)
    }
}

/// Reads the next token from `cur`.
fn scan_token(chars: &Vec<char>, cur: &mut Cursor) -> (t: TokenSpan)
    requires
        lex_wf(chars@, old(cur).state()),
    ensures
        lex_wf(chars@, final(cur).state()),
        (t@, final(cur).state()) == scan(chars@, old(cur).state()),
{
    reveal(scan);
    let ghost text = chars@;
    skip_whitespace(chars, cur);
    let ghost s0 = cur.state();
    let start_line = cur.line;
    let start_col = cur.col;
    let ch = match next_char(chars, cur) {
        Some(c) => c,
        None => {
            return TokenSpan { token: Token::Eof, line: start_line, col: start_col };
        },
    };
    let ghost s1 = cur.state();
    let token = if ch == '(' {
        Token::OpenParen
    } else if ch == ')' {
        Token::CloseParen
    } else if ch == '{' {
        Token::OpenBrace
    } else if ch == '}' {
        Token::CloseBrace
    } else if ch == '[' {
        Token::OpenBracket
    } else if ch == ']' {
        Token::CloseBracket
    } else if ch == '<' {
        Token::AngleOpen
    } else if ch == '>' {
        Token::AngleClose
    } else if ch == '/' {
        Token::Slash
    } else if ch == ',' {
        Token::Comma
    } else if ch == ';' {
        Token::Semicolon
    } else if ch == '=' {
        if cur.pos < chars.len() && chars[cur.pos] == '>' {
            next_char(chars, cur);
            Token::Arrow
        } else {
            Token::Assign
        }
    } else if ch == '"' {
        Token::StringLiteral(read_string(chars, cur))
    } else if char_is_alphabetic(ch) {
        let ident = read_identifier(chars, cur, ch);
        proof {
            lemma_ident_end(text, s1.pos);
            assert(ident@ =~= text.subrange(s0.pos, ident_end(text, s1.pos)));
        }
        keyword_or_identifier(ident)
    } else if char_is_numeric(ch) {
        Token::NumberLiteral(ch)
    } else {
        Token::Illegal(ch)
    };
    TokenSpan { token, line: start_line, col: start_col }
}

impl Clone for Lexer {
    /// A lexer over the same characters, at the same place.
    fn clone(&self) -> (res: Self)
        ensures
            res.text() == self.text(),
            res.state() == self.state(),
    {
        let chars = self.input.chars.clone();
        assert(chars@ =~= self.input.chars@);
        Lexer { input: LexInput { chars, pos: self.input.pos }, line: self.line, col: self.col }
    }
}

impl Lexer {
    /// The characters of the source.
    pub open spec fn text(&self) -> Seq<char> {
        self.input.text()
    }

    /// The index of the next character, with its line and column.
    pub open spec fn state(&self) -> LexState {
        LexState { pos: self.input.pos(), line: self.line as int, col: self.col as int }
    }

    /// The lexer can run on without overflow.
    pub open spec fn wf(&self) -> bool {
        lex_wf(self.text(), self.state())
    }

    /// A lexer at the start of `source`: line 1, column 1.
    pub fn new(source: &str) -> (lx: Lexer)
        requires
            source@.len() < usize::MAX,
        ensures
            lx.wf(),
            lx.text() == source@,
            lx.state() == (LexState { pos: 0, line: 1, col: 1 }),
            lx.line == 1,
            lx.col == 1,
    {
        let chars = chars_of(source);
        Lexer { input: LexInput { chars, pos: 0 }, line: 1, col: 1 }
    }

    /// The next token and where it starts; advances past it.
    pub fn next_token(&mut self) -> (t: TokenSpan)
        requires
            old(self).wf(),
        ensures
            final(self).wf(),
            final(self).text() == old(self).text(),
            (t@, final(self).state()) == scan(old(self).text(), old(self).state()),
    {
        let mut cur = Cursor { pos: self.input.pos, line: self.line, col: self.col };
        let t = scan_token(&self.input.chars, &mut cur);
        self.input.pos = cur.pos;
        self.line = cur.line;
        self.col = cur.col;
        t
    }

    /// The token that `next_token` would return; the lexer does not move.
    pub fn peek_token(&self) -> (t: TokenSpan)
        requires
            self.wf(),
        ensures
            t@ == scan(self.text(), self.state()).0,
    {
        let mut cur = Cursor { pos: self.input.pos, line: self.line, col: self.col };
        scan_token(&self.input.chars, &mut cur)
    }
}

} // verus!
