//! The recursive-descent parser. Every function here computes exactly what the
//! functions of `grammar` say of the token stream.
use vstd::prelude::*;
use crate::ast::{
    attrs_view, components_view, imports_view, lemma_children_view, lemma_empty_views,
    lemma_push_attrs, lemma_push_components, lemma_push_imports, lemma_push_nodes,
    lemma_push_statements, lemma_push_strings, nodes_view, statements_view, strings_view, AstNode,
    AttributeValue, ComponentNode, ImportNode, Statement, UiNode,
};
use crate::grammar::{
    attr_list, body_items, child_list, default_return_tree, err_at, expr_text, finish_node,
    import_items, lemma_attr_list_range, lemma_child_list_range, lemma_expr_text_range,
    lemma_state_declaration_range, lemma_ui_node_range, lookup_attr, mismatch_message, next_idx,
    parse_from, program_items, import_decl, component_decl, lemma_import_decl_range,
    lemma_component_decl_range, skip_to_open_brace, skip_to_semicolon, state_declaration, tok,
    token_text, unterminated_import_message, advance_by, arg_text, unbrace, lemma_arg_text_range,
    lemma_advance_by_range, lemma_skip_to_semicolon_range, ParseErrorView,
};
use crate::lexer::{
    lemma_tokens_from, lemma_trace, lemma_trace_step, lex_wf, start_state, tokens_from, trace,
    wf_tokens, LexState, Lexer, SpanView, Token, TokenSpan,
};
use crate::text::{chars_of, push_char, push_range, push_str, string_is};

verus! {

/// A syntax error and the line and column of the token where it was found.
#[derive(Debug)]
pub struct ParseError {
    pub message: String,
    pub line: usize,
    pub col: usize,
}

impl View for ParseError {
    type V = ParseErrorView;

    open spec fn view(&self) -> ParseErrorView {
        ParseErrorView { message: self.message@, line: self.line as int, col: self.col as int }
    }
}

/// The parser: a lexer and the current token.
pub struct Parser {
    lexer: Lexer,
    current_token: TokenSpan,
    origin: Ghost<LexState>,
    index: Ghost<int>,
}

impl Parser {
    /// The token stream the parser reads: every token its lexer gives from
    /// where the parser was made, up to the first `Eof`.
    pub closed spec fn tokens(&self) -> Seq<SpanView> {
        tokens_from(self.lexer.text(), self.origin@)
    }

    /// The index of the current token in that stream.
    pub closed spec fn position(&self) -> int {
        self.index@
    }

    /// The current token is the one at `position()`, and the lexer stands
    /// right after it.
    pub closed spec fn wf(&self) -> bool {
        &&& self.lexer.wf()
        &&& lex_wf(self.lexer.text(), self.origin@)
        &&& 0 <= self.index@ < trace(self.lexer.text(), self.origin@).len()
        &&& self.current_token@ == trace(self.lexer.text(), self.origin@)[self.index@].0
        &&& self.lexer.state() == trace(self.lexer.text(), self.origin@)[self.index@].1
    }

    /// Facts that follow from `wf`: the stream is well formed and not longer
    /// than the text, and the current token is `tok` at the position.
    proof fn lemma_wf(&self)
        requires
            self.wf(),
        ensures
            self.tokens().len() == trace(self.lexer.text(), self.origin@).len(),
            1 <= self.tokens().len() <= self.lexer.text().len() + 1,
            self.lexer.text().len() < usize::MAX,
            self.tokens().len() <= usize::MAX,
            wf_tokens(self.tokens()),
            0 <= self.position() < self.tokens().len(),
            tok(self.tokens(), self.position()) == self.current_token@.token,
            self.tokens()[self.position()] == self.current_token@,
            tok(self.tokens(), self.position()) is Eof ==> self.position() == self.tokens().len() - 1,
    {
        let text = self.lexer.text();
        let o = self.origin@;
        lemma_tokens_from(text, o);
        let toks = tokens_from(text, o);
        let i = self.index@;
        assert(toks[i] == trace(text, o)[i].0);
        if i + 1 < toks.len() {
            assert(!(toks[i].token is Eof));
        } else {
            assert(toks[i] == toks.last());
        }
    }

    /// A parser that reads the tokens of `lexer`; its current token is the first.
    pub fn new(lexer: Lexer) -> (p: Parser)
        requires
            lexer.wf(),
        ensures
            p.wf(),
            p.tokens() == tokens_from(lexer.text(), lexer.state()),
            p.position() == 0,
    {
        let ghost origin = lexer.state();
        let mut lexer = lexer;
        let current_token = lexer.next_token();
        proof {
            lemma_trace(lexer.text(), origin);
        }
        Parser { lexer, current_token, origin: Ghost(origin), index: Ghost(0) }
    }

    /// Moves to the next token (the final `Eof` stays).
    fn advance(&mut self)
        requires
            old(self).wf(),
        ensures
            final(self).wf(),
            final(self).tokens() == old(self).tokens(),
            final(self).position() == next_idx(old(self).tokens(), old(self).position()),
    {
        proof {
            self.lemma_wf();
            lemma_trace_step(self.lexer.text(), self.origin@, self.index@);
        }
        let ghost next = next_idx(self.tokens(), self.index@);
        self.current_token = self.lexer.next_token();
        self.index = Ghost(next);
    }

    /// An error at the current token.
    fn error(&self, msg: &str) -> (e: ParseError)
        requires
            self.wf(),
        ensures
            e@ == err_at(self.tokens(), self.position(), msg@),
    {
        proof {
            self.lemma_wf();
        }
        ParseError { message: msg.to_owned(), line: self.current_token.line, col: self.current_token.col }
    }

    fn at_eof(&self) -> (b: bool)
        requires
            self.wf(),
        ensures
            b == (tok(self.tokens(), self.position()) is Eof),
    {
        proof {
            self.lemma_wf();
        }
        matches!(self.current_token.token, Token::Eof)
    }

    /// A braced attribute expression; the `{` has been read.
    fn parse_braced_expression(&mut self) -> (e: String)
        requires
            old(self).wf(),
        ensures
            final(self).wf(),
            final(self).tokens() == old(self).tokens(),
            (e@, final(self).position()) == expr_text(
                old(self).tokens(),
                old(self).position(),
                1,
                Seq::empty(),
            ),
    {
        let ghost toks = self.tokens();
        let ghost p0 = self.position();
        proof {
            self.lemma_wf();
        }
        let mut expr_str = String::new();
        let mut depth: usize = 1;
        while depth > 0 && !self.at_eof()
            invariant
                self.wf(),
                self.tokens() == toks,
                toks == old(self).tokens(),
                p0 == old(self).position(),
                0 <= p0 <= self.position(),
                depth <= self.position() - p0 + 1,
                toks.len() <= usize::MAX,
                expr_text(toks, p0, 1, Seq::empty()) == expr_text(
                    toks,
                    self.position(),
                    depth as int,
                    expr_str@,
                ),
            decreases toks.len() - self.position(), depth,
        {
            proof {
                self.lemma_wf();
            }
            if matches!(self.current_token.token, Token::OpenBrace) {
                depth = depth + 1;
            }
            if matches!(self.current_token.token, Token::CloseBrace) {
                depth = depth - 1;
            }
            if depth > 0 {
                let piece = token_to_str(&self.current_token.token);
                push_str(&mut expr_str, piece.as_str());
                self.advance();
            }
        }
        expr_str
    }

    /// The attributes of a tag, up to `>`, `/` or the end.
    fn parse_attributes(&mut self) -> (r: Result<Vec<(String, AttributeValue)>, ParseError>)
        requires
            old(self).wf(),
        ensures
            final(self).wf(),
            final(self).tokens() == old(self).tokens(),
            match (r, attr_list(old(self).tokens(), old(self).position(), Seq::empty())) {
                (Ok(v), Ok((a, j))) => attrs_view(v@) == a && final(self).position() == j,
                (Err(e), Err(ev)) => e@ == ev,
                _ => false,
            },
    {
        let ghost toks = self.tokens();
        let ghost p0 = self.position();
        let mut attributes: Vec<(String, AttributeValue)> = Vec::new();
        proof {
            lemma_empty_views();
        }
        while !(matches!(self.current_token.token, Token::AngleClose) || matches!(
            self.current_token.token,
            Token::Slash,
        ) || matches!(self.current_token.token, Token::Eof))
            invariant
                self.wf(),
                self.tokens() == toks,
                toks == old(self).tokens(),
                p0 == old(self).position(),
                attr_list(toks, p0, Seq::empty()) == attr_list(
                    toks,
                    self.position(),
                    attrs_view(attributes@),
                ),
            decreases toks.len() - self.position(),
        {
            proof {
                self.lemma_wf();
            }
            let ghost j = self.position();
            let attr_name = match &self.current_token.token {
                Token::Identifier(name) => name.clone(),
                _ => {
                    return Err(self.error("Expected attribute name"));
                },
            };
            self.advance();
            proof {
                self.lemma_wf();
            }
            if matches!(self.current_token.token, Token::Assign) {
                self.advance();
                proof {
                    self.lemma_wf();
                }
                let ghost j2 = self.position();
                let string_value = match &self.current_token.token {
                    Token::StringLiteral(v) => Some(v.clone()),
                    _ => None,
                };
                match string_value {
                    Some(v) => {
                        let ghost before = attributes@;
                        attributes.push((attr_name, AttributeValue::String(v)));
                        proof {
                            lemma_push_attrs(before, attributes@.last());
                            assert(attributes@ == before.push(attributes@.last()));
                        }
                        self.advance();
                    },
                    None => {
                        if matches!(self.current_token.token, Token::OpenBrace) {
                            self.advance();
                            proof {
                                lemma_expr_text_range(toks, self.position(), 1, Seq::empty());
                            }
                            let e = self.parse_braced_expression();
                            let ghost before = attributes@;
                            attributes.push((attr_name, AttributeValue::Expression(e)));
                            proof {
                                lemma_push_attrs(before, attributes@.last());
                                assert(attributes@ == before.push(attributes@.last()));
                            }
                            self.advance();
                        } else {
                            return Err(
                                self.error("Expected string literal or expression after '='"),
                            );
                        }
                    },
                }
            }
        }
        proof {
            self.lemma_wf();
        }
        Ok(attributes)
    }

    /// The children of a tag, up to `</` or the end.
    fn parse_children(&mut self) -> (r: Result<Vec<UiNode>, ParseError>)
        requires
            old(self).wf(),
        ensures
            final(self).wf(),
            final(self).tokens() == old(self).tokens(),
            match (r, child_list(old(self).tokens(), old(self).position(), Seq::empty())) {
                (Ok(v), Ok((c, j))) => nodes_view(v@) == c && final(self).position() == j,
                (Err(e), Err(ev)) => e@ == ev,
                _ => false,
            },
        decreases old(self).tokens().len() - old(self).position(), 1int,
    {
        let ghost toks = self.tokens();
        let ghost p0 = self.position();
        let mut children: Vec<UiNode> = Vec::new();
        proof {
            lemma_empty_views();
            self.lemma_wf();
        }
        loop
            invariant
                self.wf(),
                self.tokens() == toks,
                toks == old(self).tokens(),
                p0 == old(self).position(),
                p0 <= self.position(),
                0 <= p0,
                child_list(toks, p0, Seq::empty()) == child_list(
                    toks,
                    self.position(),
                    nodes_view(children@),
                ),
            decreases toks.len() - self.position(),
        {
            proof {
                self.lemma_wf();
            }
            if self.at_eof() {
                return Ok(children);
            } else if matches!(self.current_token.token, Token::AngleOpen) {
                let ahead = self.lexer.peek_token();
                proof {
                    lemma_trace_step(self.lexer.text(), self.origin@, self.index@);
                    lemma_tokens_from(self.lexer.text(), self.origin@);
                    let n = next_idx(toks, self.position());
                    assert(toks[n] == trace(self.lexer.text(), self.origin@)[n].0);
                    if n + 1 >= toks.len() {
                        assert(toks[n] == toks.last());
                    }
                    assert(tok(toks, n) == ahead@.token);
                }
                if matches!(ahead.token, Token::Slash) {
                    return Ok(children);
                }
                let ghost j = self.position();
                proof {
                    lemma_ui_node_range(toks, j);
                }
                let node = self.parse_ui_node()?;
                let ghost before = children@;
                children.push(node);
                proof {
                    lemma_push_nodes(before, node);
                }
            } else if matches!(self.current_token.token, Token::OpenBrace) {
                self.advance();
                proof {
                    self.lemma_wf();
                }
                let expr = match &self.current_token.token {
                    Token::Identifier(e) => Some(e.clone()),
                    _ => None,
                };
                match expr {
                    Some(e) => {
                        let ghost before = children@;
                        children.push(UiNode::Expression(e));
                        proof {
                            lemma_push_nodes(before, children@.last());
                            assert(children@ == before.push(children@.last()));
                        }
                    },
                    None => {},
                }
                self.advance();
                self.advance();
            } else {
                self.advance();
            }
        }
    }

    /// A UI node; the current token is its `<`.
    fn parse_ui_node(&mut self) -> (r: Result<UiNode, ParseError>)
        requires
            old(self).wf(),
        ensures
            final(self).wf(),
            final(self).tokens() == old(self).tokens(),
            match (r, crate::grammar::ui_node(old(self).tokens(), old(self).position())) {
                (Ok(n), Ok((nv, j))) => n@ == nv && final(self).position() == j,
                (Err(e), Err(ev)) => e@ == ev,
                _ => false,
            },
        decreases old(self).tokens().len() - old(self).position(), 0int,
    {
        let ghost toks = self.tokens();
        let ghost i = self.position();
        proof {
            self.lemma_wf();
        }
        self.advance();
        proof {
            self.lemma_wf();
        }
        let tag_name = match &self.current_token.token {
            Token::Identifier(name) => name.clone(),
            _ => {
                return Err(self.error("Expected Tag Name after '<'"));
            },
        };
        self.advance();
        let ghost i2 = self.position();
        proof {
            lemma_attr_list_range(toks, i2, Seq::empty());
        }
        let attributes = self.parse_attributes()?;
        proof {
            self.lemma_wf();
        }
        if matches!(self.current_token.token, Token::Slash) {
            self.advance();
            self.advance();
            let node = UiNode::Element { tag: tag_name, attributes, children: Vec::new() };
            proof {
                lemma_children_view(&node);
                lemma_empty_views();
            }
            return Ok(node);
        }
        self.advance();
        proof {
            lemma_child_list_range(toks, self.position(), Seq::empty());
        }
        let children = self.parse_children()?;
        let ghost i5 = self.position();
        self.advance();
        self.advance();
        proof {
            self.lemma_wf();
        }
        let closing = match &self.current_token.token {
            Token::Identifier(closing_tag) => closing_tag.clone(),
            _ => {
                return Err(self.error("Expected closing tag name"));
            },
        };
        if !(closing == tag_name) {
            let mut msg = String::new();
            push_str(&mut msg, "Mismatched closing tag. Expected </");
            push_str(&mut msg, tag_name.as_str());
            push_str(&mut msg, ">, found </");
            push_str(&mut msg, closing.as_str());
            push_str(&mut msg, ">");
            let e = self.error(msg.as_str());
            proof {
                assert(msg@ =~= mismatch_message(tag_name@, closing@));
            }
            return Err(e);
        }
        self.advance();
        self.advance();
        let node = finish_ui_node(tag_name, attributes, children);
        Ok(node)
    }

    /// `let [state, setter] = useState(value);`; the current token is `let`.
    fn parse_state_declaration(&mut self) -> (st: Statement)
        requires
            old(self).wf(),
        ensures
            final(self).wf(),
            final(self).tokens() == old(self).tokens(),
            (st@, final(self).position()) == state_declaration(
                old(self).tokens(),
                old(self).position(),
            ),
    {
        let ghost toks = self.tokens();
        let ghost j = self.position();
        self.advance();
        self.advance();
        proof {
            self.lemma_wf();
        }
        let state_name = self.ident_or_empty();
        self.advance();
        self.advance();
        proof {
            self.lemma_wf();
        }
        let setter_name = self.ident_or_empty();
        let ghost j2 = self.position();
        let mut k: usize = 0;
        while k < 5
            invariant
                self.wf(),
                self.tokens() == toks,
                k <= 5,
                advance_by(toks, j2, 5) == advance_by(toks, self.position(), (5 - k) as nat),
            decreases 5 - k,
        {
            self.advance();
            k = k + 1;
        }
        proof {
            self.lemma_wf();
        }
        let ghost j3 = self.position();
        proof {
            lemma_advance_by_range(toks, j2, 5);
            lemma_arg_text_range(toks, j3, 0, Seq::empty());
        }
        let mut initial_value = String::new();
        let mut depth: usize = 0;
        while !(self.at_eof() || matches!(self.current_token.token, Token::Semicolon) || (matches!(
            self.current_token.token,
            Token::CloseParen,
        ) && depth == 0))
            invariant
                self.wf(),
                self.tokens() == toks,
                toks == old(self).tokens(),
                0 <= j3 <= self.position(),
                depth <= self.position() - j3,
                toks.len() <= usize::MAX,
                arg_text(toks, j3, 0, Seq::empty()) == arg_text(
                    toks,
                    self.position(),
                    depth as int,
                    initial_value@,
                ),
            decreases toks.len() - self.position(),
        {
            proof {
                self.lemma_wf();
            }
            if matches!(self.current_token.token, Token::OpenParen) {
                depth = depth + 1;
            } else if matches!(self.current_token.token, Token::CloseParen) {
                depth = depth - 1;
            }
            let piece = token_to_str(&self.current_token.token);
            push_str(&mut initial_value, piece.as_str());
            self.advance();
        }
        let ghost j4 = self.position();
        proof {
            self.lemma_wf();
            lemma_skip_to_semicolon_range(toks, j4);
        }
        while !(matches!(self.current_token.token, Token::Semicolon) || matches!(
            self.current_token.token,
            Token::Eof,
        ))
            invariant
                self.wf(),
                self.tokens() == toks,
                skip_to_semicolon(toks, j4) == skip_to_semicolon(
                    toks,
                    self.position(),
                ),
            decreases toks.len() - self.position(),
        {
            proof {
                self.lemma_wf();
            }
            self.advance();
        }
        proof {
            self.lemma_wf();
        }
        self.advance();
        Statement::StateDeclaration { state_name, setter_name, initial_value }
    }

    /// The name the current token holds if it is an identifier, empty otherwise.
    fn ident_or_empty(&self) -> (s: String)
        requires
            self.wf(),
        ensures
            s@ == crate::grammar::ident_or_empty(tok(self.tokens(), self.position())),
    {
        proof {
            self.lemma_wf();
        }
        match &self.current_token.token {
            Token::Identifier(id) => id.clone(),
            _ => String::new(),
        }
    }

    /// A component body up to `}` or the end.
    fn parse_body(&mut self) -> (r: Result<(Vec<Statement>, UiNode), ParseError>)
        requires
            old(self).wf(),
        ensures
            final(self).wf(),
            final(self).tokens() == old(self).tokens(),
            match (
                r,
                body_items(
                    old(self).tokens(),
                    old(self).position(),
                    Seq::empty(),
                    default_return_tree(),
                ),
            ) {
                (Ok((b, t)), Ok((bv, tv, j))) => statements_view(b@) == bv && t@ == tv
                    && final(self).position() == j,
                (Err(e), Err(ev)) => e@ == ev,
                _ => false,
            },
    {
        let ghost toks = self.tokens();
        let ghost p0 = self.position();
        let mut body: Vec<Statement> = Vec::new();
        let mut return_tree = UiNode::Element {
            tag: "Error".to_owned(),
            attributes: Vec::new(),
            children: Vec::new(),
        };
        proof {
            lemma_empty_views();
            lemma_children_view(&return_tree);
        }
        while !(matches!(self.current_token.token, Token::CloseBrace) || matches!(
            self.current_token.token,
            Token::Eof,
        ))
            invariant
                self.wf(),
                self.tokens() == toks,
                toks == old(self).tokens(),
                p0 == old(self).position(),
                body_items(toks, p0, Seq::empty(), default_return_tree()) == body_items(
                    toks,
                    self.position(),
                    statements_view(body@),
                    return_tree@,
                ),
            decreases toks.len() - self.position(),
        {
            proof {
                self.lemma_wf();
            }
            if matches!(self.current_token.token, Token::Let) {
                proof {
                    lemma_state_declaration_range(toks, self.position());
                }
                let st = self.parse_state_declaration();
                let ghost before = body@;
                body.push(st);
                proof {
                    lemma_push_statements(before, st);
                }
            } else if matches!(self.current_token.token, Token::Return) {
                self.advance();
                proof {
                    lemma_ui_node_range(toks, self.position());
                }
                return_tree = self.parse_ui_node()?;
                proof {
                    self.lemma_wf();
                }
                if matches!(self.current_token.token, Token::Semicolon) {
                    self.advance();
                }
            } else {
                self.advance();
            }
        }
        proof {
            self.lemma_wf();
        }
        Ok((body, return_tree))
    }

    /// `import { items } from "module";`; the current token is `import`.
    fn parse_import(&mut self) -> (r: Result<ImportNode, ParseError>)
        requires
            old(self).wf(),
        ensures
            final(self).wf(),
            final(self).tokens() == old(self).tokens(),
            match (r, import_decl(old(self).tokens(), old(self).position())) {
                (Ok(imp), Some((iv, j))) => imp@ == iv && final(self).position() == j,
                (Err(e), None) => e@ == err_at(
                    old(self).tokens(),
                    old(self).tokens().len() - 1,
                    unterminated_import_message(),
                ),
                _ => false,
            },
    {
        let ghost toks = self.tokens();
        self.advance();
        self.advance();
        let ghost j1 = self.position();
        let mut items: Vec<String> = Vec::new();
        proof {
            lemma_empty_views();
        }
        while !matches!(self.current_token.token, Token::CloseBrace)
            invariant
                self.wf(),
                self.tokens() == toks,
                toks == old(self).tokens(),
                j1 == next_idx(toks, next_idx(toks, old(self).position())),
                import_items(toks, j1, Seq::empty()) == import_items(
                    toks,
                    self.position(),
                    strings_view(items@),
                ),
            decreases toks.len() - self.position(),
        {
            proof {
                self.lemma_wf();
            }
            if self.at_eof() {
                let e = self.error("Unterminated import list: expected '}'");
                return Err(e);
            }
            match &self.current_token.token {
                Token::Identifier(item) => {
                    let ghost before = items@;
                    items.push(item.clone());
                    proof {
                        lemma_push_strings(before, items@.last());
                        assert(items@ == before.push(items@.last()));
                    }
                },
                _ => {},
            }
            self.advance();
        }
        proof {
            self.lemma_wf();
        }
        self.advance();
        self.advance();
        proof {
            self.lemma_wf();
        }
        let module = match &self.current_token.token {
            Token::StringLiteral(mod_name) => mod_name.clone(),
            _ => String::new(),
        };
        self.advance();
        self.advance();
        Ok(ImportNode { items, module })
    }

    /// `component Name(...) { body }`; the current token is `component`.
    /// `None` when no name follows (only `component` is then read).
    fn parse_component(&mut self) -> (r: Result<Option<ComponentNode>, ParseError>)
        requires
            old(self).wf(),
        ensures
            final(self).wf(),
            final(self).tokens() == old(self).tokens(),
            match (r, component_decl(old(self).tokens(), old(self).position())) {
                (Ok(Some(c)), Ok(Some((cv, j)))) => c@ == cv && final(self).position() == j,
                (Ok(None), Ok(None)) => final(self).position() == next_idx(
                    old(self).tokens(),
                    old(self).position(),
                ),
                (Err(e), Err(ev)) => e@ == ev,
                _ => false,
            },
    {
        let ghost toks = self.tokens();
        self.advance();
        proof {
            self.lemma_wf();
        }
        let name = match &self.current_token.token {
            Token::Identifier(comp_name) => comp_name.clone(),
            _ => {
                return Ok(None);
            },
        };
        self.advance();
        let ghost j2 = self.position();
        while !(matches!(self.current_token.token, Token::OpenBrace) || self.at_eof())
            invariant
                self.wf(),
                self.tokens() == toks,
                toks == old(self).tokens(),
                skip_to_open_brace(toks, j2) == skip_to_open_brace(toks, self.position()),
            decreases toks.len() - self.position(),
        {
            proof {
                self.lemma_wf();
            }
            self.advance();
        }
        proof {
            self.lemma_wf();
        }
        self.advance();
        let (body, return_tree) = self.parse_body()?;
        let comp = ComponentNode { name, props: Vec::new(), body, return_tree };
        proof {
            assert(comp@.props =~= Seq::empty());
        }
        Ok(Some(comp))
    }

    /// The whole program, from the current token to the end.
    ///
    /// The parser follows `program_items` exactly. Where an import list meets
    /// the end of the input before its `}`, the result is the error
    /// `unterminated_import_message()` at the final `Eof` token.
    pub fn parse_program(&mut self) -> (r: Result<AstNode, ParseError>)
        requires
            old(self).wf(),
        ensures
            final(self).wf(),
            final(self).tokens() == old(self).tokens(),
            match (r, parse_from(old(self).tokens(), old(self).position())) {
                (Ok(ast), Ok(pv)) => ast@ == pv,
                (Err(e), Err(ev)) => e@ == ev,
                _ => false,
            },
            r is Ok ==> final(self).position() == final(self).tokens().len() - 1,
    {
        let ghost toks = self.tokens();
        let ghost p0 = self.position();
        let mut components: Vec<ComponentNode> = Vec::new();
        let mut imports: Vec<ImportNode> = Vec::new();
        proof {
            lemma_empty_views();
        }
        while !self.at_eof()
            invariant
                self.wf(),
                self.tokens() == toks,
                toks == old(self).tokens(),
                p0 == old(self).position(),
                parse_from(toks, p0) == program_items(
                    toks,
                    self.position(),
                    imports_view(imports@),
                    components_view(components@),
                ),
            decreases toks.len() - self.position(),
        {
            proof {
                self.lemma_wf();
            }
            let ghost j = self.position();
            if matches!(self.current_token.token, Token::Import) {
                proof {
                    lemma_import_decl_range(toks, j);
                }
                let imp = self.parse_import()?;
                let ghost before = imports@;
                imports.push(imp);
                proof {
                    lemma_push_imports(before, imp);
                }
            } else if matches!(self.current_token.token, Token::Component) {
                proof {
                    lemma_component_decl_range(toks, j);
                }
                match self.parse_component()? {
                    Some(comp) => {
                        let ghost before = components@;
                        components.push(comp);
                        proof {
                            lemma_push_components(before, comp);
                        }
                    },
                    None => {},
                }
            } else {
                self.advance();
            }
        }
        proof {
            self.lemma_wf();
        }
        Ok(AstNode::Program { imports, components })
    }
}

/// What a source text parses to: the program its token stream gives from the
/// first token, or the syntax error.
pub open spec fn parse_text(source: Seq<char>) -> Result<crate::ast::ProgramView, ParseErrorView> {
    parse_from(tokens_from(source, start_state()), 0)
}

/// Lexes and parses a whole source text.
pub fn parse_source(source: &str) -> (r: Result<AstNode, ParseError>)
    requires
        source@.len() < usize::MAX,
    ensures
        match (r, parse_text(source@)) {
            (Ok(ast), Ok(pv)) => ast@ == pv,
            (Err(e), Err(ev)) => e@ == ev,
            _ => false,
        },
{
    let lexer = Lexer::new(source);
    let mut parser = Parser::new(lexer);
    parser.parse_program()
}

/// The text of a token as it is written.
fn token_to_str(token: &Token) -> (s: String)
    ensures
        s@ == token_text(token@),
{
    match token {
        Token::Import => "import".to_owned(),
        Token::From => "from".to_owned(),
        Token::Component => "component".to_owned(),
        Token::Return => "return".to_owned(),
        Token::Let => "let".to_owned(),
        Token::Identifier(id) => id.clone(),
        Token::StringLiteral(s) => quote(s),
        Token::NumberLiteral(c) => char_string(*c),
        Token::OpenParen => "(".to_owned(),
        Token::CloseParen => ")".to_owned(),
        Token::OpenBrace => "{".to_owned(),
        Token::CloseBrace => "}".to_owned(),
        Token::OpenBracket => "[".to_owned(),
        Token::CloseBracket => "]".to_owned(),
        Token::AngleOpen => "<".to_owned(),
        Token::AngleClose => ">".to_owned(),
        Token::Slash => "/".to_owned(),
        Token::Assign => "=".to_owned(),
        Token::Arrow => " => ".to_owned(),
        Token::Comma => ", ".to_owned(),
        Token::Semicolon => ";".to_owned(),
        Token::Eof => String::new(),
        Token::Illegal(c) => char_string(*c),
    }
}

/// The one-character string `c`.
fn char_string(c: char) -> (s: String)
    ensures
        s@ == seq![c],
{
    let mut s = String::new();
    push_char(&mut s, c);
    assert(s@ =~= seq![c]);
    s
}

/// The expression inside a string written `{expr}`, if it is so written.
fn unbrace_string(s: &String) -> (r: Option<String>)
    ensures
        match r {
            Some(e) => unbrace(s@) == Some(e@),
            None => unbrace(s@) is None,
        },
{
    let v = chars_of(s.as_str());
    if v.len() >= 2 && v[0] == '{' && v[v.len() - 1] == '}' {
        let mut e = String::new();
        push_range(&mut e, &v, 1, v.len() - 1);
        Some(e)
    } else {
        None
    }
}

/// `s` between double quotes.
fn quote(s: &String) -> (r: String)
    ensures
        r@ == crate::text::quoted(s@),
{
    let mut r = String::new();
    push_str(&mut r, "\"");
    push_str(&mut r, s.as_str());
    push_str(&mut r, "\"");
    r
}

/// The index of the last attribute named `key`.
fn find_attribute(attrs: &Vec<(String, AttributeValue)>, key: &str) -> (r: Option<usize>)
    ensures
        match r {
            Some(k) => k < attrs.len() && lookup_attr(attrs_view(attrs@), key@) == Some(
                attrs@[k as int].1@,
            ),
            None => lookup_attr(attrs_view(attrs@), key@) is None,
        },
{
    let ghost view = attrs_view(attrs@);
    let mut found: Option<usize> = None;
    let mut i: usize = 0;
    while i < attrs.len()
        invariant
            i <= attrs.len(),
            view == attrs_view(attrs@),
            match found {
                Some(k) => k < i && lookup_attr(view.take(i as int), key@) == Some(
                    attrs@[k as int].1@,
                ),
                None => lookup_attr(view.take(i as int), key@) is None,
            },
        decreases attrs.len() - i,
    {
        assert(view.take(i + 1).drop_last() =~= view.take(i as int));
        if string_is(&attrs[i].0, key) {
            found = Some(i);
        }
        i = i + 1;
    }
    assert(view.take(attrs.len() as int) =~= view);
    found
}

/// The text of an attribute value, with no quotes added.
fn attribute_text(a: &AttributeValue) -> (s: String)
    ensures
        s@ == crate::grammar::attr_text(a@),
{
    match a {
        AttributeValue::String(s) => match unbrace_string(s) {
            Some(e) => e,
            None => s.clone(),
        },
        AttributeValue::Expression(e) => e.clone(),
    }
}

/// The node a parsed tag stands for: `<If>` and `<For>` become control flow.
fn finish_ui_node(tag: String, attributes: Vec<(String, AttributeValue)>, children: Vec<UiNode>) -> (n: UiNode)
    ensures
        n@ == finish_node(tag@, attrs_view(attributes@), nodes_view(children@)),
{
    if string_is(&tag, "If") {
        let condition = match find_attribute(&attributes, "condition") {
            Some(k) => match &attributes[k].1 {
                AttributeValue::Expression(e) => e.clone(),
                AttributeValue::String(s) => match unbrace_string(s) {
                    Some(e) => e,
                    None => quote(s),
                },
            },
            None => "false".to_owned(),
        };
        let n = UiNode::If { condition, children };
        proof {
            lemma_children_view(&n);
        }
        n
    } else if string_is(&tag, "For") {
        let item_name = match find_attribute(&attributes, "as") {
            Some(k) => attribute_text(&attributes[k].1),
            None => "item".to_owned(),
        };
        let collection = match find_attribute(&attributes, "each") {
            Some(k) => attribute_text(&attributes[k].1),
            None => "[]".to_owned(),
        };
        let n = UiNode::For { item_name, collection, children };
        proof {
            lemma_children_view(&n);
        }
        n
    } else {
        let n = UiNode::Element { tag, attributes, children };
        proof {
            lemma_children_view(&n);
        }
        n
    }
}

} // verus!
