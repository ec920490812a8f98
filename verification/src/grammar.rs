//! What the parser computes, as functions of the token stream.
//!
//! The parser reads a stream of tokens that ends with its only `Eof`; it
//! stands at an index into that stream, and advancing past the last token
//! stays on it. Each function below takes the stream and an index and gives
//! the parsed value with the index reached, or the error.
use vstd::prelude::*;
use crate::ast::{AttrView, ComponentView, ImportView, ProgramView, StatementView, UiView};
use crate::lexer::{SpanView, TokenView};
use crate::text::quoted;

verus! {

/// Model of `ParseError`.
pub struct ParseErrorView {
    pub message: Seq<char>,
    pub line: int,
    pub col: int,
}

/// The token at index `j`; `Eof` from the last index on.
pub open spec fn tok(toks: Seq<SpanView>, j: int) -> TokenView {
    if 0 <= j && j + 1 < toks.len() {
        toks[j].token
    } else {
        TokenView::Eof
    }
}

/// The index after `j`; the last index stays.
pub open spec fn next_idx(toks: Seq<SpanView>, j: int) -> int {
    if j + 1 < toks.len() {
        j + 1
    } else {
        j
    }
}

/// An error with message `msg` at the position of the token at index `j`.
pub open spec fn err_at(toks: Seq<SpanView>, j: int, msg: Seq<char>) -> ParseErrorView {
    let k = if 0 <= j < toks.len() { j } else { toks.len() - 1 };
    ParseErrorView { message: msg, line: toks[k].line, col: toks[k].col }
}

/// The text of a token as it is written (a string with its quotes), with a
/// space on each side of `=>` and after `,`.
pub open spec fn token_text(t: TokenView) -> Seq<char> {
    match t {
        TokenView::Import => "import"@,
        TokenView::From => "from"@,
        TokenView::Component => "component"@,
        TokenView::Return => "return"@,
        TokenView::Let => "let"@,
        TokenView::Identifier(id) => id,
        TokenView::StringLiteral(s) => quoted(s),
        TokenView::NumberLiteral(c) => seq![c],
        TokenView::OpenParen => "("@,
        TokenView::CloseParen => ")"@,
        TokenView::OpenBrace => "{"@,
        TokenView::CloseBrace => "}"@,
        TokenView::OpenBracket => "["@,
        TokenView::CloseBracket => "]"@,
        TokenView::AngleOpen => "<"@,
        TokenView::AngleClose => ">"@,
        TokenView::Slash => "/"@,
        TokenView::Assign => "="@,
        TokenView::Arrow => " => "@,
        TokenView::Comma => ", "@,
        TokenView::Semicolon => ";"@,
        TokenView::Eof => Seq::empty(),
        TokenView::Illegal(c) => seq![c],
    }
}

/// A braced attribute expression, read from `j` at brace depth `depth`: the
/// text of its tokens up to the matching `}` (or `Eof`), and the index of
/// that token.
pub open spec fn expr_text(toks: Seq<SpanView>, j: int, depth: int, acc: Seq<char>) -> (Seq<char>, int)
    decreases toks.len() - j,
{
    if depth > 0 && !(tok(toks, j) is Eof) {
        let d1 = if tok(toks, j) is OpenBrace { depth + 1 } else { depth };
        let d2 = if tok(toks, j) is CloseBrace { d1 - 1 } else { d1 };
        if d2 > 0 {
            expr_text(toks, next_idx(toks, j), d2, acc + token_text(tok(toks, j)))
        } else {
            (acc, j)
        }
    } else {
        (acc, j)
    }
}

/// The attributes of a tag, read from `j` up to `>`, `/` or `Eof`. A name not
/// followed by `=` is dropped.
pub open spec fn attr_list(toks: Seq<SpanView>, j: int, acc: Seq<(Seq<char>, AttrView)>) -> Result<
    (Seq<(Seq<char>, AttrView)>, int),
    ParseErrorView,
>
    decreases toks.len() - j,
{
    let t = tok(toks, j);
    if t is AngleClose || t is Slash || t is Eof {
        Ok((acc, j))
    } else {
        match t {
            TokenView::Identifier(name) => {
                let j1 = next_idx(toks, j);
                if tok(toks, j1) is Assign {
                    let j2 = next_idx(toks, j1);
                    match tok(toks, j2) {
                        TokenView::StringLiteral(v) => attr_list(
                            toks,
                            next_idx(toks, j2),
                            acc.push((name, AttrView::Str(v))),
                        ),
                        TokenView::OpenBrace => {
                            let (e, j3) = expr_text(toks, next_idx(toks, j2), 1, Seq::empty());
                            proof {
                                lemma_expr_text_range(toks, next_idx(toks, j2), 1, Seq::empty());
                            }
                            attr_list(toks, next_idx(toks, j3), acc.push((name, AttrView::Expr(e))))
                        },
                        _ => Err(
                            err_at(toks, j2, "Expected string literal or expression after '='"@),
                        ),
                    }
                } else {
                    attr_list(toks, j1, acc)
                }
            },
            _ => Err(err_at(toks, j, "Expected attribute name"@)),
        }
    }
}

/// The value of the last attribute named `key`.
pub open spec fn lookup_attr(attrs: Seq<(Seq<char>, AttrView)>, key: Seq<char>) -> Option<AttrView>
    decreases attrs.len(),
{
    if attrs.len() == 0 {
        None
    } else if attrs.last().0 == key {
        Some(attrs.last().1)
    } else {
        lookup_attr(attrs.drop_last(), key)
    }
}

/// The expression inside a string written `{expr}`, if it is so written.
pub open spec fn unbrace(s: Seq<char>) -> Option<Seq<char>> {
    if s.len() >= 2 && s[0] == '{' && s.last() == '}' {
        Some(s.subrange(1, s.len() - 1))
    } else {
        None
    }
}

/// The condition of an `<If>`: its last `condition` attribute, an expression
/// as written, a string `"{expr}"` as the expression inside the braces, any
/// other string in double quotes; `false` without one.
pub open spec fn if_condition(attrs: Seq<(Seq<char>, AttrView)>) -> Seq<char> {
    match lookup_attr(attrs, "condition"@) {
        Some(AttrView::Expr(e)) => e,
        Some(AttrView::Str(s)) => match unbrace(s) {
            Some(e) => e,
            None => quoted(s),
        },
        None => "false"@,
    }
}

/// The text of an attribute value, with no quotes added; a string written
/// `"{expr}"` gives the expression inside the braces.
pub open spec fn attr_text(a: AttrView) -> Seq<char> {
    match a {
        AttrView::Str(s) => match unbrace(s) {
            Some(e) => e,
            None => s,
        },
        AttrView::Expr(e) => e,
    }
}

/// The loop variable of a `<For>`: its last `as` attribute, `item` without one.
pub open spec fn for_item(attrs: Seq<(Seq<char>, AttrView)>) -> Seq<char> {
    match lookup_attr(attrs, "as"@) {
        Some(a) => attr_text(a),
        None => "item"@,
    }
}

/// The collection of a `<For>`: its last `each` attribute, `[]` without one.
pub open spec fn for_collection(attrs: Seq<(Seq<char>, AttrView)>) -> Seq<char> {
    match lookup_attr(attrs, "each"@) {
        Some(a) => attr_text(a),
        None => "[]"@,
    }
}

/// The node that a parsed tag stands for: `<If>` and `<For>` become control
/// flow, any other tag an element.
pub open spec fn finish_node(
    tag: Seq<char>,
    attrs: Seq<(Seq<char>, AttrView)>,
    children: Seq<UiView>,
) -> UiView {
    if tag == "If"@ {
        UiView::If { condition: if_condition(attrs), children }
    } else if tag == "For"@ {
        UiView::For { item_name: for_item(attrs), collection: for_collection(attrs), children }
    } else {
        UiView::Element { tag, attributes: attrs, children }
    }
}

/// The message for a closing tag that does not match its opening tag.
pub open spec fn mismatch_message(tag: Seq<char>, found: Seq<char>) -> Seq<char> {
    "Mismatched closing tag. Expected </"@ + tag + ">, found </"@ + found + ">"@
}

/// A UI node whose `<` is at index `i` (the token at `i` is skipped, whatever
/// it is), and the index after it.
pub open spec fn ui_node(toks: Seq<SpanView>, i: int) -> Result<(UiView, int), ParseErrorView>
    decreases toks.len() - i, 0int,
{
    let i1 = next_idx(toks, i);
    match tok(toks, i1) {
        TokenView::Identifier(name) => {
            let i2 = next_idx(toks, i1);
            match attr_list(toks, i2, Seq::empty()) {
                Err(e) => Err(e),
                Ok((attrs, i3)) => {
                    if tok(toks, i3) is Slash {
                        Ok(
                            (
                                UiView::Element { tag: name, attributes: attrs, children: Seq::empty() },
                                next_idx(toks, next_idx(toks, i3)),
                            ),
                        )
                    } else {
                        let i4 = next_idx(toks, i3);
                        proof {
                            lemma_attr_list_range(toks, i2, Seq::empty());
                        }
                        match child_list(toks, i4, Seq::empty()) {
                            Err(e) => Err(e),
                            Ok((children, i5)) => close_tag(toks, name, attrs, children, i5),
                        }
                    }
                },
            }
        },
        _ => Err(err_at(toks, i1, "Expected Tag Name after '<'"@)),
    }
}

/// The children of a tag, read from `j` up to `</` or `Eof`: nested tags,
/// `{name}` expressions, and any other token skipped.
pub open spec fn child_list(toks: Seq<SpanView>, j: int, acc: Seq<UiView>) -> Result<
    (Seq<UiView>, int),
    ParseErrorView,
>
    decreases toks.len() - j, 1int,
{
    let t = tok(toks, j);
    if t is Eof {
        Ok((acc, j))
    } else if t is AngleOpen {
        if tok(toks, next_idx(toks, j)) is Slash {
            Ok((acc, j))
        } else {
            match ui_node(toks, j) {
                Err(e) => Err(e),
                Ok((node, j2)) => if j < j2 < toks.len() {
                    child_list(toks, j2, acc.push(node))
                } else {
                    Ok((acc, j))
                },
            }
        }
    } else if t is OpenBrace {
        let j1 = next_idx(toks, j);
        let acc2 = match tok(toks, j1) {
            TokenView::Identifier(e) => acc.push(UiView::Expression(e)),
            _ => acc,
        };
        child_list(toks, next_idx(toks, next_idx(toks, j1)), acc2)
    } else {
        child_list(toks, next_idx(toks, j), acc)
    }
}

/// The closing tag after the children that end at `i5` (`<`, `/`, name, `>`).
pub open spec fn close_tag(
    toks: Seq<SpanView>,
    name: Seq<char>,
    attrs: Seq<(Seq<char>, AttrView)>,
    children: Seq<UiView>,
    i5: int,
) -> Result<(UiView, int), ParseErrorView> {
    let i6 = next_idx(toks, next_idx(toks, i5));
    match tok(toks, i6) {
        TokenView::Identifier(found) => if found != name {
            Err(err_at(toks, i6, mismatch_message(name, found)))
        } else {
            Ok((finish_node(name, attrs, children), next_idx(toks, next_idx(toks, i6))))
        },
        _ => Err(err_at(toks, i6, "Expected closing tag name"@)),
    }
}

/// The names of an import list, read from `j` up to `}`; `None` when `Eof`
/// comes first.
pub open spec fn import_items(toks: Seq<SpanView>, j: int, acc: Seq<Seq<char>>) -> Option<
    (Seq<Seq<char>>, int),
>
    decreases toks.len() - j,
{
    let t = tok(toks, j);
    if t is CloseBrace {
        Some((acc, j))
    } else if t is Eof {
        None
    } else {
        import_items(
            toks,
            next_idx(toks, j),
            match t {
                TokenView::Identifier(x) => acc.push(x),
                _ => acc,
            },
        )
    }
}

/// The index of the first `{` (or `Eof`) at or after `j`.
pub open spec fn skip_to_open_brace(toks: Seq<SpanView>, j: int) -> int
    decreases toks.len() - j,
{
    if tok(toks, j) is OpenBrace || tok(toks, j) is Eof {
        j
    } else {
        skip_to_open_brace(toks, next_idx(toks, j))
    }
}

/// The index of the first `;` (or `Eof`) at or after `j`.
pub open spec fn skip_to_semicolon(toks: Seq<SpanView>, j: int) -> int
    decreases toks.len() - j,
{
    if tok(toks, j) is Semicolon || tok(toks, j) is Eof {
        j
    } else {
        skip_to_semicolon(toks, next_idx(toks, j))
    }
}

/// The index `k` tokens after `j`.
pub open spec fn advance_by(toks: Seq<SpanView>, j: int, k: nat) -> int
    decreases k,
{
    if k == 0 {
        j
    } else {
        advance_by(toks, next_idx(toks, j), (k - 1) as nat)
    }
}

/// The name an identifier token holds, empty for any other token.
pub open spec fn ident_or_empty(t: TokenView) -> Seq<char> {
    match t {
        TokenView::Identifier(x) => x,
        _ => Seq::empty(),
    }
}

/// The argument of a state hook, read from `j` at parenthesis depth `depth`:
/// the text of its tokens up to the `)` that closes the call (or `;` or
/// `Eof`), and the index of that token.
pub open spec fn arg_text(toks: Seq<SpanView>, j: int, depth: int, acc: Seq<char>) -> (Seq<char>, int)
    decreases toks.len() - j,
{
    let t = tok(toks, j);
    if t is Eof || t is Semicolon || (t is CloseParen && depth <= 0) {
        (acc, j)
    } else {
        let d = if t is OpenParen {
            depth + 1
        } else if t is CloseParen {
            depth - 1
        } else {
            depth
        };
        arg_text(toks, next_idx(toks, j), d, acc + token_text(t))
    }
}

/// `let [state, setter] = useState(value);` with `let` at index `j`: the
/// declaration, whose initial value is the text of `value`, and the index
/// after the `;`.
pub open spec fn state_declaration(toks: Seq<SpanView>, j: int) -> (StatementView, int) {
    let j1 = next_idx(toks, next_idx(toks, j));
    let j2 = next_idx(toks, next_idx(toks, j1));
    let j3 = advance_by(toks, j2, 5);
    let (init, j4) = arg_text(toks, j3, 0, Seq::empty());
    let j5 = skip_to_semicolon(toks, j4);
    (
        StatementView::StateDeclaration {
            state_name: ident_or_empty(tok(toks, j1)),
            setter_name: ident_or_empty(tok(toks, j2)),
            initial_value: init,
        },
        next_idx(toks, j5),
    )
}

/// The tree a component returns when its body has no `return`.
pub open spec fn default_return_tree() -> UiView {
    UiView::Element { tag: "Error"@, attributes: Seq::empty(), children: Seq::empty() }
}

/// A component body read from `j` up to `}` or `Eof`: its state declarations
/// and the tree of its last `return`.
pub open spec fn body_items(
    toks: Seq<SpanView>,
    j: int,
    body: Seq<StatementView>,
    ret: UiView,
) -> Result<(Seq<StatementView>, UiView, int), ParseErrorView>
    decreases toks.len() - j,
{
    let t = tok(toks, j);
    if t is CloseBrace || t is Eof {
        Ok((body, ret, j))
    } else if t is Let {
        let (st, j5) = state_declaration(toks, j);
        proof {
            lemma_state_declaration_range(toks, j);
        }
        body_items(toks, j5, body.push(st), ret)
    } else if t is Return {
        match ui_node(toks, next_idx(toks, j)) {
            Err(e) => Err(e),
            Ok((node, j2)) => {
                let j3 = if tok(toks, j2) is Semicolon { next_idx(toks, j2) } else { j2 };
                proof {
                    lemma_ui_node_range(toks, next_idx(toks, j));
                }
                body_items(toks, j3, body, node)
            },
        }
    } else {
        body_items(toks, next_idx(toks, j), body, ret)
    }
}

/// The message when an import list meets the end of the input.
pub open spec fn unterminated_import_message() -> Seq<char> {
    "Unterminated import list: expected '}'"@
}

/// `import { items } from "module";` with `import` at index `j`: the import
/// and the index after it; `None` when the list meets `Eof` before `}`.
pub open spec fn import_decl(toks: Seq<SpanView>, j: int) -> Option<(ImportView, int)> {
    let j1 = next_idx(toks, next_idx(toks, j));
    match import_items(toks, j1, Seq::empty()) {
        None => None,
        Some((items, j2)) => {
            let j3 = next_idx(toks, next_idx(toks, j2));
            let module = match tok(toks, j3) {
                TokenView::StringLiteral(m) => m,
                _ => Seq::empty(),
            };
            Some((ImportView { items, module }, next_idx(toks, next_idx(toks, j3))))
        },
    }
}

/// `component Name(...) { body }` with `component` at index `j`: the component
/// and the index where its body ends; `None` when no name follows.
pub open spec fn component_decl(toks: Seq<SpanView>, j: int) -> Result<
    Option<(ComponentView, int)>,
    ParseErrorView,
> {
    let j1 = next_idx(toks, j);
    match tok(toks, j1) {
        TokenView::Identifier(name) => {
            let j3 = skip_to_open_brace(toks, next_idx(toks, j1));
            match body_items(toks, next_idx(toks, j3), Seq::empty(), default_return_tree()) {
                Err(e) => Err(e),
                Ok((body, ret, j5)) => Ok(
                    Some((ComponentView { name, props: Seq::empty(), body, return_tree: ret }, j5)),
                ),
            }
        },
        _ => Ok(None),
    }
}

/// A program read from `j` to `Eof`: its imports and components, after those
/// already read.
pub open spec fn program_items(
    toks: Seq<SpanView>,
    j: int,
    imports: Seq<ImportView>,
    comps: Seq<ComponentView>,
) -> Result<ProgramView, ParseErrorView>
    decreases toks.len() - j,
{
    let t = tok(toks, j);
    if t is Eof {
        Ok(ProgramView { imports, components: comps })
    } else if t is Import {
        match import_decl(toks, j) {
            None => Err(err_at(toks, toks.len() - 1, unterminated_import_message())),
            Some((imp, j4)) => {
                proof {
                    lemma_import_decl_range(toks, j);
                }
                program_items(toks, j4, imports.push(imp), comps)
            },
        }
    } else if t is Component {
        match component_decl(toks, j) {
            Err(e) => Err(e),
            Ok(None) => program_items(toks, next_idx(toks, j), imports, comps),
            Ok(Some((c, j5))) => {
                proof {
                    lemma_component_decl_range(toks, j);
                }
                program_items(toks, j5, imports, comps.push(c))
            },
        }
    } else {
        program_items(toks, next_idx(toks, j), imports, comps)
    }
}

/// What has been read before position `j` only comes first in the result:
/// the imports and components read from `j` on are the same whatever came
/// before them, so every import keeps exactly the items of its own braces.
pub proof fn law_program_items_accumulate(
    toks: Seq<SpanView>,
    j: int,
    imports: Seq<ImportView>,
    comps: Seq<ComponentView>,
)
    ensures
        program_items(toks, j, imports, comps) == match program_items(
            toks,
            j,
            Seq::empty(),
            Seq::empty(),
        ) {
            Ok(p) => Ok(
                ProgramView { imports: imports + p.imports, components: comps + p.components },
            ),
            Err(e) => Err(e),
        },
    decreases toks.len() - j,
{
    let e0 = Seq::<ImportView>::empty();
    let c0 = Seq::<ComponentView>::empty();
    let t = tok(toks, j);
    if t is Eof {
        assert(imports + e0 =~= imports);
        assert(comps + c0 =~= comps);
    } else if t is Import {
        match import_decl(toks, j) {
            None => {},
            Some((imp, j4)) => {
                lemma_import_decl_range(toks, j);
                law_program_items_accumulate(toks, j4, imports.push(imp), comps);
                law_program_items_accumulate(toks, j4, e0.push(imp), c0);
                match program_items(toks, j4, e0, c0) {
                    Ok(p) => {
                        assert(imports.push(imp) + p.imports =~= imports + (e0.push(imp)
                            + p.imports));
                        assert(comps + p.components =~= comps + (c0 + p.components));
                    },
                    Err(_) => {},
                }
            },
        }
    } else if t is Component {
        match component_decl(toks, j) {
            Err(_) => {},
            Ok(None) => {
                law_program_items_accumulate(toks, next_idx(toks, j), imports, comps);
            },
            Ok(Some((c, j5))) => {
                lemma_component_decl_range(toks, j);
                law_program_items_accumulate(toks, j5, imports, comps.push(c));
                law_program_items_accumulate(toks, j5, e0, c0.push(c));
                match program_items(toks, j5, e0, c0) {
                    Ok(p) => {
                        assert(comps.push(c) + p.components =~= comps + (c0.push(c)
                            + p.components));
                        assert(imports + p.imports =~= imports + (e0 + p.imports));
                    },
                    Err(_) => {},
                }
            },
        }
    } else {
        law_program_items_accumulate(toks, next_idx(toks, j), imports, comps);
    }
}

/// An import list is read the same whatever was read before it: the names
/// already gathered only come first.
pub proof fn law_import_items_accumulate(toks: Seq<SpanView>, j: int, acc: Seq<Seq<char>>)
    ensures
        import_items(toks, j, acc) == match import_items(toks, j, Seq::empty()) {
            Some((items, k)) => Some((acc + items, k)),
            None => None,
        },
    decreases toks.len() - j,
{
    let t = tok(toks, j);
    let e0 = Seq::<Seq<char>>::empty();
    if t is CloseBrace {
        assert(acc + e0 =~= acc);
    } else if t is Eof {
    } else {
        let n = next_idx(toks, j);
        match t {
            TokenView::Identifier(x) => {
                law_import_items_accumulate(toks, n, acc.push(x));
                law_import_items_accumulate(toks, n, e0.push(x));
                match import_items(toks, n, e0) {
                    Some((items, k)) => {
                        assert(acc.push(x) + items =~= acc + (e0.push(x) + items));
                    },
                    None => {},
                }
            },
            _ => {
                law_import_items_accumulate(toks, n, acc);
            },
        }
    }
}

/// The program that a token stream parses to, from index `j`.
pub open spec fn parse_from(toks: Seq<SpanView>, j: int) -> Result<ProgramView, ParseErrorView> {
    program_items(toks, j, Seq::empty(), Seq::empty())
}

// ---------------------------------------------------------------------------
// Every step stays inside the stream and never moves back
// ---------------------------------------------------------------------------

pub proof fn lemma_expr_text_range(toks: Seq<SpanView>, j: int, depth: int, acc: Seq<char>)
    requires
        0 <= j < toks.len(),
    ensures
        j <= expr_text(toks, j, depth, acc).1 < toks.len(),
    decreases toks.len() - j,
{
    if depth > 0 && !(tok(toks, j) is Eof) {
        let d1 = if tok(toks, j) is OpenBrace { depth + 1 } else { depth };
        let d2 = if tok(toks, j) is CloseBrace { d1 - 1 } else { d1 };
        if d2 > 0 {
            lemma_expr_text_range(toks, next_idx(toks, j), d2, acc + token_text(tok(toks, j)));
        }
    }
}

pub proof fn lemma_attr_list_range(toks: Seq<SpanView>, j: int, acc: Seq<(Seq<char>, AttrView)>)
    requires
        0 <= j < toks.len(),
    ensures
        attr_list(toks, j, acc) matches Ok((_, r)) ==> j <= r < toks.len(),
    decreases toks.len() - j,
{
    let t = tok(toks, j);
    if t is AngleClose || t is Slash || t is Eof {
    } else {
        match t {
            TokenView::Identifier(name) => {
                let j1 = next_idx(toks, j);
                if tok(toks, j1) is Assign {
                    let j2 = next_idx(toks, j1);
                    match tok(toks, j2) {
                        TokenView::StringLiteral(v) => {
                            lemma_attr_list_range(
                                toks,
                                next_idx(toks, j2),
                                acc.push((name, AttrView::Str(v))),
                            );
                        },
                        TokenView::OpenBrace => {
                            let (e, j3) = expr_text(toks, next_idx(toks, j2), 1, Seq::empty());
                            lemma_expr_text_range(toks, next_idx(toks, j2), 1, Seq::empty());
                            lemma_attr_list_range(
                                toks,
                                next_idx(toks, j3),
                                acc.push((name, AttrView::Expr(e))),
                            );
                        },
                        _ => {},
                    }
                } else {
                    lemma_attr_list_range(toks, j1, acc);
                }
            },
            _ => {},
        }
    }
}

pub proof fn lemma_ui_node_range(toks: Seq<SpanView>, i: int)
    requires
        0 <= i < toks.len(),
    ensures
        ui_node(toks, i) matches Ok((_, r)) ==> i < r < toks.len(),
    decreases toks.len() - i, 0int,
{
    let i1 = next_idx(toks, i);
    match tok(toks, i1) {
        TokenView::Identifier(name) => {
            let i2 = next_idx(toks, i1);
            lemma_attr_list_range(toks, i2, Seq::empty());
            match attr_list(toks, i2, Seq::empty()) {
                Err(e) => {},
                Ok((attrs, i3)) => {
                    if !(tok(toks, i3) is Slash) {
                        let i4 = next_idx(toks, i3);
                        lemma_child_list_range(toks, i4, Seq::empty());
                    }
                },
            }
        },
        _ => {},
    }
}

pub proof fn lemma_child_list_range(toks: Seq<SpanView>, j: int, acc: Seq<UiView>)
    requires
        0 <= j < toks.len(),
    ensures
        child_list(toks, j, acc) matches Ok((_, r)) ==> j <= r < toks.len(),
    decreases toks.len() - j, 1int,
{
    let t = tok(toks, j);
    if t is Eof {
    } else if t is AngleOpen {
        if !(tok(toks, next_idx(toks, j)) is Slash) {
            lemma_ui_node_range(toks, j);
            match ui_node(toks, j) {
                Err(e) => {},
                Ok((node, j2)) => {
                    if j < j2 < toks.len() {
                        lemma_child_list_range(toks, j2, acc.push(node));
                    }
                },
            }
        }
    } else if t is OpenBrace {
        let j1 = next_idx(toks, j);
        let acc2 = match tok(toks, j1) {
            TokenView::Identifier(e) => acc.push(UiView::Expression(e)),
            _ => acc,
        };
        lemma_child_list_range(toks, next_idx(toks, next_idx(toks, j1)), acc2);
    } else {
        lemma_child_list_range(toks, next_idx(toks, j), acc);
    }
}

pub proof fn lemma_import_items_range(toks: Seq<SpanView>, j: int, acc: Seq<Seq<char>>)
    requires
        0 <= j < toks.len(),
    ensures
        import_items(toks, j, acc) matches Some((_, r)) ==> j <= r < toks.len(),
    decreases toks.len() - j,
{
    let t = tok(toks, j);
    if !(t is CloseBrace) && !(t is Eof) {
        lemma_import_items_range(
            toks,
            next_idx(toks, j),
            match t {
                TokenView::Identifier(x) => acc.push(x),
                _ => acc,
            },
        );
    }
}

pub proof fn lemma_skip_to_open_brace_range(toks: Seq<SpanView>, j: int)
    requires
        0 <= j < toks.len(),
    ensures
        j <= skip_to_open_brace(toks, j) < toks.len(),
    decreases toks.len() - j,
{
    if !(tok(toks, j) is OpenBrace || tok(toks, j) is Eof) {
        lemma_skip_to_open_brace_range(toks, next_idx(toks, j));
    }
}

pub proof fn lemma_skip_to_semicolon_range(toks: Seq<SpanView>, j: int)
    requires
        0 <= j < toks.len(),
    ensures
        j <= skip_to_semicolon(toks, j) < toks.len(),
    decreases toks.len() - j,
{
    if !(tok(toks, j) is Semicolon || tok(toks, j) is Eof) {
        lemma_skip_to_semicolon_range(toks, next_idx(toks, j));
    }
}

pub proof fn lemma_advance_by_range(toks: Seq<SpanView>, j: int, k: nat)
    requires
        0 <= j < toks.len(),
    ensures
        j <= advance_by(toks, j, k) < toks.len(),
    decreases k,
{
    if k > 0 {
        lemma_advance_by_range(toks, next_idx(toks, j), (k - 1) as nat);
    }
}

pub proof fn lemma_state_declaration_range(toks: Seq<SpanView>, j: int)
    requires
        0 <= j,
        j + 1 < toks.len(),
    ensures
        j < state_declaration(toks, j).1 < toks.len(),
{
    let j1 = next_idx(toks, next_idx(toks, j));
    let j2 = next_idx(toks, next_idx(toks, j1));
    lemma_advance_by_range(toks, j2, 5);
    let j3 = advance_by(toks, j2, 5);
    lemma_arg_text_range(toks, j3, 0, Seq::empty());
    lemma_skip_to_semicolon_range(toks, arg_text(toks, j3, 0, Seq::empty()).1);
}

pub proof fn lemma_arg_text_range(toks: Seq<SpanView>, j: int, depth: int, acc: Seq<char>)
    requires
        0 <= j < toks.len(),
    ensures
        j <= arg_text(toks, j, depth, acc).1 < toks.len(),
    decreases toks.len() - j,
{
    let t = tok(toks, j);
    if !(t is Eof || t is Semicolon || (t is CloseParen && depth <= 0)) {
        let d = if t is OpenParen {
            depth + 1
        } else if t is CloseParen {
            depth - 1
        } else {
            depth
        };
        lemma_arg_text_range(toks, next_idx(toks, j), d, acc + token_text(t));
    }
}

pub proof fn lemma_body_items_range(
    toks: Seq<SpanView>,
    j: int,
    body: Seq<StatementView>,
    ret: UiView,
)
    requires
        0 <= j < toks.len(),
    ensures
        body_items(toks, j, body, ret) matches Ok((_, _, r)) ==> j <= r < toks.len(),
    decreases toks.len() - j,
{
    let t = tok(toks, j);
    if t is CloseBrace || t is Eof {
    } else if t is Let {
        let (st, j5) = state_declaration(toks, j);
        lemma_state_declaration_range(toks, j);
        lemma_body_items_range(toks, j5, body.push(st), ret);
    } else if t is Return {
        lemma_ui_node_range(toks, next_idx(toks, j));
        match ui_node(toks, next_idx(toks, j)) {
            Err(e) => {},
            Ok((node, j2)) => {
                let j3 = if tok(toks, j2) is Semicolon { next_idx(toks, j2) } else { j2 };
                lemma_body_items_range(toks, j3, body, node);
            },
        }
    } else {
        lemma_body_items_range(toks, next_idx(toks, j), body, ret);
    }
}

pub proof fn lemma_import_decl_range(toks: Seq<SpanView>, j: int)
    requires
        0 <= j,
        j + 1 < toks.len(),
    ensures
        import_decl(toks, j) matches Some((_, r)) ==> j < r < toks.len(),
{
    let j1 = next_idx(toks, next_idx(toks, j));
    lemma_import_items_range(toks, j1, Seq::empty());
}

pub proof fn lemma_component_decl_range(toks: Seq<SpanView>, j: int)
    requires
        0 <= j,
        j + 1 < toks.len(),
    ensures
        component_decl(toks, j) matches Ok(Some((_, r))) ==> j < r < toks.len(),
{
    let j1 = next_idx(toks, j);
    if tok(toks, j1) is Identifier {
        lemma_skip_to_open_brace_range(toks, next_idx(toks, j1));
        let j3 = skip_to_open_brace(toks, next_idx(toks, j1));
        lemma_body_items_range(toks, next_idx(toks, j3), Seq::empty(), default_return_tree());
    }
}

} // verus!
