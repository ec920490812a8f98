//! The React JavaScript (JSX) back end.
use vstd::prelude::*;
use crate::ast::{
    lemma_children_view, nodes_view, statements_view, AstNode, AttrView, AttributeValue,
    ComponentView, ImportView, Statement, StatementView, UiNode, UiView, XeonGenerator, attrs_view,
    components_view, imports_view,
};
use crate::text::{join, push_joined, push_repeated, push_str, repeat_char};

verus! {

/// Generates React function components.
pub struct ReactJsGenerator;

/// The indentation of the children of a node indented by `indent`: two more
/// spaces (held at `usize::MAX`, far beyond any tree that fits in memory).
pub open spec fn child_indent(indent: nat) -> nat {
    if indent + 2 <= usize::MAX {
        indent + 2
    } else {
        usize::MAX as nat
    }
}

/// ` key="value"` for a string attribute, ` key={expr}` for an expression.
pub open spec fn js_attr(a: (Seq<char>, AttrView)) -> Seq<char> {
    match a.1 {
        AttrView::Str(s) => " "@ + a.0 + "=\""@ + s + "\""@,
        AttrView::Expr(e) => " "@ + a.0 + "={"@ + e + "}"@,
    }
}

/// The attributes of an element, in order.
pub open spec fn js_attrs(attrs: Seq<(Seq<char>, AttrView)>) -> Seq<char>
    decreases attrs.len(),
{
    if attrs.len() == 0 {
        Seq::empty()
    } else {
        js_attrs(attrs.drop_last()) + js_attr(attrs.last())
    }
}

/// `{expr}` after the indentation `sp`.
pub open spec fn js_expression(sp: Seq<char>, e: Seq<char>) -> Seq<char> {
    sp + "{"@ + e + "}"@
}

/// A conditional ternary around the fragment `body`.
pub open spec fn js_if(sp: Seq<char>, condition: Seq<char>, body: Seq<char>) -> Seq<char> {
    sp + "{\n"@ + condition + " ? (\n"@ + sp + "<>\n"@ + body + sp + "</>\n"@ + sp + ") : null\n"@
        + sp + "}"@
}

/// A mapped array around the fragment `body`.
pub open spec fn js_for(sp: Seq<char>, item_name: Seq<char>, collection: Seq<char>, body: Seq<char>) -> Seq<char> {
    sp + "{\n"@ + collection + ".map(("@ + item_name + ") => (\n"@ + sp + "<>\n"@ + body + sp
        + "</>\n"@ + sp + "))\n"@ + sp + "}"@
}

/// A self-closing element.
pub open spec fn js_empty_element(sp: Seq<char>, tag: Seq<char>, attrs: Seq<char>) -> Seq<char> {
    sp + "<"@ + tag + attrs + " />"@
}

/// An element around its children's text `body`.
pub open spec fn js_element(sp: Seq<char>, tag: Seq<char>, attrs: Seq<char>, body: Seq<char>) -> Seq<char> {
    sp + "<"@ + tag + attrs + ">\n"@ + body + sp + "</"@ + tag + ">"@
}

/// The JSX of a node indented by `indent` spaces: an expression in braces,
/// `<If>` as a conditional ternary, `<For>` as a mapped array, and an element
/// as a tag (self-closing when it has no children).
pub open spec fn js_node(node: UiView, indent: nat) -> Seq<char>
    decreases node,
{
    let sp = repeat_char(' ', indent);
    match node {
        UiView::Expression(e) => js_expression(sp, e),
        UiView::If { condition, children } => js_if(
            sp,
            condition,
            js_children(children, child_indent(indent)),
        ),
        UiView::For { item_name, collection, children } => js_for(
            sp,
            item_name,
            collection,
            js_children(children, child_indent(indent)),
        ),
        UiView::Element { tag, attributes, children } => if children.len() == 0 {
            js_empty_element(sp, tag, js_attrs(attributes))
        } else {
            js_element(sp, tag, js_attrs(attributes), js_children(children, child_indent(indent)))
        },
    }
}

/// The JSX of each child, each followed by a newline.
pub open spec fn js_children(children: Seq<UiView>, indent: nat) -> Seq<char>
    decreases children,
{
    if children.len() == 0 {
        Seq::empty()
    } else {
        js_children(children.drop_last(), indent) + js_node(children.last(), indent) + "\n"@
    }
}

/// `import { a, b } from "module";`
pub open spec fn js_import(imp: ImportView) -> Seq<char> {
    "import { "@ + join(imp.items, ", "@) + " } from \""@ + imp.module + "\";\n"@
}

pub open spec fn js_imports(imps: Seq<ImportView>) -> Seq<char>
    decreases imps.len(),
{
    if imps.len() == 0 {
        Seq::empty()
    } else {
        js_imports(imps.drop_last()) + js_import(imps.last())
    }
}

/// A state declaration as a `useState` hook; other statements give nothing.
pub open spec fn js_statement(st: StatementView) -> Seq<char> {
    match st {
        StatementView::StateDeclaration { state_name, setter_name, initial_value } => "  const ["@
            + state_name + ", "@ + setter_name + "] = useState("@ + initial_value + ");\n"@,
        StatementView::Expression(_) => Seq::empty(),
    }
}

pub open spec fn js_statements(body: Seq<StatementView>) -> Seq<char>
    decreases body.len(),
{
    if body.len() == 0 {
        Seq::empty()
    } else {
        js_statements(body.drop_last()) + js_statement(body.last())
    }
}

/// A component as a function component; the entry component (the first of
/// the bundle) is the module's default export.
pub open spec fn js_component(c: ComponentView, entry: bool) -> Seq<char> {
    (if entry {
        "export default function "@
    } else {
        "function "@
    }) + c.name + "() {\n"@ + js_statements(c.body) + "\n  return (\n"@
        + js_node(c.return_tree, 2) + "\n  );\n}\n"@
}

pub open spec fn js_components(comps: Seq<ComponentView>) -> Seq<char>
    decreases comps.len(),
{
    if comps.len() == 0 {
        Seq::empty()
    } else {
        js_components(comps.drop_last()) + js_component(comps.last(), comps.len() == 1)
    }
}

/// The whole module: the React import, the program's imports, a blank line,
/// then every component, the first as the default export.
pub open spec fn js_program(imports: Seq<ImportView>, comps: Seq<ComponentView>) -> Seq<char> {
    "import { useState } from 'react';\n"@ + js_imports(imports) + "\n"@ + js_components(comps)
}

/// `s` with `k` spaces inserted after each of its newlines.
pub open spec fn indent_after_newlines(s: Seq<char>, k: nat) -> Seq<char>
    decreases s.len(),
{
    if s.len() == 0 {
        Seq::empty()
    } else {
        indent_after_newlines(s.drop_last(), k) + if s.last() == '\n' {
            seq!['\n'] + repeat_char(' ', k)
        } else {
            seq![s.last()]
        }
    }
}

/// `s` with each of its lines shifted right by `k` spaces.
pub open spec fn shift_lines(s: Seq<char>, k: nat) -> Seq<char> {
    repeat_char(' ', k) + indent_after_newlines(s, k)
}

pub open spec fn has_no_newline(s: Seq<char>) -> bool {
    forall|i: int| 0 <= i < s.len() ==> s[i] != '\n'
}

/// Neither the name nor the value of an attribute holds a newline.
pub open spec fn attr_on_one_line(a: (Seq<char>, AttrView)) -> bool {
    has_no_newline(a.0) && match a.1 {
        AttrView::Str(v) => has_no_newline(v),
        AttrView::Expr(v) => has_no_newline(v),
    }
}

pub open spec fn attrs_on_one_line(attrs: Seq<(Seq<char>, AttrView)>) -> bool {
    forall|j: int| 0 <= j < attrs.len() ==> attr_on_one_line(#[trigger] attrs[j])
}

/// A tree of elements and expressions only (no `<If>` or `<For>`), none of
/// whose tags, attributes or expressions holds a newline.
pub open spec fn plain_tree(node: UiView) -> bool
    decreases node,
{
    match node {
        UiView::Expression(e) => has_no_newline(e),
        UiView::Element { tag, attributes, children } => has_no_newline(tag) && attrs_on_one_line(
            attributes,
        ) && plain_forest(children),
        UiView::If { .. } => false,
        UiView::For { .. } => false,
    }
}

pub open spec fn plain_forest(children: Seq<UiView>) -> bool
    decreases children,
{
    if children.len() == 0 {
        true
    } else {
        plain_forest(children.drop_last()) && plain_tree(children.last())
    }
}

/// The nesting depth of the elements of a tree.
pub open spec fn tree_depth(node: UiView) -> nat
    decreases node,
{
    match node {
        UiView::Element { children, .. } => 1 + forest_depth(children),
        UiView::If { children, .. } => 1 + forest_depth(children),
        UiView::For { children, .. } => 1 + forest_depth(children),
        UiView::Expression(_) => 0,
    }
}

pub open spec fn forest_depth(children: Seq<UiView>) -> nat
    decreases children,
{
    if children.len() == 0 {
        0
    } else {
        let a = forest_depth(children.drop_last());
        let b = tree_depth(children.last());
        if a < b {
            b
        } else {
            a
        }
    }
}

proof fn lemma_indent_concat(a: Seq<char>, b: Seq<char>, k: nat)
    ensures
        indent_after_newlines(a + b, k) == indent_after_newlines(a, k) + indent_after_newlines(b, k),
    decreases b.len(),
{
    if b.len() == 0 {
        assert(a + b =~= a);
        assert(indent_after_newlines(b, k) =~= Seq::<char>::empty());
        assert(indent_after_newlines(a, k) + indent_after_newlines(b, k) =~= indent_after_newlines(a, k));
    } else {
        lemma_indent_concat(a, b.drop_last(), k);
        assert((a + b).drop_last() =~= a + b.drop_last());
        assert((a + b).last() == b.last());
    }
}

proof fn lemma_indent_one_line(s: Seq<char>, k: nat)
    requires
        has_no_newline(s),
    ensures
        indent_after_newlines(s, k) == s,
    decreases s.len(),
{
    if s.len() > 0 {
        lemma_indent_one_line(s.drop_last(), k);
        assert(s.drop_last().push(s.last()) =~= s);
    }
}

proof fn lemma_spaces_add(a: nat, b: nat)
    ensures
        repeat_char(' ', a) + repeat_char(' ', b) == repeat_char(' ', a + b),
{
    assert(repeat_char(' ', a) + repeat_char(' ', b) =~= repeat_char(' ', a + b));
}

proof fn lemma_attrs_one_line(attrs: Seq<(Seq<char>, AttrView)>)
    requires
        attrs_on_one_line(attrs),
    ensures
        has_no_newline(js_attrs(attrs)),
    decreases attrs.len(),
{
    if attrs.len() > 0 {
        let init = attrs.drop_last();
        assert forall|j: int| 0 <= j < init.len() implies attr_on_one_line(#[trigger] init[j]) by {
            assert(init[j] == attrs[j]);
        }
        lemma_attrs_one_line(init);
        assert(attr_on_one_line(attrs[attrs.len() - 1]));
        reveal_strlit(" ");
        reveal_strlit("=\"");
        reveal_strlit("\"");
        reveal_strlit("={");
        reveal_strlit("}");
        assert(has_no_newline(js_attr(attrs.last())));
    }
}

proof fn lemma_indent_newline(k: nat)
    ensures
        indent_after_newlines("\n"@, k) == "\n"@ + repeat_char(' ', k),
{
    reveal_strlit("\n");
    assert(indent_after_newlines(Seq::<char>::empty(), k) =~= Seq::<char>::empty());
    assert("\n"@.drop_last() =~= Seq::<char>::empty());
    assert(indent_after_newlines("\n"@, k) =~= "\n"@ + repeat_char(' ', k));
}

/// Shifting `x`, a newline, `body` and `y`, where `x` and `y` are single
/// lines and `k` spaces before the shifted `body` give `body2` and `k` spaces.
proof fn lemma_shift_block(x: Seq<char>, body: Seq<char>, y: Seq<char>, body2: Seq<char>, k: nat)
    requires
        has_no_newline(x),
        has_no_newline(y),
        repeat_char(' ', k) + indent_after_newlines(body, k) == body2 + repeat_char(' ', k),
    ensures
        shift_lines(x + "\n"@ + body + y, k) == (repeat_char(' ', k) + x) + "\n"@ + body2 + (
        repeat_char(' ', k) + y),
{
    let ks = repeat_char(' ', k);
    lemma_indent_one_line(x, k);
    lemma_indent_one_line(y, k);
    lemma_indent_concat(x + "\n"@ + body, y, k);
    lemma_indent_concat(x + "\n"@, body, k);
    lemma_indent_concat(x, "\n"@, k);
    lemma_indent_newline(k);
    assert(shift_lines(x + "\n"@ + body + y, k) =~= (ks + x) + "\n"@ + (ks
        + indent_after_newlines(body, k)) + y);
    assert((ks + x) + "\n"@ + (body2 + ks) + y =~= (ks + x) + "\n"@ + body2 + (ks + y));
}

/// A tree rendered at `indent + k` is the tree rendered at `indent` with
/// every line shifted right by `k` spaces: this holds of trees of elements and
/// expressions whose texts hold no newline, as long as no indentation
/// reaches `usize::MAX`.
pub proof fn law_shifted_rendering(node: UiView, indent: nat, k: nat)
    requires
        plain_tree(node),
        indent + k + 2 * tree_depth(node) <= usize::MAX,
    ensures
        shift_lines(js_node(node, indent), k) == js_node(node, indent + k),
    decreases node,
{
    let sp = repeat_char(' ', indent);
    let ks = repeat_char(' ', k);
    lemma_spaces_add(k, indent);
    match node {
        UiView::Expression(e) => {
            reveal_strlit("{");
            reveal_strlit("}");
            let t = js_node(node, indent);
            assert(has_no_newline(t));
            lemma_indent_one_line(t, k);
            assert(ks + t =~= js_node(node, indent + k));
        },
        UiView::Element { tag, attributes, children } => {
            lemma_attrs_one_line(attributes);
            let a = js_attrs(attributes);
            if children.len() == 0 {
                reveal_strlit("<");
                reveal_strlit(" />");
                let t = js_node(node, indent);
                assert(has_no_newline(t));
                lemma_indent_one_line(t, k);
                assert(ks + t =~= js_node(node, indent + k));
            } else {
                reveal_strlit("<");
                reveal_strlit(">\n");
                reveal_strlit(">");
                reveal_strlit("\n");
                reveal_strlit("</");
                let body = js_children(children, indent + 2);
                let body2 = js_children(children, indent + k + 2);
                let x = sp + "<"@ + tag + a + ">"@;
                let y = sp + "</"@ + tag + ">"@;
                assert(js_node(node, indent) =~= x + "\n"@ + body + y);
                assert(has_no_newline(x));
                assert(has_no_newline(y));
                lemma_shifted_children(children, indent + 2, k);
                lemma_shift_block(x, body, y, body2, k);
                assert(js_node(node, indent + k) =~= (ks + x) + "\n"@ + body2 + (ks + y));
            }
        },
        UiView::If { .. } => {},
        UiView::For { .. } => {},
    }
}

/// The children rendered at `indent + k`, followed by `k` spaces, are the
/// children rendered at `indent` with `k` spaces before each line.
proof fn lemma_shifted_children(children: Seq<UiView>, indent: nat, k: nat)
    requires
        plain_forest(children),
        indent + k + 2 * forest_depth(children) <= usize::MAX,
    ensures
        repeat_char(' ', k) + indent_after_newlines(js_children(children, indent), k) == js_children(
            children,
            indent + k,
        ) + repeat_char(' ', k),
    decreases children,
{
    let ks = repeat_char(' ', k);
    if children.len() == 0 {
        assert(ks + indent_after_newlines(js_children(children, indent), k) =~= ks);
        assert(js_children(children, indent + k) + ks =~= ks);
    } else {
        let init = children.drop_last();
        let last = children.last();
        reveal_strlit("\n");
        lemma_shifted_children(init, indent, k);
        law_shifted_rendering(last, indent, k);
        let c0 = js_children(init, indent);
        let n0 = js_node(last, indent);
        lemma_indent_concat(c0 + n0, "\n"@, k);
        lemma_indent_concat(c0, n0, k);
        lemma_indent_newline(k);
        assert(ks + indent_after_newlines(js_children(children, indent), k) =~= (ks
            + indent_after_newlines(c0, k)) + indent_after_newlines(n0, k) + "\n"@ + ks);
        assert(js_children(children, indent + k) + ks =~= js_children(init, indent + k) + (ks
            + indent_after_newlines(n0, k)) + "\n"@ + ks);
    }
}

/// The import lines of `a + b` are those of `a` followed by those of `b`.
pub proof fn law_js_imports_concat(a: Seq<ImportView>, b: Seq<ImportView>)
    ensures
        js_imports(a + b) == js_imports(a) + js_imports(b),
    decreases b.len(),
{
    if b.len() == 0 {
        assert(a + b =~= a);
        assert(js_imports(a) + js_imports(b) =~= js_imports(a));
    } else {
        law_js_imports_concat(a, b.drop_last());
        assert((a + b).drop_last() =~= a + b.drop_last());
        assert((a + b).last() == b.last());
        assert(js_imports(a + b) =~= js_imports(a) + js_imports(b));
    }
}

/// One import gives exactly its own line.
pub proof fn law_js_imports_one(x: ImportView)
    ensures
        js_imports(seq![x]) == js_import(x),
{
    assert(seq![x].drop_last() =~= Seq::<ImportView>::empty());
    assert(js_imports(Seq::<ImportView>::empty()) =~= Seq::<char>::empty());
    assert(js_imports(seq![x]) =~= js_import(x));
}

/// The module holds the line of every import, in order: that of `imps[i]`
/// comes after those of the imports before it and before those after it.
pub proof fn law_js_import_lines_in_order(imps: Seq<ImportView>, i: int)
    requires
        0 <= i < imps.len(),
    ensures
        js_imports(imps) == js_imports(imps.take(i)) + js_import(imps[i]) + js_imports(
            imps.skip(i + 1),
        ),
{
    law_js_imports_concat(imps.take(i), imps.skip(i));
    assert(imps.take(i) + imps.skip(i) =~= imps);
    law_js_imports_concat(seq![imps[i]], imps.skip(i + 1));
    assert(seq![imps[i]] + imps.skip(i + 1) =~= imps.skip(i));
    law_js_imports_one(imps[i]);
}

/// The state hooks of `a + b` are those of `a` followed by those of `b`.
pub proof fn law_js_statements_concat(a: Seq<StatementView>, b: Seq<StatementView>)
    ensures
        js_statements(a + b) == js_statements(a) + js_statements(b),
    decreases b.len(),
{
    if b.len() == 0 {
        assert(a + b =~= a);
        assert(js_statements(a) + js_statements(b) =~= js_statements(a));
    } else {
        law_js_statements_concat(a, b.drop_last());
        assert((a + b).drop_last() =~= a + b.drop_last());
        assert((a + b).last() == b.last());
        assert(js_statements(a + b) =~= js_statements(a) + js_statements(b));
    }
}

/// One statement gives exactly its own hook (or nothing).
pub proof fn law_js_statements_one(x: StatementView)
    ensures
        js_statements(seq![x]) == js_statement(x),
{
    assert(seq![x].drop_last() =~= Seq::<StatementView>::empty());
    assert(js_statements(Seq::<StatementView>::empty()) =~= Seq::<char>::empty());
    assert(js_statements(seq![x]) =~= js_statement(x));
}

/// The attributes of `a + b` render as those of `a` followed by those of `b`.
pub proof fn law_js_attrs_concat(a: Seq<(Seq<char>, AttrView)>, b: Seq<(Seq<char>, AttrView)>)
    ensures
        js_attrs(a + b) == js_attrs(a) + js_attrs(b),
    decreases b.len(),
{
    if b.len() == 0 {
        assert(a + b =~= a);
        assert(js_attrs(a) + js_attrs(b) =~= js_attrs(a));
    } else {
        law_js_attrs_concat(a, b.drop_last());
        assert((a + b).drop_last() =~= a + b.drop_last());
        assert((a + b).last() == b.last());
        assert(js_attrs(a + b) =~= js_attrs(a) + js_attrs(b));
    }
}

/// One attribute renders as itself.
pub proof fn law_js_attrs_one(x: (Seq<char>, AttrView))
    ensures
        js_attrs(seq![x]) == js_attr(x),
{
    assert(seq![x].drop_last() =~= Seq::<(Seq<char>, AttrView)>::empty());
    assert(js_attrs(Seq::<(Seq<char>, AttrView)>::empty()) =~= Seq::<char>::empty());
    assert(js_attrs(seq![x]) =~= js_attr(x));
}

/// The children `a + b` render as `a` followed by `b`, at the same indentation.
pub proof fn law_js_children_concat(a: Seq<UiView>, b: Seq<UiView>, indent: nat)
    ensures
        js_children(a + b, indent) == js_children(a, indent) + js_children(b, indent),
    decreases b.len(),
{
    if b.len() == 0 {
        assert(a + b =~= a);
        assert(js_children(a, indent) + js_children(b, indent) =~= js_children(a, indent));
    } else {
        law_js_children_concat(a, b.drop_last(), indent);
        assert((a + b).drop_last() =~= a + b.drop_last());
        assert((a + b).last() == b.last());
        assert(js_children(a + b, indent) =~= js_children(a, indent) + js_children(b, indent));
    }
}

/// One child renders as its node followed by a newline.
pub proof fn law_js_children_one(x: UiView, indent: nat)
    ensures
        js_children(seq![x], indent) == js_node(x, indent) + "\n"@,
{
    assert(seq![x].drop_last() =~= Seq::<UiView>::empty());
    assert(js_children(Seq::<UiView>::empty(), indent) =~= Seq::<char>::empty());
    assert(js_children(seq![x], indent) =~= js_node(x, indent) + "\n"@);
}

/// Only the first component is the default export; every component has its
/// own function, in order: adding a component to a nonempty bundle appends
/// exactly its plain function.
pub proof fn law_js_components_push(comps: Seq<ComponentView>, c: ComponentView)
    ensures
        js_components(comps.push(c)) == js_components(comps) + js_component(c, comps.len() == 0),
{
    assert(comps.push(c).drop_last() =~= comps);
}

/// The React module of a program whose imports are `a + b` holds the lines
/// of `a`'s imports and then those of `b`'s, right after the React import.
pub proof fn law_js_program_imports(a: Seq<ImportView>, b: Seq<ImportView>, comps: Seq<ComponentView>)
    ensures
        js_program(a + b, comps) == "import { useState } from 'react';\n"@ + js_imports(a)
            + js_imports(b) + "\n"@ + js_components(comps),
{
    law_js_imports_concat(a, b);
    assert(js_program(a + b, comps) =~= "import { useState } from 'react';\n"@ + js_imports(a)
        + js_imports(b) + "\n"@ + js_components(comps));
}

fn write_attrs(out: &mut String, attributes: &Vec<(String, AttributeValue)>)
    ensures
        final(out)@ == old(out)@ + js_attrs(attrs_view(attributes@)),
{
    let ghost view = attrs_view(attributes@);
    let mut i: usize = 0;
    while i < attributes.len()
        invariant
            i <= attributes.len(),
            view == attrs_view(attributes@),
            out@ == old(out)@ + js_attrs(view.take(i as int)),
        decreases attributes.len() - i,
    {
        let ghost before = out@;
        push_str(out, " ");
        push_str(out, attributes[i].0.as_str());
        match &attributes[i].1 {
            AttributeValue::String(s) => {
                push_str(out, "=\"");
                push_str(out, s.as_str());
                push_str(out, "\"");
            },
            AttributeValue::Expression(e) => {
                push_str(out, "={");
                push_str(out, e.as_str());
                push_str(out, "}");
            },
        }
        assert(out@ =~= before + js_attr(view[i as int]));
        assert(view.take(i + 1).drop_last() =~= view.take(i as int));
        i = i + 1;
    }
    assert(view.take(attributes.len() as int) =~= view);
}

fn wrap_if(out: &mut String, indent: usize, condition: &String, body: &String)
    ensures
        final(out)@ == old(out)@ + js_if(repeat_char(' ', indent as nat), condition@, body@),
{
    push_repeated(out, ' ', indent);
    push_str(out, "{\n");
    push_str(out, condition.as_str());
    push_str(out, " ? (\n");
    push_repeated(out, ' ', indent);
    push_str(out, "<>\n");
    push_str(out, body.as_str());
    push_repeated(out, ' ', indent);
    push_str(out, "</>\n");
    push_repeated(out, ' ', indent);
    push_str(out, ") : null\n");
    push_repeated(out, ' ', indent);
    push_str(out, "}");
    assert(out@ =~= old(out)@ + js_if(repeat_char(' ', indent as nat), condition@, body@));
}

fn wrap_for(out: &mut String, indent: usize, item_name: &String, collection: &String, body: &String)
    ensures
        final(out)@ == old(out)@ + js_for(
            repeat_char(' ', indent as nat),
            item_name@,
            collection@,
            body@,
        ),
{
    push_repeated(out, ' ', indent);
    push_str(out, "{\n");
    push_str(out, collection.as_str());
    push_str(out, ".map((");
    push_str(out, item_name.as_str());
    push_str(out, ") => (\n");
    push_repeated(out, ' ', indent);
    push_str(out, "<>\n");
    push_str(out, body.as_str());
    push_repeated(out, ' ', indent);
    push_str(out, "</>\n");
    push_repeated(out, ' ', indent);
    push_str(out, "))\n");
    push_repeated(out, ' ', indent);
    push_str(out, "}");
    assert(out@ =~= old(out)@ + js_for(
        repeat_char(' ', indent as nat),
        item_name@,
        collection@,
        body@,
    ));
}

fn wrap_element(
    out: &mut String,
    indent: usize,
    tag: &String,
    attributes: &Vec<(String, AttributeValue)>,
    body: &String,
    empty: bool,
)
    ensures
        final(out)@ == old(out)@ + (if empty {
            js_empty_element(repeat_char(' ', indent as nat), tag@, js_attrs(attrs_view(attributes@)))
        } else {
            js_element(
                repeat_char(' ', indent as nat),
                tag@,
                js_attrs(attrs_view(attributes@)),
                body@,
            )
        }),
{
    push_repeated(out, ' ', indent);
    push_str(out, "<");
    push_str(out, tag.as_str());
    let ghost before_attrs = out@;
    write_attrs(out, attributes);
    let ghost attrs_text = js_attrs(attrs_view(attributes@));
    assert(out@ == before_attrs + attrs_text);
    if empty {
        push_str(out, " />");
    } else {
        push_str(out, ">\n");
        push_str(out, body.as_str());
        push_repeated(out, ' ', indent);
        push_str(out, "</");
        push_str(out, tag.as_str());
        push_str(out, ">");
    }
    assert(out@ =~= old(out)@ + (if empty {
        js_empty_element(repeat_char(' ', indent as nat), tag@, attrs_text)
    } else {
        js_element(repeat_char(' ', indent as nat), tag@, attrs_text, body@)
    }));
}

/// Appends the JSX of `node` indented by `indent`.
fn write_node(out: &mut String, node: &UiNode, indent: usize)
    ensures
        final(out)@ == old(out)@ + js_node(node@, indent as nat),
    decreases node,
{
    proof {
        lemma_children_view(node);
    }
    let inner = indent.saturating_add(2);
    assert(inner as nat == child_indent(indent as nat));
    match node {
        UiNode::Expression(expr) => {
            push_repeated(out, ' ', indent);
            push_str(out, "{");
            push_str(out, expr.as_str());
            push_str(out, "}");
            assert(out@ =~= old(out)@ + js_node(node@, indent as nat));
        },
        UiNode::If { condition, children } => {
            let mut body = String::new();
            write_children(&mut body, children, inner);
            assert(body@ =~= js_children(nodes_view(children@), inner as nat));
            wrap_if(out, indent, condition, &body);
        },
        UiNode::For { item_name, collection, children } => {
            let mut body = String::new();
            write_children(&mut body, children, inner);
            assert(body@ =~= js_children(nodes_view(children@), inner as nat));
            wrap_for(out, indent, item_name, collection, &body);
        },
        UiNode::Element { tag, attributes, children } => {
            let mut body = String::new();
            write_children(&mut body, children, inner);
            assert(body@ =~= js_children(nodes_view(children@), inner as nat));
            wrap_element(out, indent, tag, attributes, &body, children.len() == 0);
        },
    }
}

/// Appends the JSX of each child, each followed by a newline.
fn write_children(out: &mut String, children: &Vec<UiNode>, indent: usize)
    ensures
        final(out)@ == old(out)@ + js_children(nodes_view(children@), indent as nat),
    decreases children,
{
    let ghost view = nodes_view(children@);
    let mut i: usize = 0;
    while i < children.len()
        invariant
            i <= children.len(),
            view == nodes_view(children@),
            out@ == old(out)@ + js_children(view.take(i as int), indent as nat),
        decreases children.len() - i,
    {
        let ghost before = out@;
        write_node(out, &children[i], indent);
        push_str(out, "\n");
        assert(view.take(i + 1).drop_last() =~= view.take(i as int));
        assert(view.take(i + 1).last() == view[i as int]);
        assert(out@ =~= old(out)@ + js_children(view.take(i + 1), indent as nat));
        i = i + 1;
    }
    assert(view.take(children.len() as int) =~= view);
}

impl ReactJsGenerator {
    /// The JSX of `node` indented by `indent` spaces.
    pub fn generate_ui_tree(&self, node: &UiNode, indent: usize) -> (s: String)
        ensures
            s@ == js_node(node@, indent as nat),
    {
        let mut s = String::new();
        write_node(&mut s, node, indent);
        assert(s@ =~= js_node(node@, indent as nat));
        s
    }
}

impl XeonGenerator for ReactJsGenerator {
    /// The React module of the program; generation always succeeds.
    fn generate(&self, ast: &AstNode) -> (r: Result<String, String>)
        ensures
            match r {
                Ok(s) => s@ == js_program(ast@.imports, ast@.components),
                Err(_) => false,
            },
    {
        match ast {
            AstNode::Program { imports, components } => {
                let ghost imps = imports_view(imports@);
                let ghost comps = components_view(components@);
                let mut output = String::new();
                push_str(&mut output, "import { useState } from 'react';\n");
                let ghost head = output@;
                let mut i: usize = 0;
                while i < imports.len()
                    invariant
                        i <= imports.len(),
                        imps == imports_view(imports@),
                        output@ == head + js_imports(imps.take(i as int)),
                    decreases imports.len() - i,
                {
                    let ghost before = output@;
                    push_str(&mut output, "import { ");
                    push_joined(&mut output, &imports[i].items, ", ");
                    push_str(&mut output, " } from \"");
                    push_str(&mut output, imports[i].module.as_str());
                    push_str(&mut output, "\";\n");
                    assert(output@ =~= before + js_import(imps[i as int]));
                    assert(imps.take(i + 1).drop_last() =~= imps.take(i as int));
                    i = i + 1;
                }
                assert(imps.take(imports.len() as int) =~= imps);
                push_str(&mut output, "\n");
                let ghost head2 = output@;
                let mut k: usize = 0;
                while k < components.len()
                    invariant
                        k <= components.len(),
                        comps == components_view(components@),
                        output@ == head2 + js_components(comps.take(k as int)),
                    decreases components.len() - k,
                {
                    let ghost before = output@;
                    let comp = &components[k];
                    if k == 0 {
                        push_str(&mut output, "export default function ");
                    } else {
                        push_str(&mut output, "function ");
                    }
                    push_str(&mut output, comp.name.as_str());
                    push_str(&mut output, "() {\n");
                    write_statements(&mut output, &comp.body);
                    let ui_code = self.generate_ui_tree(&comp.return_tree, 2);
                    push_str(&mut output, "\n  return (\n");
                    push_str(&mut output, ui_code.as_str());
                    push_str(&mut output, "\n  );\n}\n");
                    assert(output@ =~= before + js_component(comps[k as int], k == 0));
                    assert(comps.take(k + 1).len() == k + 1);
                    assert(comps.take(k + 1).drop_last() =~= comps.take(k as int));
                    k = k + 1;
                }
                assert(comps.take(components.len() as int) =~= comps);
                assert(output@ =~= js_program(ast@.imports, ast@.components));
                Ok(output)
            },
        }
    }
}

fn write_statements(out: &mut String, body: &Vec<Statement>)
    ensures
        final(out)@ == old(out)@ + js_statements(statements_view(body@)),
{
    let ghost view = statements_view(body@);
    let mut i: usize = 0;
    while i < body.len()
        invariant
            i <= body.len(),
            view == statements_view(body@),
            out@ == old(out)@ + js_statements(view.take(i as int)),
        decreases body.len() - i,
    {
        let ghost before = out@;
        match &body[i] {
            Statement::StateDeclaration { state_name, setter_name, initial_value } => {
                push_str(out, "  const [");
                push_str(out, state_name.as_str());
                push_str(out, ", ");
                push_str(out, setter_name.as_str());
                push_str(out, "] = useState(");
                push_str(out, initial_value.as_str());
                push_str(out, ");\n");
            },
            Statement::Expression(_) => {},
        }
        assert(out@ =~= before + js_statement(view[i as int]));
        assert(view.take(i + 1).drop_last() =~= view.take(i as int));
        i = i + 1;
    }
    assert(view.take(body.len() as int) =~= view);
}

} // verus!
