//! The Rust back end for the custom browser engine (Wasm FFI calls).
use vstd::prelude::*;
use crate::ast::{
    attrs_view, components_view, imports_view, lemma_children_view, nodes_view, statements_view,
    AstNode, AttrView, AttributeValue, ComponentView, ImportView, Statement, StatementView, UiNode,
    UiView, XeonGenerator,
};
use crate::text::{
    chars_of, decimal, is_whitespace_char, char_is_whitespace, join, push_decimal, push_joined,
    push_range, push_str,
};

verus! {

/// Generates engine calls that build the UI tree node by node.
pub struct WasmEngineGenerator;

/// The next node id: one more (held at `usize::MAX`, far beyond any tree
/// that fits in memory).
pub open spec fn next_id(c: nat) -> nat {
    if c + 1 <= usize::MAX {
        c + 1
    } else {
        usize::MAX as nat
    }
}

/// The model of an optional parent id.
pub open spec fn parent_view(p: Option<usize>) -> Option<nat> {
    match p {
        Some(x) => Some(x as nat),
        None => None,
    }
}

/// `append_child` of node `id` to its parent, if it has one.
pub open spec fn append_line(parent: Option<nat>, id: nat) -> Seq<char> {
    match parent {
        Some(p) => "xeon_sys::append_child(node_"@ + decimal(p) + ", node_"@ + decimal(id) + ");\n"@,
        None => Seq::empty(),
    }
}

/// Whether `c` is in the class trimmed: whitespace (`ws`) or a parenthesis.
pub open spec fn in_class(c: char, ws: bool) -> bool {
    if ws {
        is_whitespace_char(c)
    } else {
        c == '(' || c == ')'
    }
}

/// `s` without its leading characters of the class.
pub open spec fn strip_front(s: Seq<char>, ws: bool) -> Seq<char>
    decreases s.len(),
{
    if s.len() > 0 && in_class(s[0], ws) {
        strip_front(s.drop_first(), ws)
    } else {
        s
    }
}

/// `s` without its trailing characters of the class.
pub open spec fn strip_back(s: Seq<char>, ws: bool) -> Seq<char>
    decreases s.len(),
{
    if s.len() > 0 && in_class(s.last(), ws) {
        strip_back(s.drop_last(), ws)
    } else {
        s
    }
}

/// `s` without leading and trailing characters of the class: `str::trim`
/// for whitespace, `trim_matches` on `(` and `)` otherwise.
pub open spec fn trim_class(s: Seq<char>, ws: bool) -> Seq<char> {
    strip_back(strip_front(s, ws), ws)
}

/// The index of the first `=>` in `s` at or after `i`.
pub open spec fn find_arrow(s: Seq<char>, i: int) -> Option<int>
    decreases s.len() - i,
{
    if i < 0 || i + 1 >= s.len() {
        None
    } else if s[i] == '=' && s[i + 1] == '>' {
        Some(i)
    } else {
        find_arrow(s, i + 1)
    }
}

/// An event handler expression as a Rust closure: `(a) => body` becomes
/// `|a| { body; }`, `() => body` becomes `|| { body; }`, and an expression
/// without `=>` becomes `|| { expr }`.
pub open spec fn rust_closure(e: Seq<char>) -> Seq<char> {
    match find_arrow(e, 0) {
        Some(k) => {
            let params = trim_class(e.subrange(0, k), true);
            let body = trim_class(e.subrange(k + 2, e.len() as int), true);
            let rust_params = if params == seq!['(', ')'] {
                "||"@
            } else {
                "|"@ + trim_class(params, false) + "|"@
            };
            rust_params + " { "@ + body + "; }"@
        },
        None => "|| { "@ + e + " }"@,
    }
}

/// The engine call for one attribute of node `id`.
pub open spec fn wasm_attr(id: nat, a: (Seq<char>, AttrView)) -> Seq<char> {
    match a.1 {
        AttrView::Str(s) => "xeon_sys::set_attribute(node_"@ + decimal(id) + ", \""@ + a.0 + "\", \""@
            + s + "\");\n"@,
        AttrView::Expr(e) => "xeon_sys::bind_event(node_"@ + decimal(id) + ", \""@ + a.0
            + "\", Box::new("@ + rust_closure(e) + "));\n"@,
    }
}

pub open spec fn wasm_attrs(attrs: Seq<(Seq<char>, AttrView)>, id: nat) -> Seq<char>
    decreases attrs.len(),
{
    if attrs.len() == 0 {
        Seq::empty()
    } else {
        wasm_attrs(attrs.drop_last(), id) + wasm_attr(id, attrs.last())
    }
}

/// `let node_id = xeon_sys::create_text_node(&expr);`
pub open spec fn wasm_text_node(id: nat, e: Seq<char>) -> Seq<char> {
    "let node_"@ + decimal(id) + " = xeon_sys::create_text_node(&"@ + e + ");\n"@
}

/// `let node_id = xeon_sys::create_node("tag");`
pub open spec fn wasm_create_node(id: nat, tag: Seq<char>) -> Seq<char> {
    "let node_"@ + decimal(id) + " = xeon_sys::create_node(\""@ + tag + "\");\n"@
}

/// `if condition { body }`
pub open spec fn wasm_if(condition: Seq<char>, body: Seq<char>) -> Seq<char> {
    "if "@ + condition + " {\n"@ + body + "}\n"@
}

/// `for item in collection { body }`
pub open spec fn wasm_for(item_name: Seq<char>, collection: Seq<char>, body: Seq<char>) -> Seq<char> {
    "for "@ + item_name + " in "@ + collection + " {\n"@ + body + "}\n"@
}

/// The code of a node whose id is `counter`, attached to `parent`, and the
/// next free id. Every node takes an id; `<If>` and `<For>` become Rust `if`
/// and `for` blocks whose children attach to the enclosing parent.
pub open spec fn wasm_node(node: UiView, parent: Option<nat>, counter: nat) -> (Seq<char>, nat)
    decreases node,
{
    let id = counter;
    let next = next_id(counter);
    match node {
        UiView::Expression(e) => (wasm_text_node(id, e) + append_line(parent, id), next),
        UiView::If { condition, children } => {
            let (body, k) = wasm_children(children, parent, next);
            (wasm_if(condition, body), k)
        },
        UiView::For { item_name, collection, children } => {
            let (body, k) = wasm_children(children, parent, next);
            (wasm_for(item_name, collection, body), k)
        },
        UiView::Element { tag, attributes, children } => {
            let (body, k) = wasm_children(children, Some(id), next);
            (
                wasm_create_node(id, tag) + wasm_attrs(attributes, id) + body + append_line(parent, id),
                k,
            )
        },
    }
}

/// The code of each child in turn, ids following on from `counter`.
pub open spec fn wasm_children(children: Seq<UiView>, parent: Option<nat>, counter: nat) -> (
    Seq<char>,
    nat,
)
    decreases children,
{
    if children.len() == 0 {
        (Seq::empty(), counter)
    } else {
        let (a, k1) = wasm_children(children.drop_last(), parent, counter);
        let (b, k2) = wasm_node(children.last(), parent, k1);
        (a + b, k2)
    }
}

/// A comment naming an import.
pub open spec fn wasm_import(imp: ImportView) -> Seq<char> {
    "// Wasm Module Loaded: "@ + join(imp.items, ", "@) + " from \""@ + imp.module + "\"\n"@
}

pub open spec fn wasm_imports(imps: Seq<ImportView>) -> Seq<char>
    decreases imps.len(),
{
    if imps.len() == 0 {
        Seq::empty()
    } else {
        wasm_imports(imps.drop_last()) + wasm_import(imps.last())
    }
}

/// A state declaration as an `allocate_state` call; other statements give nothing.
pub open spec fn wasm_statement(st: StatementView) -> Seq<char> {
    match st {
        StatementView::StateDeclaration { state_name, setter_name, initial_value } =>
            "xeon_sys::allocate_state(\""@ + state_name + "\", \""@ + setter_name + "\", "@
            + initial_value + ");\n"@,
        StatementView::Expression(_) => Seq::empty(),
    }
}

pub open spec fn wasm_statements(body: Seq<StatementView>) -> Seq<char>
    decreases body.len(),
{
    if body.len() == 0 {
        Seq::empty()
    } else {
        wasm_statements(body.drop_last()) + wasm_statement(body.last())
    }
}

/// A component: a comment, its state, and its tree with ids from 0.
pub open spec fn wasm_component(c: ComponentView) -> Seq<char> {
    "\n// Component: "@ + c.name + "\n"@ + wasm_statements(c.body) + wasm_node(
        c.return_tree,
        None,
        0,
    ).0
}

pub open spec fn wasm_components(comps: Seq<ComponentView>) -> Seq<char>
    decreases comps.len(),
{
    if comps.len() == 0 {
        Seq::empty()
    } else {
        wasm_components(comps.drop_last()) + wasm_component(comps.last())
    }
}

/// The whole output: a header comment, the imports, then every component.
pub open spec fn wasm_program(imports: Seq<ImportView>, comps: Seq<ComponentView>) -> Seq<char> {
    "// Target: Custom Rust Browser Engine (Wasm FFI)\n"@ + wasm_imports(imports) + wasm_components(
        comps,
    )
}

/// The import comments of `a + b` are those of `a` followed by those of `b`.
pub proof fn law_wasm_imports_concat(a: Seq<ImportView>, b: Seq<ImportView>)
    ensures
        wasm_imports(a + b) == wasm_imports(a) + wasm_imports(b),
    decreases b.len(),
{
    if b.len() == 0 {
        assert(a + b =~= a);
        assert(wasm_imports(a) + wasm_imports(b) =~= wasm_imports(a));
    } else {
        law_wasm_imports_concat(a, b.drop_last());
        assert((a + b).drop_last() =~= a + b.drop_last());
        assert((a + b).last() == b.last());
        assert(wasm_imports(a + b) =~= wasm_imports(a) + wasm_imports(b));
    }
}

/// One import gives exactly its own comment.
pub proof fn law_wasm_imports_one(x: ImportView)
    ensures
        wasm_imports(seq![x]) == wasm_import(x),
{
    assert(seq![x].drop_last() =~= Seq::<ImportView>::empty());
    assert(wasm_imports(Seq::<ImportView>::empty()) =~= Seq::<char>::empty());
    assert(wasm_imports(seq![x]) =~= wasm_import(x));
}

/// The sections of `a + b` are those of `a` followed by those of `b`: every component has its own section, in order.
pub proof fn law_wasm_components_concat(a: Seq<ComponentView>, b: Seq<ComponentView>)
    ensures
        wasm_components(a + b) == wasm_components(a) + wasm_components(b),
    decreases b.len(),
{
    if b.len() == 0 {
        assert(a + b =~= a);
        assert(wasm_components(a) + wasm_components(b) =~= wasm_components(a));
    } else {
        law_wasm_components_concat(a, b.drop_last());
        assert((a + b).drop_last() =~= a + b.drop_last());
        assert((a + b).last() == b.last());
        assert(wasm_components(a + b) =~= wasm_components(a) + wasm_components(b));
    }
}

/// One component gives exactly its own section.
pub proof fn law_wasm_components_one(x: ComponentView)
    ensures
        wasm_components(seq![x]) == wasm_component(x),
{
    assert(seq![x].drop_last() =~= Seq::<ComponentView>::empty());
    assert(wasm_components(Seq::<ComponentView>::empty()) =~= Seq::<char>::empty());
    assert(wasm_components(seq![x]) =~= wasm_component(x));
}

/// The output holds the section of every component, in order: that of
/// `comps[i]` comes after those of the components before it and before those
/// after it.
pub proof fn law_wasm_sections_in_order(comps: Seq<ComponentView>, i: int)
    requires
        0 <= i < comps.len(),
    ensures
        wasm_components(comps) == wasm_components(comps.take(i)) + wasm_component(comps[i])
            + wasm_components(comps.skip(i + 1)),
{
    law_wasm_components_concat(comps.take(i), comps.skip(i));
    assert(comps.take(i) + comps.skip(i) =~= comps);
    law_wasm_components_concat(seq![comps[i]], comps.skip(i + 1));
    assert(seq![comps[i]] + comps.skip(i + 1) =~= comps.skip(i));
    law_wasm_components_one(comps[i]);
}

/// The state calls of `a + b` are those of `a` followed by those of `b`.
pub proof fn law_wasm_statements_concat(a: Seq<StatementView>, b: Seq<StatementView>)
    ensures
        wasm_statements(a + b) == wasm_statements(a) + wasm_statements(b),
    decreases b.len(),
{
    if b.len() == 0 {
        assert(a + b =~= a);
        assert(wasm_statements(a) + wasm_statements(b) =~= wasm_statements(a));
    } else {
        law_wasm_statements_concat(a, b.drop_last());
        assert((a + b).drop_last() =~= a + b.drop_last());
        assert((a + b).last() == b.last());
        assert(wasm_statements(a + b) =~= wasm_statements(a) + wasm_statements(b));
    }
}

/// One statement gives exactly its own call (or nothing).
pub proof fn law_wasm_statements_one(x: StatementView)
    ensures
        wasm_statements(seq![x]) == wasm_statement(x),
{
    assert(seq![x].drop_last() =~= Seq::<StatementView>::empty());
    assert(wasm_statements(Seq::<StatementView>::empty()) =~= Seq::<char>::empty());
    assert(wasm_statements(seq![x]) =~= wasm_statement(x));
}

/// The attribute calls of `a + b` on node `id` are those of `a` followed by those of `b`.
pub proof fn law_wasm_attrs_concat(a: Seq<(Seq<char>, AttrView)>, b: Seq<(Seq<char>, AttrView)>, id: nat)
    ensures
        wasm_attrs(a + b, id) == wasm_attrs(a, id) + wasm_attrs(b, id),
    decreases b.len(),
{
    if b.len() == 0 {
        assert(a + b =~= a);
        assert(wasm_attrs(a, id) + wasm_attrs(b, id) =~= wasm_attrs(a, id));
    } else {
        law_wasm_attrs_concat(a, b.drop_last(), id);
        assert((a + b).drop_last() =~= a + b.drop_last());
        assert((a + b).last() == b.last());
        assert(wasm_attrs(a + b, id) =~= wasm_attrs(a, id) + wasm_attrs(b, id));
    }
}

/// One attribute gives exactly its own call.
pub proof fn law_wasm_attrs_one(x: (Seq<char>, AttrView), id: nat)
    ensures
        wasm_attrs(seq![x], id) == wasm_attr(id, x),
{
    assert(seq![x].drop_last() =~= Seq::<(Seq<char>, AttrView)>::empty());
    assert(wasm_attrs(Seq::<(Seq<char>, AttrView)>::empty(), id) =~= Seq::<char>::empty());
    assert(wasm_attrs(seq![x], id) =~= wasm_attr(id, x));
}

/// The code of the children `a + b` is that of `a` followed by that of `b`,
/// whose ids follow on from where `a`'s end.
pub proof fn law_wasm_children_concat(a: Seq<UiView>, b: Seq<UiView>, parent: Option<nat>, counter: nat)
    ensures
        ({
            let (ca, ka) = wasm_children(a, parent, counter);
            let (cb, kb) = wasm_children(b, parent, ka);
            wasm_children(a + b, parent, counter) == (ca + cb, kb)
        }),
    decreases b.len(),
{
    if b.len() == 0 {
        assert(a + b =~= a);
        assert(wasm_children(a, parent, counter).0 + Seq::<char>::empty() =~= wasm_children(
            a,
            parent,
            counter,
        ).0);
    } else {
        law_wasm_children_concat(a, b.drop_last(), parent, counter);
        assert((a + b).drop_last() =~= a + b.drop_last());
        assert((a + b).last() == b.last());
        let ka = wasm_children(a, parent, counter).1;
        let (cb1, kb1) = wasm_children(b.drop_last(), parent, ka);
        let (cn, kn) = wasm_node(b.last(), parent, kb1);
        assert(wasm_children(a + b, parent, counter).0 =~= wasm_children(a, parent, counter).0
            + (cb1 + cn));
    }
}

/// Adding components to a program appends exactly their sections to the
/// Wasm output: `generate` of a bundle extends that of its first files.
pub proof fn law_wasm_program_more_components(
    imports: Seq<ImportView>,
    a: Seq<ComponentView>,
    b: Seq<ComponentView>,
)
    ensures
        wasm_program(imports, a + b) == wasm_program(imports, a) + wasm_components(b),
{
    law_wasm_components_concat(a, b);
    assert(wasm_program(imports, a + b) =~= wasm_program(imports, a) + wasm_components(b));
}

/// The number of nodes of a tree; each takes one id.
pub open spec fn node_count(n: UiView) -> nat
    decreases n,
{
    match n {
        UiView::Expression(_) => 1,
        UiView::If { children, .. } => 1 + nodes_count(children),
        UiView::For { children, .. } => 1 + nodes_count(children),
        UiView::Element { children, .. } => 1 + nodes_count(children),
    }
}

/// The number of nodes of a sequence of trees.
pub open spec fn nodes_count(s: Seq<UiView>) -> nat
    decreases s,
{
    if s.len() == 0 {
        0
    } else {
        nodes_count(s.drop_last()) + node_count(s.last())
    }
}

/// `c + k`, held at `usize::MAX`.
pub open spec fn sat_add(c: nat, k: nat) -> nat {
    if c + k <= usize::MAX {
        c + k
    } else {
        usize::MAX as nat
    }
}

/// Generating a tree uses one id per node, taken in turn from `counter`: the
/// counter ends up moved on by the number of nodes (held at `usize::MAX`).
pub proof fn law_wasm_ids(node: UiView, parent: Option<nat>, counter: nat)
    requires
        counter <= usize::MAX,
    ensures
        wasm_node(node, parent, counter).1 == sat_add(counter, node_count(node)),
    decreases node, 1nat,
{
    let next = next_id(counter);
    match node {
        UiView::Expression(_) => {},
        UiView::If { children, .. } => {
            law_wasm_ids_children(children, parent, next);
        },
        UiView::For { children, .. } => {
            law_wasm_ids_children(children, parent, next);
        },
        UiView::Element { children, .. } => {
            law_wasm_ids_children(children, Some(counter), next);
        },
    }
}

/// The same for a sequence of trees: the ids of all their nodes, in turn.
pub proof fn law_wasm_ids_children(children: Seq<UiView>, parent: Option<nat>, counter: nat)
    requires
        counter <= usize::MAX,
    ensures
        wasm_children(children, parent, counter).1 == sat_add(counter, nodes_count(children)),
    decreases children, 0nat,
{
    if children.len() > 0 {
        law_wasm_ids_children(children.drop_last(), parent, counter);
        let k1 = wasm_children(children.drop_last(), parent, counter).1;
        law_wasm_ids(children.last(), parent, k1);
    }
}

// ---------------------------------------------------------------------------
// Closures
// ---------------------------------------------------------------------------

fn in_class_exec(c: char, ws: bool) -> (b: bool)
    ensures
        b == in_class(c, ws),
{
    if ws {
        char_is_whitespace(c)
    } else {
        c == '(' || c == ')'
    }
}

/// The bounds of `v[lo..hi]` trimmed of the class.
fn trim_bounds(v: &Vec<char>, lo: usize, hi: usize, ws: bool) -> (r: (usize, usize))
    requires
        lo <= hi <= v.len(),
    ensures
        lo <= r.0 <= r.1 <= hi,
        v@.subrange(r.0 as int, r.1 as int) == trim_class(v@.subrange(lo as int, hi as int), ws),
{
    let mut a = lo;
    while a < hi && in_class_exec(v[a], ws)
        invariant
            lo <= a <= hi <= v.len(),
            strip_front(v@.subrange(lo as int, hi as int), ws) == strip_front(
                v@.subrange(a as int, hi as int),
                ws,
            ),
        decreases hi - a,
    {
        assert(v@.subrange(a as int, hi as int).drop_first() =~= v@.subrange(a + 1, hi as int));
        a = a + 1;
    }
    assert(strip_front(v@.subrange(a as int, hi as int), ws) == v@.subrange(a as int, hi as int));
    let mut b = hi;
    while b > a && in_class_exec(v[b - 1], ws)
        invariant
            lo <= a <= b <= hi <= v.len(),
            trim_class(v@.subrange(lo as int, hi as int), ws) == strip_back(
                v@.subrange(a as int, b as int),
                ws,
            ),
        decreases b - a,
    {
        assert(v@.subrange(a as int, b as int).drop_last() =~= v@.subrange(a as int, b - 1));
        b = b - 1;
    }
    (a, b)
}

/// The index of the first `=>` in `v`.
fn find_arrow_exec(v: &Vec<char>) -> (r: Option<usize>)
    ensures
        match r {
            Some(k) => find_arrow(v@, 0) == Some(k as int) && k + 2 <= v.len(),
            None => find_arrow(v@, 0) is None,
        },
{
    let mut i: usize = 0;
    while v.len() > 0 && i < v.len() - 1
        invariant
            i <= v.len(),
            find_arrow(v@, 0) == find_arrow(v@, i as int),
        decreases v.len() - i,
    {
        if v[i] == '=' && v[i + 1] == '>' {
            return Some(i);
        }
        i = i + 1;
    }
    None
}

/// An event handler expression as a Rust closure.
fn closure_code(e: &String) -> (r: String)
    ensures
        r@ == rust_closure(e@),
{
    let v = chars_of(e.as_str());
    let mut out = String::new();
    match find_arrow_exec(&v) {
        Some(k) => {
            let (pa, pb) = trim_bounds(&v, 0, k, true);
            let (ba, bb) = trim_bounds(&v, k + 2, v.len(), true);
            let ghost params = v@.subrange(pa as int, pb as int);
            let unit = pb - pa == 2 && v[pa] == '(' && v[pa + 1] == ')';
            assert(unit == (params == seq!['(', ')'])) by {
                if params == seq!['(', ')'] {
                    assert(params.len() == 2);
                    assert(params[0] == '(' && params[1] == ')');
                }
                if unit {
                    assert(params =~= seq!['(', ')']);
                }
            }
            if unit {
                push_str(&mut out, "||");
            } else {
                push_str(&mut out, "|");
                let (ta, tb) = trim_bounds(&v, pa, pb, false);
                push_range(&mut out, &v, ta, tb);
                push_str(&mut out, "|");
            }
            push_str(&mut out, " { ");
            push_range(&mut out, &v, ba, bb);
            push_str(&mut out, "; }");
            assert(out@ =~= rust_closure(e@));
        },
        None => {
            push_str(&mut out, "|| { ");
            push_str(&mut out, e.as_str());
            push_str(&mut out, " }");
            assert(out@ =~= rust_closure(e@));
        },
    }
    out
}

// ---------------------------------------------------------------------------
// Code
// ---------------------------------------------------------------------------

fn write_attrs(out: &mut String, attributes: &Vec<(String, AttributeValue)>, id: usize)
    ensures
        final(out)@ == old(out)@ + wasm_attrs(attrs_view(attributes@), id as nat),
{
    let ghost view = attrs_view(attributes@);
    let mut i: usize = 0;
    while i < attributes.len()
        invariant
            i <= attributes.len(),
            view == attrs_view(attributes@),
            out@ == old(out)@ + wasm_attrs(view.take(i as int), id as nat),
        decreases attributes.len() - i,
    {
        let ghost before = out@;
        let key = attributes[i].0.as_str();
        match &attributes[i].1 {
            AttributeValue::String(s) => {
                push_str(out, "xeon_sys::set_attribute(node_");
                push_decimal(out, id);
                push_str(out, ", \"");
                push_str(out, key);
                push_str(out, "\", \"");
                push_str(out, s.as_str());
                push_str(out, "\");\n");
            },
            AttributeValue::Expression(e) => {
                let closure = closure_code(e);
                push_str(out, "xeon_sys::bind_event(node_");
                push_decimal(out, id);
                push_str(out, ", \"");
                push_str(out, key);
                push_str(out, "\", Box::new(");
                push_str(out, closure.as_str());
                push_str(out, "));\n");
            },
        }
        assert(out@ =~= before + wasm_attr(id as nat, view[i as int]));
        assert(view.take(i + 1).drop_last() =~= view.take(i as int));
        i = i + 1;
    }
    assert(view.take(attributes.len() as int) =~= view);
}

fn write_append(out: &mut String, parent: Option<usize>, id: usize)
    ensures
        final(out)@ == old(out)@ + append_line(parent_view(parent), id as nat),
{
    match parent {
        Some(p) => {
            push_str(out, "xeon_sys::append_child(node_");
            push_decimal(out, p);
            push_str(out, ", node_");
            push_decimal(out, id);
            push_str(out, ");\n");
        },
        None => {},
    }
    assert(out@ =~= old(out)@ + append_line(parent_view(parent), id as nat));
}

fn write_text_node(out: &mut String, id: usize, expr: &String)
    ensures
        final(out)@ == old(out)@ + wasm_text_node(id as nat, expr@),
{
    push_str(out, "let node_");
    push_decimal(out, id);
    push_str(out, " = xeon_sys::create_text_node(&");
    push_str(out, expr.as_str());
    push_str(out, ");\n");
    assert(out@ =~= old(out)@ + wasm_text_node(id as nat, expr@));
}

fn write_create_node(out: &mut String, id: usize, tag: &String)
    ensures
        final(out)@ == old(out)@ + wasm_create_node(id as nat, tag@),
{
    push_str(out, "let node_");
    push_decimal(out, id);
    push_str(out, " = xeon_sys::create_node(\"");
    push_str(out, tag.as_str());
    push_str(out, "\");\n");
    assert(out@ =~= old(out)@ + wasm_create_node(id as nat, tag@));
}

/// Appends the code of `node` with id `*counter`, and moves the counter on.
fn write_node(out: &mut String, node: &UiNode, parent: Option<usize>, counter: &mut usize)
    ensures
        (final(out)@, *final(counter) as nat) == ({
            let (code, k) = wasm_node(node@, parent_view(parent), *old(counter) as nat);
            (old(out)@ + code, k)
        }),
    decreases node,
{
    proof {
        lemma_children_view(node);
    }
    let current_id = *counter;
    *counter = counter.saturating_add(1);
    assert(*counter as nat == next_id(current_id as nat));
    match node {
        UiNode::Expression(expr) => {
            write_text_node(out, current_id, expr);
            write_append(out, parent, current_id);
            assert(out@ =~= old(out)@ + wasm_node(node@, parent_view(parent), current_id as nat).0);
        },
        UiNode::If { condition, children } => {
            let mut body = String::new();
            write_children(&mut body, children, parent, counter);
            push_str(out, "if ");
            push_str(out, condition.as_str());
            push_str(out, " {\n");
            push_str(out, body.as_str());
            push_str(out, "}\n");
            assert(out@ =~= old(out)@ + wasm_if(condition@, body@));
        },
        UiNode::For { item_name, collection, children } => {
            let mut body = String::new();
            write_children(&mut body, children, parent, counter);
            push_str(out, "for ");
            push_str(out, item_name.as_str());
            push_str(out, " in ");
            push_str(out, collection.as_str());
            push_str(out, " {\n");
            push_str(out, body.as_str());
            push_str(out, "}\n");
            assert(out@ =~= old(out)@ + wasm_for(item_name@, collection@, body@));
        },
        UiNode::Element { tag, attributes, children } => {
            let ghost start = out@;
            write_create_node(out, current_id, tag);
            write_attrs(out, attributes, current_id);
            let ghost mid = out@;
            let mut body = String::new();
            write_children(&mut body, children, Some(current_id), counter);
            push_str(out, body.as_str());
            write_append(out, parent, current_id);
            assert(out@ =~= start + (wasm_create_node(current_id as nat, tag@) + wasm_attrs(
                attrs_view(attributes@),
                current_id as nat,
            ) + body@ + append_line(parent_view(parent), current_id as nat)));
        },
    }
}

/// Appends the code of each child in turn.
fn write_children(out: &mut String, children: &Vec<UiNode>, parent: Option<usize>, counter: &mut usize)
    ensures
        (final(out)@, *final(counter) as nat) == ({
            let (code, k) = wasm_children(nodes_view(children@), parent_view(parent), *old(counter) as nat);
            (old(out)@ + code, k)
        }),
    decreases children,
{
    let ghost view = nodes_view(children@);
    let mut i: usize = 0;
    while i < children.len()
        invariant
            i <= children.len(),
            view == nodes_view(children@),
            (out@, *counter as nat) == ({
                let (code, k) = wasm_children(view.take(i as int), parent_view(parent), *old(counter) as nat);
                (old(out)@ + code, k)
            }),
        decreases children.len() - i,
    {
        write_node(out, &children[i], parent, counter);
        assert(view.take(i + 1).drop_last() =~= view.take(i as int));
        assert(view.take(i + 1).last() == view[i as int]);
        i = i + 1;
        assert(out@ =~= old(out)@ + wasm_children(view.take(i as int), parent_view(parent), *old(counter) as nat).0);
    }
    assert(view.take(children.len() as int) =~= view);
}

impl WasmEngineGenerator {
    /// The code of `node` with id `*id_counter`, attached to `parent_id`;
    /// the counter moves on past every id used.
    pub fn generate_ui_tree(&self, node: &UiNode, parent_id: Option<usize>, id_counter: &mut usize) -> (s: String)
        ensures
            (s@, *final(id_counter) as nat) == wasm_node(node@, parent_view(parent_id), *old(id_counter) as nat),
    {
        let mut s = String::new();
        write_node(&mut s, node, parent_id, id_counter);
        assert(s@ =~= wasm_node(node@, parent_view(parent_id), *old(id_counter) as nat).0);
        s
    }
}

fn write_statements(out: &mut String, body: &Vec<Statement>)
    ensures
        final(out)@ == old(out)@ + wasm_statements(statements_view(body@)),
{
    let ghost view = statements_view(body@);
    let mut i: usize = 0;
    while i < body.len()
        invariant
            i <= body.len(),
            view == statements_view(body@),
            out@ == old(out)@ + wasm_statements(view.take(i as int)),
        decreases body.len() - i,
    {
        let ghost before = out@;
        match &body[i] {
            Statement::StateDeclaration { state_name, setter_name, initial_value } => {
                push_str(out, "xeon_sys::allocate_state(\"");
                push_str(out, state_name.as_str());
                push_str(out, "\", \"");
                push_str(out, setter_name.as_str());
                push_str(out, "\", ");
                push_str(out, initial_value.as_str());
                push_str(out, ");\n");
            },
            Statement::Expression(_) => {},
        }
        assert(out@ =~= before + wasm_statement(view[i as int]));
        assert(view.take(i + 1).drop_last() =~= view.take(i as int));
        i = i + 1;
    }
    assert(view.take(body.len() as int) =~= view);
}

impl XeonGenerator for WasmEngineGenerator {
    /// The engine code of the program; generation always succeeds.
    fn generate(&self, ast: &AstNode) -> (r: Result<String, String>)
        ensures
            match r {
                Ok(s) => s@ == wasm_program(ast@.imports, ast@.components),
                Err(_) => false,
            },
    {
        match ast {
            AstNode::Program { imports, components } => {
                let ghost imps = imports_view(imports@);
                let ghost comps = components_view(components@);
                let mut output = String::new();
                push_str(&mut output, "// Target: Custom Rust Browser Engine (Wasm FFI)\n");
                let ghost head = output@;
                let mut i: usize = 0;
                while i < imports.len()
                    invariant
                        i <= imports.len(),
                        imps == imports_view(imports@),
                        output@ == head + wasm_imports(imps.take(i as int)),
                    decreases imports.len() - i,
                {
                    let ghost before = output@;
                    push_str(&mut output, "// Wasm Module Loaded: ");
                    push_joined(&mut output, &imports[i].items, ", ");
                    push_str(&mut output, " from \"");
                    push_str(&mut output, imports[i].module.as_str());
                    push_str(&mut output, "\"\n");
                    assert(output@ =~= before + wasm_import(imps[i as int]));
                    assert(imps.take(i + 1).drop_last() =~= imps.take(i as int));
                    i = i + 1;
                }
                assert(imps.take(imports.len() as int) =~= imps);
                let ghost head2 = output@;
                let mut k: usize = 0;
                while k < components.len()
                    invariant
                        k <= components.len(),
                        comps == components_view(components@),
                        output@ == head2 + wasm_components(comps.take(k as int)),
                    decreases components.len() - k,
                {
                    let ghost before = output@;
                    let comp = &components[k];
                    push_str(&mut output, "\n// Component: ");
                    push_str(&mut output, comp.name.as_str());
                    push_str(&mut output, "\n");
                    write_statements(&mut output, &comp.body);
                    let mut id_counter: usize = 0;
                    let tree = self.generate_ui_tree(&comp.return_tree, None, &mut id_counter);
                    push_str(&mut output, tree.as_str());
                    assert(output@ =~= before + wasm_component(comps[k as int]));
                    assert(comps.take(k + 1).drop_last() =~= comps.take(k as int));
                    k = k + 1;
                }
                assert(comps.take(components.len() as int) =~= comps);
                assert(output@ =~= wasm_program(ast@.imports, ast@.components));
                Ok(output)
            },
        }
    }
}

} // verus!
