//! The code of the Wasm back end read line by line: which node id each line
//! declares and which ids it names, and the laws that relate the two.
use vstd::prelude::*;
use crate::ast::{AttrView, UiView};
use crate::codegen_wasm::{
    append_line, next_id, node_count, nodes_count, wasm_attr, wasm_attrs, wasm_children,
    wasm_create_node, wasm_node, wasm_text_node, law_wasm_ids, law_wasm_ids_children,
};

verus! {

/// A line of generated code: its text, the node id it declares with
/// `let node_N = ...`, if any, and the node ids it names otherwise.
pub struct WasmLine {
    pub text: Seq<char>,
    pub declares: Option<nat>,
    pub names: Seq<nat>,
}

/// The text of a sequence of lines.
pub open spec fn render_lines(lines: Seq<WasmLine>) -> Seq<char>
    decreases lines.len(),
{
    if lines.len() == 0 {
        Seq::empty()
    } else {
        render_lines(lines.drop_last()) + lines.last().text
    }
}

/// A line that declares node `id`.
pub open spec fn declaring(text: Seq<char>, id: nat) -> WasmLine {
    WasmLine { text, declares: Some(id), names: Seq::empty() }
}

/// A line that names the given ids.
pub open spec fn naming(text: Seq<char>, ids: Seq<nat>) -> WasmLine {
    WasmLine { text, declares: None, names: ids }
}

/// The attribute and event lines of node `id`; each names `id`.
pub open spec fn attr_lines(attrs: Seq<(Seq<char>, AttrView)>, id: nat) -> Seq<WasmLine>
    decreases attrs.len(),
{
    if attrs.len() == 0 {
        Seq::empty()
    } else {
        attr_lines(attrs.drop_last(), id).push(naming(wasm_attr(id, attrs.last()), seq![id]))
    }
}

/// The `append_child` line of node `id`, naming the parent and `id`.
pub open spec fn append_lines(parent: Option<nat>, id: nat) -> Seq<WasmLine> {
    match parent {
        Some(p) => seq![naming(append_line(parent, id), seq![p, id])],
        None => Seq::empty(),
    }
}

/// The lines of the code of a node, as `wasm_node` writes them.
pub open spec fn node_lines(node: UiView, parent: Option<nat>, counter: nat) -> Seq<WasmLine>
    decreases node,
{
    let id = counter;
    let next = next_id(counter);
    match node {
        UiView::Expression(e) => seq![declaring(wasm_text_node(id, e), id)] + append_lines(
            parent,
            id,
        ),
        UiView::If { condition, children } => seq![
            naming("if "@ + condition + " {\n"@, Seq::empty()),
        ] + children_lines(children, parent, next) + seq![naming("}\n"@, Seq::empty())],
        UiView::For { item_name, collection, children } => seq![
            naming("for "@ + item_name + " in "@ + collection + " {\n"@, Seq::empty()),
        ] + children_lines(children, parent, next) + seq![naming("}\n"@, Seq::empty())],
        UiView::Element { tag, attributes, children } => seq![
            declaring(wasm_create_node(id, tag), id),
        ] + attr_lines(attributes, id) + children_lines(children, Some(id), next) + append_lines(
            parent,
            id,
        ),
    }
}

/// The lines of the code of each child in turn.
pub open spec fn children_lines(children: Seq<UiView>, parent: Option<nat>, counter: nat) -> Seq<
    WasmLine,
>
    decreases children,
{
    if children.len() == 0 {
        Seq::empty()
    } else {
        let k1 = wasm_children(children.drop_last(), parent, counter).1;
        children_lines(children.drop_last(), parent, counter) + node_lines(
            children.last(),
            parent,
            k1,
        )
    }
}

proof fn lemma_render_concat(a: Seq<WasmLine>, b: Seq<WasmLine>)
    ensures
        render_lines(a + b) == render_lines(a) + render_lines(b),
    decreases b.len(),
{
    if b.len() == 0 {
        assert(a + b =~= a);
        assert(render_lines(a) + render_lines(b) =~= render_lines(a));
    } else {
        lemma_render_concat(a, b.drop_last());
        assert((a + b).drop_last() =~= a + b.drop_last());
        assert((a + b).last() == b.last());
        assert(render_lines(a + b) =~= render_lines(a) + render_lines(b));
    }
}

proof fn lemma_render_one(l: WasmLine)
    ensures
        render_lines(seq![l]) == l.text,
{
    assert(seq![l].drop_last() =~= Seq::<WasmLine>::empty());
    assert(render_lines(Seq::<WasmLine>::empty()) =~= Seq::<char>::empty());
    assert(render_lines(seq![l]) =~= l.text);
}

proof fn lemma_render_attrs(attrs: Seq<(Seq<char>, AttrView)>, id: nat)
    ensures
        render_lines(attr_lines(attrs, id)) == wasm_attrs(attrs, id),
    decreases attrs.len(),
{
    if attrs.len() > 0 {
        lemma_render_attrs(attrs.drop_last(), id);
        let l = attr_lines(attrs, id);
        assert(l.drop_last() =~= attr_lines(attrs.drop_last(), id));
    }
}

proof fn lemma_render_append(parent: Option<nat>, id: nat)
    ensures
        render_lines(append_lines(parent, id)) == append_line(parent, id),
{
    match parent {
        Some(p) => {
            lemma_render_one(naming(append_line(parent, id), seq![p, id]));
        },
        None => {},
    }
}

/// The lines of a node are the code that the generator writes for it.
pub proof fn law_lines_render_node(node: UiView, parent: Option<nat>, counter: nat)
    ensures
        render_lines(node_lines(node, parent, counter)) == wasm_node(node, parent, counter).0,
    decreases node, 1nat,
{
    let id = counter;
    let next = next_id(counter);
    lemma_render_append(parent, id);
    match node {
        UiView::Expression(e) => {
            let d = declaring(wasm_text_node(id, e), id);
            lemma_render_one(d);
            lemma_render_concat(seq![d], append_lines(parent, id));
        },
        UiView::If { condition, children } => {
            let o = naming("if "@ + condition + " {\n"@, Seq::empty());
            let c = naming("}\n"@, Seq::empty());
            let body = children_lines(children, parent, next);
            law_lines_render_children(children, parent, next);
            lemma_render_one(o);
            lemma_render_one(c);
            lemma_render_concat(seq![o], body);
            lemma_render_concat(seq![o] + body, seq![c]);
            assert(render_lines(node_lines(node, parent, counter)) =~= wasm_node(
                node,
                parent,
                counter,
            ).0);
        },
        UiView::For { item_name, collection, children } => {
            let o = naming("for "@ + item_name + " in "@ + collection + " {\n"@, Seq::empty());
            let c = naming("}\n"@, Seq::empty());
            let body = children_lines(children, parent, next);
            law_lines_render_children(children, parent, next);
            lemma_render_one(o);
            lemma_render_one(c);
            lemma_render_concat(seq![o], body);
            lemma_render_concat(seq![o] + body, seq![c]);
            assert(render_lines(node_lines(node, parent, counter)) =~= wasm_node(
                node,
                parent,
                counter,
            ).0);
        },
        UiView::Element { tag, attributes, children } => {
            let d = declaring(wasm_create_node(id, tag), id);
            let a = attr_lines(attributes, id);
            let body = children_lines(children, Some(id), next);
            let p = append_lines(parent, id);
            law_lines_render_children(children, Some(id), next);
            lemma_render_attrs(attributes, id);
            lemma_render_one(d);
            lemma_render_concat(seq![d], a);
            lemma_render_concat(seq![d] + a, body);
            lemma_render_concat(seq![d] + a + body, p);
            assert(render_lines(node_lines(node, parent, counter)) =~= wasm_node(
                node,
                parent,
                counter,
            ).0);
        },
    }
}

/// The lines of a sequence of trees are the code written for them.
pub proof fn law_lines_render_children(children: Seq<UiView>, parent: Option<nat>, counter: nat)
    ensures
        render_lines(children_lines(children, parent, counter)) == wasm_children(
            children,
            parent,
            counter,
        ).0,
    decreases children, 0nat,
{
    if children.len() > 0 {
        let k1 = wasm_children(children.drop_last(), parent, counter).1;
        law_lines_render_children(children.drop_last(), parent, counter);
        law_lines_render_node(children.last(), parent, k1);
        lemma_render_concat(
            children_lines(children.drop_last(), parent, counter),
            node_lines(children.last(), parent, k1),
        );
    }
}

/// Every id that a line declares lies in `[lo, hi)`.
pub open spec fn declares_within(lines: Seq<WasmLine>, lo: nat, hi: nat) -> bool {
    forall|i: int|
        0 <= i < lines.len() && (#[trigger] lines[i]).declares is Some ==> lo <= lines[i].declares->0
            < hi
}

/// The lines declare their ids in increasing order, so none twice.
pub open spec fn declares_increasing(lines: Seq<WasmLine>) -> bool {
    forall|i: int, j: int|
        0 <= i < j < lines.len() && (#[trigger] lines[i]).declares is Some && (#[trigger] lines[
            j]).declares is Some ==> lines[i].declares->0 < lines[j].declares->0
}

/// No line declares an id.
pub open spec fn declares_nothing(lines: Seq<WasmLine>) -> bool {
    forall|i: int| 0 <= i < lines.len() ==> (#[trigger] lines[i]).declares is None
}

/// `x` is one of `known` or is declared by one of the first `i` lines.
pub open spec fn known_at(lines: Seq<WasmLine>, known: Set<nat>, i: int, x: nat) -> bool {
    known.contains(x) || exists|j: int| 0 <= j < i && lines[j].declares == Some(x)
}

/// Every id that a line names is one of `known` or is declared by an
/// earlier line.
pub open spec fn names_declared(lines: Seq<WasmLine>, known: Set<nat>) -> bool {
    forall|i: int, u: int|
        #![trigger lines[i].names[u]]
        0 <= i < lines.len() && 0 <= u < lines[i].names.len() ==> known_at(
            lines,
            known,
            i,
            lines[i].names[u],
        )
}

/// The ids known before the code of a node: its parent's, if it has one.
pub open spec fn parent_ids(parent: Option<nat>) -> Set<nat> {
    match parent {
        Some(p) => set![p],
        None => Set::empty(),
    }
}

proof fn lemma_declares_concat(a: Seq<WasmLine>, b: Seq<WasmLine>, lo: nat, mid: nat, hi: nat)
    requires
        lo <= mid <= hi,
        declares_within(a, lo, mid),
        declares_within(b, mid, hi),
        declares_increasing(a),
        declares_increasing(b),
    ensures
        declares_within(a + b, lo, hi),
        declares_increasing(a + b),
{
    let c = a + b;
    assert forall|i: int| 0 <= i < c.len() && (#[trigger] c[i]).declares is Some implies lo
        <= c[i].declares->0 < hi by {
        if i < a.len() {
            assert(c[i] == a[i]);
        } else {
            assert(c[i] == b[i - a.len()]);
        }
    }
    assert forall|i: int, j: int|
        0 <= i < j < c.len() && (#[trigger] c[i]).declares is Some && (#[trigger] c[
            j]).declares is Some implies c[i].declares->0 < c[j].declares->0 by {
        if j < a.len() {
            assert(c[i] == a[i] && c[j] == a[j]);
        } else if i < a.len() {
            assert(c[i] == a[i] && c[j] == b[j - a.len()]);
        } else {
            assert(c[i] == b[i - a.len()] && c[j] == b[j - a.len()]);
        }
    }
}

proof fn lemma_nothing_declared(lines: Seq<WasmLine>, lo: nat)
    requires
        declares_nothing(lines),
    ensures
        declares_within(lines, lo, lo),
        declares_increasing(lines),
{
}

proof fn lemma_attr_lines(attrs: Seq<(Seq<char>, AttrView)>, id: nat)
    ensures
        declares_nothing(attr_lines(attrs, id)),
        forall|i: int, u: int|
            #![trigger attr_lines(attrs, id)[i].names[u]]
            0 <= i < attr_lines(attrs, id).len() && 0 <= u < attr_lines(attrs, id)[i].names.len()
                ==> attr_lines(attrs, id)[i].names[u] == id,
        attr_lines(attrs, id).len() == attrs.len(),
    decreases attrs.len(),
{
    if attrs.len() > 0 {
        lemma_attr_lines(attrs.drop_last(), id);
        let l = attr_lines(attrs, id);
        let init = attr_lines(attrs.drop_last(), id);
        assert forall|i: int| 0 <= i < l.len() implies (#[trigger] l[i]).declares is None by {
            if i < init.len() {
                assert(l[i] == init[i]);
            }
        }
        assert forall|i: int, u: int|
            #![trigger l[i].names[u]]
            0 <= i < l.len() && 0 <= u < l[i].names.len() implies l[i].names[u] == id by {
            if i < init.len() {
                assert(l[i] == init[i]);
            }
        }
    }
}

proof fn lemma_names_concat(a: Seq<WasmLine>, b: Seq<WasmLine>, known: Set<nat>, known_b: Set<nat>)
    requires
        names_declared(a, known),
        names_declared(b, known_b),
        forall|x: nat| #[trigger]
            known_b.contains(x) ==> known.contains(x) || exists|j: int|
                0 <= j < a.len() && a[j].declares == Some(x),
    ensures
        names_declared(a + b, known),
{
    let c = a + b;
    assert forall|i: int, u: int|
        #![trigger c[i].names[u]]
        0 <= i < c.len() && 0 <= u < c[i].names.len() implies known_at(c, known, i, c[i].names[u]) by {
        let x = c[i].names[u];
        if i < a.len() {
            assert(c[i] == a[i]);
            assert(known_at(a, known, i, a[i].names[u]));
            if !known.contains(x) {
                let j = choose|j: int| 0 <= j < i && a[j].declares == Some(x);
                assert(c[j] == a[j]);
            }
        } else {
            let ib = i - a.len();
            assert(c[i] == b[ib]);
            assert(known_at(b, known_b, ib, b[ib].names[u]));
            if known_b.contains(x) {
                if !known.contains(x) {
                    let j = choose|j: int| 0 <= j < a.len() && a[j].declares == Some(x);
                    assert(c[j] == a[j]);
                }
            } else {
                let j = choose|j: int| 0 <= j < ib && b[j].declares == Some(x);
                assert(c[j + a.len()] == b[j]);
            }
        }
    }
}

/// The code of a node declares each id once, in increasing order, all from
/// `counter` up to the id that the generator hands on; this holds as long as
/// the ids do not reach `usize::MAX`.
pub proof fn law_wasm_declared_ids(node: UiView, parent: Option<nat>, counter: nat)
    requires
        counter + node_count(node) <= usize::MAX,
    ensures
        declares_within(node_lines(node, parent, counter), counter, wasm_node(node, parent, counter).1),
        declares_increasing(node_lines(node, parent, counter)),
    decreases node, 1nat,
{
    let id = counter;
    let next = next_id(counter);
    law_wasm_ids(node, parent, counter);
    let end = wasm_node(node, parent, counter).1;
    assert(end == counter + node_count(node));
    let p = append_lines(parent, id);
    assert(declares_nothing(p));
    lemma_nothing_declared(p, end);
    match node {
        UiView::Expression(e) => {
            let d = seq![declaring(wasm_text_node(id, e), id)];
            lemma_declares_concat(d, p, counter, end, end);
        },
        UiView::If { condition, children } => {
            let o = seq![naming("if "@ + condition + " {\n"@, Seq::empty())];
            let c = seq![naming("}\n"@, Seq::empty())];
            let body = children_lines(children, parent, next);
            law_wasm_declared_children(children, parent, next);
            law_wasm_ids_children(children, parent, next);
            lemma_nothing_declared(o, next);
            lemma_nothing_declared(c, end);
            assert(declares_within(o, counter, next));
            lemma_declares_concat(o, body, counter, next, end);
            lemma_declares_concat(o + body, c, counter, end, end);
        },
        UiView::For { item_name, collection, children } => {
            let o = seq![naming("for "@ + item_name + " in "@ + collection + " {\n"@, Seq::empty())];
            let c = seq![naming("}\n"@, Seq::empty())];
            let body = children_lines(children, parent, next);
            law_wasm_declared_children(children, parent, next);
            law_wasm_ids_children(children, parent, next);
            lemma_nothing_declared(o, next);
            lemma_nothing_declared(c, end);
            assert(declares_within(o, counter, next));
            lemma_declares_concat(o, body, counter, next, end);
            lemma_declares_concat(o + body, c, counter, end, end);
        },
        UiView::Element { tag, attributes, children } => {
            let d = seq![declaring(wasm_create_node(id, tag), id)];
            let a = attr_lines(attributes, id);
            let body = children_lines(children, Some(id), next);
            law_wasm_declared_children(children, Some(id), next);
            law_wasm_ids_children(children, Some(id), next);
            lemma_attr_lines(attributes, id);
            lemma_nothing_declared(a, next);
            lemma_declares_concat(d, a, counter, next, next);
            lemma_declares_concat(d + a, body, counter, next, end);
            lemma_declares_concat(d + a + body, p, counter, end, end);
        },
    }
}

/// The same for a sequence of trees.
pub proof fn law_wasm_declared_children(children: Seq<UiView>, parent: Option<nat>, counter: nat)
    requires
        counter + nodes_count(children) <= usize::MAX,
    ensures
        declares_within(
            children_lines(children, parent, counter),
            counter,
            wasm_children(children, parent, counter).1,
        ),
        declares_increasing(children_lines(children, parent, counter)),
    decreases children, 0nat,
{
    law_wasm_ids_children(children, parent, counter);
    if children.len() > 0 {
        let init = children.drop_last();
        let k1 = wasm_children(init, parent, counter).1;
        law_wasm_ids_children(init, parent, counter);
        law_wasm_declared_children(init, parent, counter);
        law_wasm_declared_ids(children.last(), parent, k1);
        law_wasm_ids(children.last(), parent, k1);
        lemma_declares_concat(
            children_lines(init, parent, counter),
            node_lines(children.last(), parent, k1),
            counter,
            k1,
            wasm_children(children, parent, counter).1,
        );
    }
}

/// Every node id that a line of a node's code names (in an attribute, an
/// event binding or an `append_child`) is the parent's or is declared by an
/// earlier line.
pub proof fn law_wasm_named_ids(node: UiView, parent: Option<nat>, counter: nat)
    ensures
        names_declared(node_lines(node, parent, counter), parent_ids(parent)),
    decreases node, 1nat,
{
    let id = counter;
    let next = next_id(counter);
    let k = parent_ids(parent);
    let p = append_lines(parent, id);
    let k_append = k.insert(id);
    assert(names_declared(p, k_append));
    match node {
        UiView::Expression(e) => {
            let d = seq![declaring(wasm_text_node(id, e), id)];
            assert(d[0].declares == Some(id));
            lemma_names_concat(d, p, k, k_append);
        },
        UiView::If { condition, children } => {
            let o = seq![naming("if "@ + condition + " {\n"@, Seq::empty())];
            let c = seq![naming("}\n"@, Seq::empty())];
            let body = children_lines(children, parent, next);
            law_wasm_named_children(children, parent, next);
            lemma_names_concat(o, body, k, k);
            lemma_names_concat(o + body, c, k, k);
        },
        UiView::For { item_name, collection, children } => {
            let o = seq![naming("for "@ + item_name + " in "@ + collection + " {\n"@, Seq::empty())];
            let c = seq![naming("}\n"@, Seq::empty())];
            let body = children_lines(children, parent, next);
            law_wasm_named_children(children, parent, next);
            lemma_names_concat(o, body, k, k);
            lemma_names_concat(o + body, c, k, k);
        },
        UiView::Element { tag, attributes, children } => {
            let d = seq![declaring(wasm_create_node(id, tag), id)];
            let a = attr_lines(attributes, id);
            let body = children_lines(children, Some(id), next);
            law_wasm_named_children(children, Some(id), next);
            lemma_attr_lines(attributes, id);
            assert(names_declared(a, set![id]));
            assert(d[0].declares == Some(id));
            lemma_names_concat(d, a, k, set![id]);
            assert((d + a)[0].declares == Some(id));
            lemma_names_concat(d + a, body, k, set![id]);
            assert((d + a + body)[0].declares == Some(id));
            lemma_names_concat(d + a + body, p, k, k_append);
        },
    }
}

/// The same for a sequence of trees attached to `parent`.
pub proof fn law_wasm_named_children(children: Seq<UiView>, parent: Option<nat>, counter: nat)
    ensures
        names_declared(children_lines(children, parent, counter), parent_ids(parent)),
    decreases children, 0nat,
{
    if children.len() > 0 {
        let init = children.drop_last();
        let k1 = wasm_children(init, parent, counter).1;
        law_wasm_named_children(init, parent, counter);
        law_wasm_named_ids(children.last(), parent, k1);
        lemma_names_concat(
            children_lines(init, parent, counter),
            node_lines(children.last(), parent, k1),
            parent_ids(parent),
            parent_ids(parent),
        );
    }
}

} // verus!
