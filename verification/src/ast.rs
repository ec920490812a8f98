//! The syntax tree of a Xeon program, and its mathematical model.
//!
//! Every executable type has a view (`@`) in which strings are `Seq<char>` and
//! vectors are `Seq`s of views; all contracts of the lexer, the parser and the
//! code generators are stated over these views.
use vstd::prelude::*;

verus! {

/// The type of a component property.
#[derive(Debug, Clone, PartialEq)]
pub enum XeonType {
    String,
    Number,
    Boolean,
    Custom(String),
}

/// A component property.
#[derive(Debug, Clone)]
pub struct Prop {
    pub name: String,
    pub prop_type: XeonType,
}

/// A statement in a component body.
#[derive(Debug, Clone)]
pub enum Statement {
    StateDeclaration { state_name: String, setter_name: String, initial_value: String },
    Expression(String),
}

/// `import { items } from "module";`
#[derive(Debug)]
pub struct ImportNode {
    pub items: Vec<String>,
    pub module: String,
}

/// The value of a tag attribute: a quoted string or a braced expression.
#[derive(Debug, Clone)]
pub enum AttributeValue {
    String(String),
    Expression(String),
}

/// A whole program: its imports and its components.
#[derive(Debug, Clone)]
pub enum AstNode {
    Program { imports: Vec<ImportNode>, components: Vec<ComponentNode> },
}

/// `component Name() { body; return <tree>; }`
#[derive(Debug, Clone)]
pub struct ComponentNode {
    pub name: String,
    pub props: Vec<Prop>,
    pub body: Vec<Statement>,
    pub return_tree: UiNode,
}

/// A node of the returned UI tree, with the two control-flow forms.
#[derive(Debug)]
pub enum UiNode {
    Element { tag: String, attributes: Vec<(String, AttributeValue)>, children: Vec<UiNode> },
    Expression(String),
    If { condition: String, children: Vec<UiNode> },
    For { item_name: String, collection: String, children: Vec<UiNode> },
}

/// A back end that turns a program into target source text.
pub trait XeonGenerator {
    fn generate(&self, ast: &AstNode) -> Result<String, String>;
}

impl Clone for UiNode {
    /// A deep copy: the copy has the same model.
    fn clone(&self) -> (res: Self)
        ensures
            res@ == self@,
        decreases self,
    {
        proof {
            lemma_children_view(self);
        }
        match self {
            UiNode::Element { tag, attributes, children } => {
                let res = UiNode::Element {
                    tag: tag.clone(),
                    attributes: clone_attributes(attributes),
                    children: clone_nodes(children),
                };
                proof {
                    lemma_children_view(&res);
                }
                res
            },
            UiNode::Expression(e) => UiNode::Expression(e.clone()),
            UiNode::If { condition, children } => {
                let res = UiNode::If { condition: condition.clone(), children: clone_nodes(children) };
                proof {
                    lemma_children_view(&res);
                }
                res
            },
            UiNode::For { item_name, collection, children } => {
                let res = UiNode::For {
                    item_name: item_name.clone(),
                    collection: collection.clone(),
                    children: clone_nodes(children),
                };
                proof {
                    lemma_children_view(&res);
                }
                res
            },
        }
    }
}

impl Clone for ImportNode {
    /// A deep copy: the copy has the same model.
    fn clone(&self) -> (res: Self)
        ensures
            res@ == self@,
    {
        let mut items: Vec<String> = Vec::new();
        let mut i: usize = 0;
        while i < self.items.len()
            invariant
                i <= self.items.len(),
                items@.len() == i,
                strings_view(items@) == strings_view(self.items@).take(i as int),
            decreases self.items.len() - i,
        {
            let ghost before = items@;
            items.push(self.items[i].clone());
            assert(strings_view(items@) =~= strings_view(self.items@).take(i + 1));
            i = i + 1;
        }
        assert(strings_view(self.items@).take(self.items.len() as int) =~= strings_view(self.items@));
        ImportNode { items, module: self.module.clone() }
    }
}

fn clone_attribute(a: &AttributeValue) -> (res: AttributeValue)
    ensures
        res@ == a@,
{
    match a {
        AttributeValue::String(s) => AttributeValue::String(s.clone()),
        AttributeValue::Expression(e) => AttributeValue::Expression(e.clone()),
    }
}

fn clone_attributes(v: &Vec<(String, AttributeValue)>) -> (res: Vec<(String, AttributeValue)>)
    ensures
        attrs_view(res@) == attrs_view(v@),
{
    let mut res: Vec<(String, AttributeValue)> = Vec::new();
    let mut i: usize = 0;
    while i < v.len()
        invariant
            i <= v.len(),
            res@.len() == i,
            attrs_view(res@) == attrs_view(v@).take(i as int),
        decreases v.len() - i,
    {
        let k = v[i].0.clone();
        let a = clone_attribute(&v[i].1);
        let ghost old_res = res@;
        res.push((k, a));
        assert(res@ == old_res.push((k, a)));
        assert(attrs_view(res@)[i as int] == attrs_view(v@)[i as int]);
        i = i + 1;
        assert(attrs_view(res@) =~= attrs_view(v@).take(i as int));
    }
    assert(attrs_view(v@).take(v.len() as int) =~= attrs_view(v@));
    res
}

fn clone_nodes(v: &Vec<UiNode>) -> (res: Vec<UiNode>)
    ensures
        nodes_view(res@) == nodes_view(v@),
    decreases v,
{
    let mut res: Vec<UiNode> = Vec::new();
    let mut i: usize = 0;
    while i < v.len()
        invariant
            i <= v.len(),
            res@.len() == i,
            nodes_view(res@) == nodes_view(v@).take(i as int),
        decreases v.len() - i,
    {
        let c = v[i].clone();
        assert(c@ == v@[i as int]@);
        let ghost old_res = res@;
        res.push(c);
        assert(res@ == old_res.push(c));
        assert(nodes_view(res@)[i as int] == nodes_view(v@)[i as int]);
        i = i + 1;
        assert(nodes_view(res@) =~= nodes_view(v@).take(i as int));
    }
    assert(nodes_view(v@).take(v.len() as int) =~= nodes_view(v@));
    res
}

// ---------------------------------------------------------------------------
// Mathematical model
// ---------------------------------------------------------------------------

/// Model of `XeonType`.
pub enum XeonTypeView {
    String,
    Number,
    Boolean,
    Custom(Seq<char>),
}

/// Model of `Prop`.
pub struct PropView {
    pub name: Seq<char>,
    pub prop_type: XeonTypeView,
}

/// Model of `Statement`.
pub enum StatementView {
    StateDeclaration { state_name: Seq<char>, setter_name: Seq<char>, initial_value: Seq<char> },
    Expression(Seq<char>),
}

/// Model of `ImportNode`.
pub struct ImportView {
    pub items: Seq<Seq<char>>,
    pub module: Seq<char>,
}

/// Model of `AttributeValue`.
pub enum AttrView {
    Str(Seq<char>),
    Expr(Seq<char>),
}

/// Model of `UiNode`.
pub enum UiView {
    Element { tag: Seq<char>, attributes: Seq<(Seq<char>, AttrView)>, children: Seq<UiView> },
    Expression(Seq<char>),
    If { condition: Seq<char>, children: Seq<UiView> },
    For { item_name: Seq<char>, collection: Seq<char>, children: Seq<UiView> },
}

/// Model of `ComponentNode`.
pub struct ComponentView {
    pub name: Seq<char>,
    pub props: Seq<PropView>,
    pub body: Seq<StatementView>,
    pub return_tree: UiView,
}

/// Model of `AstNode`.
pub struct ProgramView {
    pub imports: Seq<ImportView>,
    pub components: Seq<ComponentView>,
}

impl View for XeonType {
    type V = XeonTypeView;

    open spec fn view(&self) -> XeonTypeView {
        match self {
            XeonType::String => XeonTypeView::String,
            XeonType::Number => XeonTypeView::Number,
            XeonType::Boolean => XeonTypeView::Boolean,
            XeonType::Custom(s) => XeonTypeView::Custom(s@),
        }
    }
}

impl View for Prop {
    type V = PropView;

    open spec fn view(&self) -> PropView {
        PropView { name: self.name@, prop_type: self.prop_type@ }
    }
}

impl View for Statement {
    type V = StatementView;

    open spec fn view(&self) -> StatementView {
        match self {
            Statement::StateDeclaration { state_name, setter_name, initial_value } =>
                StatementView::StateDeclaration {
                    state_name: state_name@,
                    setter_name: setter_name@,
                    initial_value: initial_value@,
                },
            Statement::Expression(e) => StatementView::Expression(e@),
        }
    }
}

impl View for ImportNode {
    type V = ImportView;

    open spec fn view(&self) -> ImportView {
        ImportView { items: strings_view(self.items@), module: self.module@ }
    }
}

impl View for AttributeValue {
    type V = AttrView;

    open spec fn view(&self) -> AttrView {
        match self {
            AttributeValue::String(s) => AttrView::Str(s@),
            AttributeValue::Expression(e) => AttrView::Expr(e@),
        }
    }
}

impl View for UiNode {
    type V = UiView;

    open spec fn view(&self) -> UiView
        decreases self,
    {
        match self {
            UiNode::Element { tag, attributes, children } => UiView::Element {
                tag: tag@,
                attributes: attrs_view(attributes@),
                children: Seq::new(
                    children.len() as nat,
                    |i: int|
                        if 0 <= i < children.len() {
                            children@[i].view()
                        } else {
                            UiView::Expression(Seq::empty())
                        },
                ),
            },
            UiNode::Expression(e) => UiView::Expression(e@),
            UiNode::If { condition, children } => UiView::If {
                condition: condition@,
                children: Seq::new(
                    children.len() as nat,
                    |i: int|
                        if 0 <= i < children.len() {
                            children@[i].view()
                        } else {
                            UiView::Expression(Seq::empty())
                        },
                ),
            },
            UiNode::For { item_name, collection, children } => UiView::For {
                item_name: item_name@,
                collection: collection@,
                children: Seq::new(
                    children.len() as nat,
                    |i: int|
                        if 0 <= i < children.len() {
                            children@[i].view()
                        } else {
                            UiView::Expression(Seq::empty())
                        },
                ),
            },
        }
    }
}

impl View for ComponentNode {
    type V = ComponentView;

    open spec fn view(&self) -> ComponentView {
        ComponentView {
            name: self.name@,
            props: Seq::new(self.props.len() as nat, |i: int| self.props@[i]@),
            body: statements_view(self.body@),
            return_tree: self.return_tree@,
        }
    }
}

impl View for AstNode {
    type V = ProgramView;

    open spec fn view(&self) -> ProgramView {
        match self {
            AstNode::Program { imports, components } => ProgramView {
                imports: imports_view(imports@),
                components: components_view(components@),
            },
        }
    }
}

/// The models of a sequence of strings.
pub open spec fn strings_view(v: Seq<String>) -> Seq<Seq<char>> {
    Seq::new(v.len(), |i: int| v[i]@)
}

/// The models of a sequence of attributes.
pub open spec fn attrs_view(v: Seq<(String, AttributeValue)>) -> Seq<(Seq<char>, AttrView)> {
    Seq::new(v.len(), |i: int| (v[i].0@, v[i].1@))
}

/// The models of a sequence of UI nodes.
pub open spec fn nodes_view(v: Seq<UiNode>) -> Seq<UiView> {
    Seq::new(v.len(), |i: int| v[i]@)
}

/// The models of a sequence of statements.
pub open spec fn statements_view(v: Seq<Statement>) -> Seq<StatementView> {
    Seq::new(v.len(), |i: int| v[i]@)
}

/// The models of a sequence of imports.
pub open spec fn imports_view(v: Seq<ImportNode>) -> Seq<ImportView> {
    Seq::new(v.len(), |i: int| v[i]@)
}

/// The models of a sequence of components.
pub open spec fn components_view(v: Seq<ComponentNode>) -> Seq<ComponentView> {
    Seq::new(v.len(), |i: int| v[i]@)
}

/// The children of a UI node (none for an expression).
pub open spec fn children_of(n: UiView) -> Seq<UiView> {
    match n {
        UiView::Element { children, .. } => children,
        UiView::Expression(_) => Seq::empty(),
        UiView::If { children, .. } => children,
        UiView::For { children, .. } => children,
    }
}

/// The children of an executable node have as models the children of its model.
pub proof fn lemma_children_view(n: &UiNode)
    ensures
        match n {
            UiNode::Element { children, .. } => nodes_view(children@) == children_of(n@),
            UiNode::If { children, .. } => nodes_view(children@) == children_of(n@),
            UiNode::For { children, .. } => nodes_view(children@) == children_of(n@),
            UiNode::Expression(_) => children_of(n@) == Seq::<UiView>::empty(),
        },
{
    match n {
        UiNode::Element { children, .. } => {
            assert(nodes_view(children@) =~= children_of(n@));
        },
        UiNode::If { children, .. } => {
            assert(nodes_view(children@) =~= children_of(n@));
        },
        UiNode::For { children, .. } => {
            assert(nodes_view(children@) =~= children_of(n@));
        },
        UiNode::Expression(_) => {
            assert(children_of(n@) =~= Seq::<UiView>::empty());
        },
    }
}

/// Pushing onto a sequence pushes the model onto its models.
pub proof fn lemma_push_strings(v: Seq<String>, x: String)
    ensures
        strings_view(v.push(x)) == strings_view(v).push(x@),
{
    assert(strings_view(v.push(x)) =~= strings_view(v).push(x@));
}

pub proof fn lemma_push_attrs(v: Seq<(String, AttributeValue)>, x: (String, AttributeValue))
    ensures
        attrs_view(v.push(x)) == attrs_view(v).push((x.0@, x.1@)),
{
    assert(attrs_view(v.push(x)) =~= attrs_view(v).push((x.0@, x.1@)));
}

pub proof fn lemma_push_nodes(v: Seq<UiNode>, x: UiNode)
    ensures
        nodes_view(v.push(x)) == nodes_view(v).push(x@),
{
    assert(nodes_view(v.push(x)) =~= nodes_view(v).push(x@));
}

pub proof fn lemma_push_statements(v: Seq<Statement>, x: Statement)
    ensures
        statements_view(v.push(x)) == statements_view(v).push(x@),
{
    assert(statements_view(v.push(x)) =~= statements_view(v).push(x@));
}

pub proof fn lemma_push_imports(v: Seq<ImportNode>, x: ImportNode)
    ensures
        imports_view(v.push(x)) == imports_view(v).push(x@),
{
    assert(imports_view(v.push(x)) =~= imports_view(v).push(x@));
}

pub proof fn lemma_push_components(v: Seq<ComponentNode>, x: ComponentNode)
    ensures
        components_view(v.push(x)) == components_view(v).push(x@),
{
    assert(components_view(v.push(x)) =~= components_view(v).push(x@));
}

/// The models of empty sequences are empty.
pub proof fn lemma_empty_views()
    ensures
        strings_view(Seq::<String>::empty()) == Seq::<Seq<char>>::empty(),
        attrs_view(Seq::<(String, AttributeValue)>::empty()) == Seq::<(Seq<char>, AttrView)>::empty(),
        nodes_view(Seq::<UiNode>::empty()) == Seq::<UiView>::empty(),
        statements_view(Seq::<Statement>::empty()) == Seq::<StatementView>::empty(),
        imports_view(Seq::<ImportNode>::empty()) == Seq::<ImportView>::empty(),
        components_view(Seq::<ComponentNode>::empty()) == Seq::<ComponentView>::empty(),
{
    assert(strings_view(Seq::<String>::empty()) =~= Seq::<Seq<char>>::empty());
    assert(attrs_view(Seq::<(String, AttributeValue)>::empty()) =~= Seq::<(Seq<char>, AttrView)>::empty());
    assert(nodes_view(Seq::<UiNode>::empty()) =~= Seq::<UiView>::empty());
    assert(statements_view(Seq::<Statement>::empty()) =~= Seq::<StatementView>::empty());
    assert(imports_view(Seq::<ImportNode>::empty()) =~= Seq::<ImportView>::empty());
    assert(components_view(Seq::<ComponentNode>::empty()) =~= Seq::<ComponentView>::empty());
}

} // verus!
