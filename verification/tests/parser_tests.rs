use xeon::ast::{AstNode, AttributeValue, Statement, UiNode};
use xeon::lexer::Lexer;
use xeon::parser::{parse_source, ParseError, Parser};

fn parse(src: &str) -> Result<AstNode, ParseError> {
    let lexer = Lexer::new(src);
    let mut parser = Parser::new(lexer);
    parser.parse_program()
}

pub const APP: &str = r#"import { Button, Text, Container } from "@xeon/ui";

component App() { 
    let [data, setData] = useState(["Alpha", "Beta"]);
    let [isLoading, setIsLoading] = useState(false);
    
    return <Container layout="flex">
        <Text color="white">Xeon Production Workspace</Text>
        
        <If condition="{isLoading}">
            <Text>Loading data...</Text>
        </If>
        
        <For as="item" each="{data}">
            <Button action={() => console.log(item)}>{item}</Button>
        </For>
    </Container>; 
}
"#;

fn element(node: &UiNode) -> (&str, &Vec<(String, AttributeValue)>, &Vec<UiNode>) {
    match node {
        UiNode::Element { tag, attributes, children } => (tag.as_str(), attributes, children),
        other => panic!("not an element: {:?}", other),
    }
}

#[test]
fn parses_the_starter_app() {
    let AstNode::Program { imports, components } = parse(APP).unwrap();
    assert_eq!(imports.len(), 1);
    assert_eq!(imports[0].items, vec!["Button", "Text", "Container"]);
    assert_eq!(imports[0].module, "@xeon/ui");
    assert_eq!(components.len(), 1);
    let app = &components[0];
    assert_eq!(app.name, "App");
    assert!(app.props.is_empty());
    assert_eq!(app.body.len(), 2);
    match &app.body[0] {
        Statement::StateDeclaration { state_name, setter_name, initial_value } => {
            assert_eq!(state_name, "data");
            assert_eq!(setter_name, "setData");
            assert_eq!(initial_value, "[\"Alpha\", \"Beta\"]");
        }
        other => panic!("unexpected {:?}", other),
    }
    match &app.body[1] {
        Statement::StateDeclaration { state_name, setter_name, initial_value } => {
            assert_eq!(state_name, "isLoading");
            assert_eq!(setter_name, "setIsLoading");
            assert_eq!(initial_value, "false");
        }
        other => panic!("unexpected {:?}", other),
    }
    let (tag, attrs, children) = element(&app.return_tree);
    assert_eq!(tag, "Container");
    assert_eq!(attrs.len(), 1);
    assert_eq!(attrs[0].0, "layout");
    assert!(matches!(&attrs[0].1, AttributeValue::String(s) if s == "flex"));
    assert_eq!(children.len(), 3);
    // Plain text between tags is skipped.
    let (t, a, c) = element(&children[0]);
    assert_eq!(t, "Text");
    assert!(matches!(&a[0].1, AttributeValue::String(s) if s == "white"));
    assert!(c.is_empty());
    match &children[1] {
        UiNode::If { condition, children } => {
            // A string written "{expr}" is the expression inside.
            assert_eq!(condition, "isLoading");
            assert_eq!(children.len(), 1);
            assert_eq!(element(&children[0]).0, "Text");
        }
        other => panic!("unexpected {:?}", other),
    }
    match &children[2] {
        UiNode::For { item_name, collection, children } => {
            assert_eq!(item_name, "item");
            assert_eq!(collection, "data");
            assert_eq!(children.len(), 1);
            let (bt, ba, bc) = element(&children[0]);
            assert_eq!(bt, "Button");
            assert_eq!(ba[0].0, "action");
            assert!(matches!(&ba[0].1, AttributeValue::Expression(e) if e == "() => console.log(item)"));
            assert_eq!(bc.len(), 1);
            assert!(matches!(&bc[0], UiNode::Expression(e) if e == "item"));
        }
        other => panic!("unexpected {:?}", other),
    }
}

#[test]
fn string_initial_value_is_quoted() {
    let AstNode::Program { components, .. } =
        parse("component A() { let [theme, setTheme] = useState(\"dark\"); return <X/>; }").unwrap();
    match &components[0].body[0] {
        Statement::StateDeclaration { initial_value, .. } => assert_eq!(initial_value, "\"dark\""),
        other => panic!("unexpected {:?}", other),
    }
    let (tag, attrs, children) = element(&components[0].return_tree);
    assert_eq!(tag, "X");
    assert!(attrs.is_empty() && children.is_empty());
}

#[test]
fn component_without_return_gets_error_tree() {
    let AstNode::Program { components, .. } = parse("component Empty() { }").unwrap();
    assert_eq!(components.len(), 1);
    assert_eq!(element(&components[0].return_tree).0, "Error");
}

#[test]
fn if_and_for_defaults_and_expressions() {
    let AstNode::Program { components, .. } = parse(
        "component A() { return <Box><If><T/></If><For each={rows} as={r}></For><If condition={ok} condition={ready}></If></Box>; }",
    )
    .unwrap();
    let (_, _, children) = element(&components[0].return_tree);
    assert!(matches!(&children[0], UiNode::If { condition, children } if condition == "false" && children.len() == 1));
    assert!(matches!(&children[1], UiNode::For { item_name, collection, .. } if item_name == "r" && collection == "rows"));
    // The last `condition` wins.
    assert!(matches!(&children[2], UiNode::If { condition, .. } if condition == "ready"));
}

#[test]
fn for_without_attributes_uses_defaults() {
    let AstNode::Program { components, .. } = parse("component A() { return <For></For>; }").unwrap();
    assert!(matches!(&components[0].return_tree, UiNode::For { item_name, collection, children }
        if item_name == "item" && collection == "[]" && children.is_empty()));
}

#[test]
fn attribute_without_value_is_dropped() {
    let AstNode::Program { components, .. } = parse("component A() { return <Input disabled name=\"n\"/>; }").unwrap();
    let (_, attrs, _) = element(&components[0].return_tree);
    assert_eq!(attrs.len(), 1);
    assert_eq!(attrs[0].0, "name");
}

#[test]
fn nested_braces_and_strings_in_expression() {
    let AstNode::Program { components, .. } =
        parse("component A() { return <B on={(a, b) => f({x}, \"s\")}/>; }").unwrap();
    let (_, attrs, _) = element(&components[0].return_tree);
    assert!(matches!(&attrs[0].1, AttributeValue::Expression(e) if e == "(a, b) => f({x}, \"s\")"));
}

#[test]
fn mismatched_closing_tag() {
    let err = parse("component App() {\n  return <Container>\n  </Containers>;\n}\n").unwrap_err();
    assert_eq!(err.message, "Mismatched closing tag. Expected </Container>, found </Containers>");
    assert_eq!((err.line, err.col), (3, 5));
}

#[test]
fn expected_tag_name() {
    let err = parse("component A() { return < 5 />; }").unwrap_err();
    assert_eq!(err.message, "Expected Tag Name after '<'");
    assert_eq!((err.line, err.col), (1, 26));
}

#[test]
fn expected_attribute_name() {
    let err = parse("component A() { return <B \"x\"/>; }").unwrap_err();
    assert_eq!(err.message, "Expected attribute name");
    assert_eq!((err.line, err.col), (1, 27));
}

#[test]
fn expected_value_after_equals() {
    let err = parse("component A() { return <B x=y/>; }").unwrap_err();
    assert_eq!(err.message, "Expected string literal or expression after '='");
    assert_eq!((err.line, err.col), (1, 29));
}

#[test]
fn expected_closing_tag_name() {
    let err = parse("component A() { return <B></>; }").unwrap_err();
    assert_eq!(err.message, "Expected closing tag name");
    assert_eq!((err.line, err.col), (1, 29));
}

#[test]
fn unterminated_import_list() {
    let err = parse("import { A, B\n").unwrap_err();
    assert_eq!(err.message, "Unterminated import list: expected '}'");
    assert_eq!((err.line, err.col), (2, 1));
}

#[test]
fn stray_tokens_between_items_are_skipped() {
    let AstNode::Program { imports, components } =
        parse("; 7 import {A} from \"./A\"; component 5 component B() { foo; return <C/>; }").unwrap();
    assert_eq!(imports.len(), 1);
    assert_eq!(imports[0].module, "./A");
    assert_eq!(components.len(), 1);
    assert_eq!(components[0].name, "B");
}

#[test]
fn empty_source_is_an_empty_program() {
    let AstNode::Program { imports, components } = parse("").unwrap();
    assert!(imports.is_empty() && components.is_empty());
}

#[test]
fn second_parse_of_same_parser_is_empty() {
    let mut parser = Parser::new(Lexer::new("component A() { return <B/>; }"));
    let first = parser.parse_program().unwrap();
    let AstNode::Program { components, .. } = first;
    assert_eq!(components.len(), 1);
    let AstNode::Program { imports, components } = parser.parse_program().unwrap();
    assert!(imports.is_empty() && components.is_empty());
}

#[test]
fn clone_copies_the_tree() {
    let AstNode::Program { components, .. } = parse(APP).unwrap();
    let copy = components[0].return_tree.clone();
    assert_eq!(format!("{:?}", copy), format!("{:?}", components[0].return_tree));
}

#[test]
fn parse_source_matches_lexer_and_parser() {
    let a = parse(APP).unwrap();
    let b = parse_source(APP).unwrap();
    assert_eq!(format!("{:?}", a), format!("{:?}", b));
    let e = parse_source("import {").unwrap_err();
    assert_eq!(e.message, "Unterminated import list: expected '}'");
    assert_eq!((e.line, e.col), (1, 9));
}

#[test]
fn state_initial_value_keeps_its_text() {
    let AstNode::Program { components, .. } = parse(
        "component A() { let [n, setN] = useState(f(1, 2)); let [e, setE] = useState(); let [s, setS] = useState(\"x\"); return <B/>; }",
    )
    .unwrap();
    let inits: Vec<String> = components[0]
        .body
        .iter()
        .map(|s| match s {
            Statement::StateDeclaration { initial_value, .. } => initial_value.clone(),
            other => panic!("unexpected {:?}", other),
        })
        .collect();
    assert_eq!(inits, vec!["f(1, 2)", "", "\"x\""]);
}

#[test]
fn braced_strings_on_if_and_for() {
    let AstNode::Program { components, .. } = parse(
        "component A() { return <Box><If condition=\"ok\"></If><For as=\"{it}\" each=\"{}\"></For></Box>; }",
    )
    .unwrap();
    let (_, _, children) = element(&components[0].return_tree);
    assert!(matches!(&children[0], UiNode::If { condition, .. } if condition == "\"ok\""));
    assert!(matches!(&children[1], UiNode::For { item_name, collection, .. } if item_name == "it" && collection.is_empty()));
}
