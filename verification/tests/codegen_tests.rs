use xeon::ast::{AstNode, AttributeValue, XeonGenerator, UiNode};
use xeon::bundle::{generate_for_target, output_path};
use xeon::codegen_js::ReactJsGenerator;
use xeon::codegen_wasm::WasmEngineGenerator;
use xeon::lexer::Lexer;
use xeon::parser::Parser;

const APP: &str = r#"import { Button, Text, Container } from "@xeon/ui";

component App() { 
    let [data, setData] = useState(["Alpha", "Beta"]);
    let [isLoading, setIsLoading] = useState(false);
    
    return <Container layout="flex">
        <Text color="white">Xeon Production Workspace</Text>
        
        <If condition="{isLoading}">
            <Text>Loading data...</Text>
        </If>
        
        <For as="item" each="{data}">
            <Button action={() => console.log(item)}>{item}</Button>
        </For>
    </Container>; 
}
"#;

fn parse(src: &str) -> AstNode {
    Parser::new(Lexer::new(src)).parse_program().unwrap()
}

fn expected_js() -> String {
    let ui = String::new()
        + "  <Container layout=\"flex\">\n"
        + "    <Text color=\"white\" />\n"
        + "    {\n"
        + "isLoading ? (\n"
        + "    <>\n"
        + "      <Text />\n"
        + "    </>\n"
        + "    ) : null\n"
        + "    }\n"
        + "    {\n"
        + "data.map((item) => (\n"
        + "    <>\n"
        + "      <Button action={() => console.log(item)}>\n"
        + "        {item}\n"
        + "      </Button>\n"
        + "    </>\n"
        + "    ))\n"
        + "    }\n"
        + "  </Container>";
    String::new()
        + "import { useState } from 'react';\n"
        + "import { Button, Text, Container } from \"@xeon/ui\";\n"
        + "\n"
        + "export default function App() {\n"
        + "  const [data, setData] = useState([\"Alpha\", \"Beta\"]);\n"
        + "  const [isLoading, setIsLoading] = useState(false);\n"
        + "\n  return (\n"
        + &ui
        + "\n  );\n}\n"
}

fn expected_wasm() -> String {
    String::new()
        + "// Target: Custom Rust Browser Engine (Wasm FFI)\n"
        + "// Wasm Module Loaded: Button, Text, Container from \"@xeon/ui\"\n"
        + "\n// Component: App\n"
        + "xeon_sys::allocate_state(\"data\", \"setData\", [\"Alpha\", \"Beta\"]);\n"
        + "xeon_sys::allocate_state(\"isLoading\", \"setIsLoading\", false);\n"
        + "let node_0 = xeon_sys::create_node(\"Container\");\n"
        + "xeon_sys::set_attribute(node_0, \"layout\", \"flex\");\n"
        + "let node_1 = xeon_sys::create_node(\"Text\");\n"
        + "xeon_sys::set_attribute(node_1, \"color\", \"white\");\n"
        + "xeon_sys::append_child(node_0, node_1);\n"
        + "if isLoading {\n"
        + "let node_3 = xeon_sys::create_node(\"Text\");\n"
        + "xeon_sys::append_child(node_0, node_3);\n"
        + "}\n"
        + "for item in data {\n"
        + "let node_5 = xeon_sys::create_node(\"Button\");\n"
        + "xeon_sys::bind_event(node_5, \"action\", Box::new(|| { console.log(item); }));\n"
        + "let node_6 = xeon_sys::create_text_node(&item);\n"
        + "xeon_sys::append_child(node_5, node_6);\n"
        + "xeon_sys::append_child(node_0, node_5);\n"
        + "}\n"
}

#[test]
fn react_output_of_starter_app() {
    let out = ReactJsGenerator.generate(&parse(APP)).unwrap();
    assert_eq!(out, expected_js());
}

#[test]
fn wasm_output_of_starter_app() {
    let out = WasmEngineGenerator.generate(&parse(APP)).unwrap();
    assert_eq!(out, expected_wasm());
}

#[test]
fn target_selects_generator_and_path() {
    let ast = parse(APP);
    assert_eq!(generate_for_target("wasm", &ast), expected_wasm());
    assert_eq!(generate_for_target("js", &ast), expected_js());
    assert_eq!(generate_for_target("anything", &ast), expected_js());
    assert_eq!(output_path("wasm"), "dist/bundle_App.rs");
    assert_eq!(output_path("js"), "dist/bundle_App.js");
}

#[test]
fn wasm_ids_one_per_node() {
    // Container, Text, If, Text, For, Button and the {item} expression: seven ids.
    let AstNode::Program { components, .. } = parse(APP);
    let mut counter = 10usize;
    let code = WasmEngineGenerator.generate_ui_tree(&components[0].return_tree, Some(3), &mut counter);
    assert_eq!(counter, 17);
    assert!(code.starts_with("let node_10 = xeon_sys::create_node(\"Container\");\n"));
    assert!(code.ends_with("xeon_sys::append_child(node_3, node_10);\n"));
}

#[test]
fn wasm_closures() {
    let mk = |e: &str| UiNode::Element {
        tag: "B".to_string(),
        attributes: vec![("on".to_string(), AttributeValue::Expression(e.to_string()))],
        children: vec![],
    };
    let gen = |e: &str| {
        let mut c = 0usize;
        WasmEngineGenerator.generate_ui_tree(&mk(e), None, &mut c)
    };
    let line = |closure: &str| {
        format!(
            "let node_0 = xeon_sys::create_node(\"B\");\nxeon_sys::bind_event(node_0, \"on\", Box::new({}));\n",
            closure
        )
    };
    assert_eq!(gen("() => go()"), line("|| { go(); }"));
    assert_eq!(gen("  (a, b)   =>  f(a)  "), line("|a, b| { f(a); }"));
    assert_eq!(gen("x => y => z"), line("|x| { y => z; }"));
    assert_eq!(gen("toggle()"), line("|| { toggle() }"));
    assert_eq!(gen("((x))=>"), line("|x| { ; }"));
}

#[test]
fn react_indents_nested_children() {
    let tree = UiNode::Element {
        tag: "A".to_string(),
        attributes: vec![
            ("x".to_string(), AttributeValue::String("1".to_string())),
            ("on".to_string(), AttributeValue::Expression("go".to_string())),
        ],
        children: vec![UiNode::Element {
            tag: "B".to_string(),
            attributes: vec![],
            children: vec![UiNode::Expression("v".to_string())],
        }],
    };
    let out = ReactJsGenerator.generate_ui_tree(&tree, 1);
    assert_eq!(out, " <A x=\"1\" on={go}>\n   <B>\n     {v}\n   </B>\n </A>");
}

#[test]
fn empty_program_outputs_headers_only() {
    let ast = parse("");
    assert_eq!(ReactJsGenerator.generate(&ast).unwrap(), "import { useState } from 'react';\n\n");
    assert_eq!(
        WasmEngineGenerator.generate(&ast).unwrap(),
        "// Target: Custom Rust Browser Engine (Wasm FFI)\n"
    );
}

#[test]
fn only_the_entry_component_is_the_default_export() {
    let ast = parse("component App() { return <Card/>; } component Card() { return <div/>; }");
    let out = ReactJsGenerator.generate(&ast).unwrap();
    let expected = String::new()
        + "import { useState } from 'react';\n"
        + "\n"
        + "export default function App() {\n"
        + "\n  return (\n  <Card />\n  );\n}\n"
        + "function Card() {\n"
        + "\n  return (\n  <div />\n  );\n}\n";
    assert_eq!(out, expected);
    assert_eq!(out.matches("export default").count(), 1);
}

#[test]
fn react_rendering_shifts_with_indent() {
    let tree = UiNode::Element {
        tag: "A".to_string(),
        attributes: vec![("on".to_string(), AttributeValue::Expression("go".to_string()))],
        children: vec![
            UiNode::Element {
                tag: "B".to_string(),
                attributes: vec![("x".to_string(), AttributeValue::String("1".to_string()))],
                children: vec![UiNode::Expression("v".to_string())],
            },
            UiNode::Element { tag: "C".to_string(), attributes: vec![], children: vec![] },
        ],
    };
    let flat = ReactJsGenerator.generate_ui_tree(&tree, 0);
    let shifted: Vec<String> = flat.split('\n').map(|line| format!("   {}", line)).collect();
    assert_eq!(ReactJsGenerator.generate_ui_tree(&tree, 3), shifted.join("\n"));
    assert_eq!(ReactJsGenerator.generate_ui_tree(&tree, 2), String::from("  ") + &flat.replace("\n", "\n  "));
}

fn node_ids(line: &str) -> Vec<usize> {
    let mut ids = Vec::new();
    let mut rest = line;
    while let Some(at) = rest.find("node_") {
        rest = &rest[at + 5..];
        let digits: String = rest.chars().take_while(|c| c.is_ascii_digit()).collect();
        if !digits.is_empty() {
            ids.push(digits.parse().unwrap());
        }
    }
    ids
}

#[test]
fn wasm_ids_declared_once_and_before_use() {
    let AstNode::Program { components, .. } = parse(APP);
    let mut counter = 10usize;
    let code = WasmEngineGenerator.generate_ui_tree(&components[0].return_tree, Some(3), &mut counter);
    let mut declared: Vec<usize> = Vec::new();
    for line in code.lines() {
        let ids = node_ids(line);
        if line.starts_with("let node_") {
            let id = ids[0];
            assert!(10 <= id && id < counter);
            assert!(!declared.contains(&id));
            declared.push(id);
        } else {
            for id in ids {
                assert!(id == 3 || declared.contains(&id), "{} names node_{} first", line, id);
            }
        }
    }
    assert_eq!(declared, vec![10, 11, 13, 15, 16]);
}
