use xeon::ast::{AstNode, ComponentNode, ImportNode, UiNode};
use xeon::bundle::{is_local, is_wasm_target, BundleStep, Bundler};
use xeon::diagnostic::render_diagnostic;
use xeon::file_id::FileId;
use xeon::lexer::Lexer;
use xeon::parser::{ParseError, Parser};

fn parse(src: &str) -> AstNode {
    Parser::new(Lexer::new(src)).parse_program().unwrap()
}

fn names(ast: &AstNode) -> Vec<String> {
    let AstNode::Program { components, .. } = ast;
    components.iter().map(|c| c.name.clone()).collect()
}

fn modules(ast: &AstNode) -> Vec<String> {
    let AstNode::Program { imports, .. } = ast;
    imports.iter().map(|i| i.module.clone()).collect()
}

#[test]
fn diagnostic_for_mismatched_tag() {
    let source = "component App() {\n  return <Container>\n  </Containers>;\n}\n";
    let err = Parser::new(Lexer::new(source)).parse_program().unwrap_err();
    let text = render_diagnostic("src/App.xeon", source, &err);
    let expected = String::new()
        + "\n\u{274C} error: Mismatched closing tag. Expected </Container>, found </Containers>\n"
        + "  --> src/App.xeon:3:5\n"
        + "    |\n"
        + "  3 |   </Containers>;\n"
        + "    |     ^-----\n"
        + "\n";
    assert_eq!(text, expected);
}

#[test]
fn diagnostic_line_out_of_range_has_no_excerpt() {
    let err = ParseError { message: "boom".to_string(), line: 7, col: 0 };
    let text = render_diagnostic("f.xeon", "one\ntwo\n", &err);
    assert_eq!(text, "\n\u{274C} error: boom\n  --> f.xeon:7:0\n\n");
    let err0 = ParseError { message: "boom".to_string(), line: 0, col: 3 };
    assert_eq!(render_diagnostic("f.xeon", "one", &err0), "\n\u{274C} error: boom\n  --> f.xeon:0:3\n\n");
}

#[test]
fn diagnostic_lines_drop_crlf_and_pad_numbers() {
    let mut source = String::new();
    for i in 1..=120 {
        source.push_str(&format!("line{}\r\n", i));
    }
    let err = ParseError { message: "m".to_string(), line: 105, col: 1 };
    let text = render_diagnostic("p", &source, &err);
    assert_eq!(text, "\n\u{274C} error: m\n  --> p:105:1\n    |\n105 | line105\n    | ^-----\n\n");
    let err2 = ParseError { message: "m".to_string(), line: 2, col: 2 };
    let text2 = render_diagnostic("p", "a\nb\r", &err2);
    assert_eq!(text2, "\n\u{274C} error: m\n  --> p:2:2\n    |\n  2 | b\r\n    |  ^-----\n\n");
}

#[test]
fn local_modules_are_relative_paths() {
    assert!(is_local(&"./Card".to_string()));
    assert!(is_local(&"../shared/Card".to_string()));
    assert!(!is_local(&"@xeon/ui".to_string()));
    assert!(!is_local(&".".to_string()));
    assert!(!is_local(&"..".to_string()));
    assert!(!is_local(&"react".to_string()));
}

#[test]
fn wasm_target_is_exactly_wasm() {
    assert!(is_wasm_target("wasm"));
    assert!(!is_wasm_target("js"));
    assert!(!is_wasm_target("wasm32"));
}

#[test]
fn bundler_walks_local_imports_depth_first() {
    let app = parse(
        "import { A } from \"@ui\"; import { Card } from \"./Card\"; import { B } from \"react\"; import { Nav } from \"../Nav\"; component App() { return <Card/>; }",
    );
    let card = parse("import { Icon } from \"./Icon\"; import { C } from \"@icons\"; component Card() { return <Icon/>; }");
    let icon = parse("component Icon() { return <svg/>; }");
    let nav = parse("import { D } from \"@ui\"; component Nav() { return <nav/>; }");

    let mut bundler = Bundler::new();
    bundler.absorb("src/App.xeon".to_string(), app);
    match bundler.next_step() {
        BundleStep::Load { from, module } => {
            assert_eq!(from, "src/App.xeon");
            assert_eq!(module, "./Card");
        }
        BundleStep::Done => panic!("expected a load"),
    }
    bundler.absorb("src/Card.xeon".to_string(), card);
    match bundler.next_step() {
        BundleStep::Load { from, module } => {
            assert_eq!(from, "src/Card.xeon");
            assert_eq!(module, "./Icon");
        }
        BundleStep::Done => panic!("expected a load"),
    }
    bundler.absorb("src/Icon.xeon".to_string(), icon);
    match bundler.next_step() {
        BundleStep::Load { from, module } => {
            assert_eq!(from, "src/App.xeon");
            assert_eq!(module, "../Nav");
        }
        BundleStep::Done => panic!("expected a load"),
    }
    bundler.absorb("Nav.xeon".to_string(), nav);
    assert!(matches!(bundler.next_step(), BundleStep::Done));
    assert!(matches!(bundler.next_step(), BundleStep::Done));
    let bundled = bundler.finish();
    assert_eq!(names(&bundled), vec!["App", "Card", "Icon", "Nav"]);
    assert_eq!(modules(&bundled), vec!["@ui", "@icons", "react", "@ui"]);
}

#[test]
fn empty_bundler_is_done() {
    let mut bundler = Bundler::new();
    assert!(matches!(bundler.next_step(), BundleStep::Done));
    let AstNode::Program { imports, components } = bundler.finish();
    assert!(imports.is_empty() && components.is_empty());
}

#[test]
fn import_clone_keeps_items() {
    let imp = ImportNode { items: vec!["A".to_string(), "B".to_string()], module: "./m".to_string() };
    let c = imp.clone();
    assert_eq!(c.items, imp.items);
    assert_eq!(c.module, imp.module);
    let comp = ComponentNode {
        name: "X".to_string(),
        props: vec![],
        body: vec![],
        return_tree: UiNode::Expression("e".to_string()),
    };
    assert_eq!(comp.clone().name, "X");
}

#[test]
fn caret_stands_under_the_error_column() {
    let source = "<A></B>";
    let err = ParseError { message: "m".to_string(), line: 1, col: 6 };
    let text = render_diagnostic("App.xeon", source, &err);
    let lines: Vec<&str> = text.lines().collect();
    assert_eq!(lines[4], "  1 | <A></B>");
    assert_eq!(lines[5].find('^'), Some(11));
    assert_eq!(&lines[4][11..12], "B");
    let err2 = ParseError { message: "m".to_string(), line: 1234, col: 1 };
    let mut long = String::new();
    for _ in 0..1234 {
        long.push_str("x\n");
    }
    let text2 = render_diagnostic("f", &long, &err2);
    assert!(text2.ends_with("     |\n1234 | x\n     | ^-----\n\n"));
}

/// Runs the bundler over in-memory files, reading the paths `xeonc` reads:
/// the importer's directory joined with the module, with the `.xeon` extension.
fn bundle_files(entry: &str, files: &[(&str, &str)]) -> (AstNode, Vec<String>) {
    let read = |path: &str| -> AstNode {
        let (_, src) = files.iter().find(|(p, _)| *p == path).expect(path);
        parse(src)
    };
    let mut requested = Vec::new();
    let mut bundler = Bundler::new();
    bundler.absorb(entry.to_string(), read(entry));
    loop {
        match bundler.next_step() {
            BundleStep::Load { from, module } => {
                let base = std::path::Path::new(&from).parent().unwrap_or(std::path::Path::new(""));
                let mut dep = base.join(&module);
                dep.set_extension("xeon");
                let key = FileId::of_entry(dep.to_str().unwrap());
                let normal = files
                    .iter()
                    .map(|(p, _)| *p)
                    .find(|p| FileId::of_entry(p).same(&key))
                    .expect("module file");
                requested.push(normal.to_string());
                let program = read(normal);
                bundler.absorb(dep.to_str().unwrap().to_string(), program);
            }
            BundleStep::Done => return (bundler.finish(), requested),
        }
    }
}

#[test]
fn bundler_ends_an_import_cycle() {
    let files = [
        ("src/A.xeon", "import { B } from \"./B\";\ncomponent A() { return <B />; }"),
        ("src/B.xeon", "import { A } from \"./A\";\ncomponent B() { return <A />; }"),
    ];
    let (bundled, requested) = bundle_files("src/A.xeon", &files);
    assert_eq!(names(&bundled), vec!["A", "B"]);
    assert!(modules(&bundled).is_empty());
    assert_eq!(requested, vec!["src/B.xeon"]);
}

#[test]
fn bundler_loads_a_shared_module_once() {
    let files = [
        ("src/App.xeon", "import { B } from \"./B\"; import { C } from \"./lib/C\"; component App() { return <B/>; }"),
        ("src/B.xeon", "import { D } from \"./D\"; component B() { return <D/>; }"),
        ("src/lib/C.xeon", "import { D } from \"../D.xeon\"; import { X } from \"@ui\"; component C() { return <D/>; }"),
        ("src/D.xeon", "import { App } from \"./App\"; component D() { return <p/>; }"),
    ];
    let (bundled, requested) = bundle_files("src/App.xeon", &files);
    assert_eq!(names(&bundled), vec!["App", "B", "D", "C"]);
    assert_eq!(modules(&bundled), vec!["@ui"]);
    assert_eq!(requested, vec!["src/B.xeon", "src/D.xeon", "src/lib/C.xeon"]);
}

#[test]
fn file_ids_resolve_dots_and_extensions() {
    let app = FileId::of_entry("src/App.xeon");
    assert!(app.of_module("./Card").same(&FileId::of_entry("src/Card.xeon")));
    assert!(app.of_module("./Card.xeon").same(&FileId::of_entry("src/Card.xeon")));
    assert!(app.of_module("./ui/../Card.js").same(&FileId::of_entry("src/./Card.xeon")));
    assert!(app.of_module("../../x/Y").same(&FileId::of_entry("../x/Y.xeon")));
    assert!(app.of_module("./.hidden").same(&FileId::of_entry("src/.hidden.xeon")));
    assert!(!app.of_module("./Card").same(&FileId::of_entry("/src/Card.xeon")));
    assert!(!app.of_module("./Card").same(&FileId::of_entry("src/Card.js")));
    assert!(FileId::of_entry("src//a/./b.xeon").same(&FileId::of_entry("src/a/b.xeon")));
}
