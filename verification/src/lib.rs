//! Xeon: a lexer, a parser and two code generators for a small XML-like UI
//! language, with the bundler and diagnostics of its toolchain.
//!
//! - `lexer`: tokens with the line and column where they start.
//! - `grammar`: what the parser computes, as functions of the token stream.
//! - `parser`: the recursive-descent parser.
//! - `ast`: the syntax tree and its model.
//! - `codegen_js`, `codegen_wasm`: the React and Wasm-engine back ends.
//! - `wasm_lines`: the Wasm-engine code line by line, and its laws on node ids.
//! - `diagnostic`: the text of a syntax-error report.
//! - `bundle`: the multi-file bundler and the build target.
//! - `file_id`: which file a module import names, so that each is bundled once.
//! - `text`: character classes and string building blocks.
pub mod ast;
pub mod bundle;
pub mod codegen_js;
pub mod codegen_wasm;
pub mod diagnostic;
pub mod grammar;
pub mod lexer;
pub mod file_id;
pub mod parser;
pub mod text;
pub mod wasm_lines;
