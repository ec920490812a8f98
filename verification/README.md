# xeon

A verified library for the Xeon UI language: a lexer that records where each
token starts, a recursive-descent parser, React (JSX) and Wasm-engine code
generators, the multi-file bundler and syntax-error reports.

- `src/` — the library, proved with Verus against the contracts it states.
- `tests/` — tests of the library on concrete programs.
- `app/` — the `xeonc` command line tool: `init`, `build` and `dev` (a file
  watcher), which reads and writes files and calls the library.
