# Nyoom, verified

Nyoom is a programming language of three tokens (`nyoom`, `nugget`, `I`). This crate
holds its scanner, parser, linker and tree-walking interpreter, each function with a
contract that Verus proves.

- `src/scan.rs`: bytes to words (each line's whitespace-separated words, then a newline
  word) to tokens; `//` opens a comment that the end of the line closes, and line ends
  and comments are skipped.
- `src/parse.rs`: tokens to instructions; the grammar is written as spec functions
  (`expr_from`, `inst_from`, `block_from`, ...) and the parser is proved to follow it.
- `src/link.rs`: import resolution as a state machine; the caller reads the files.
- `src/vm/`: values, builtins, and the interpreter, proved against a fuel-indexed
  big-step semantics (`treewalker.rs`); `laws.rs` proves properties of that semantics.
  Arithmetic stops the run on `i32` overflow; division rounds toward zero and stops the
  run on a zero divisor.
- `app/main.rs`: the shell, which reads `nyoom.nyny`, drives the linker and prints.
