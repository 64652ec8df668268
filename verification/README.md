# reconf

ReConf is a small configuration language with records, lists, options,
functions and refinement types. A file imports names from other files,
declares types and values, and ends in an output expression whose value is
emitted as JSON or as ReConf text.

## Layout

- `src/` is the library, verified with Verus: the lexer and parser, the
  lowering to the core language, type expansion and checking, the
  evaluator and its native functions, modules and imports, the emitters,
  the compiler and the REPL session, and the REPL's line handling and
  highlighting logic. `src/laws.rs`, `src/type_laws.rs` and
  `src/elab_laws.rs` state properties that span several functions.
- `tests/` exercises the library from outside.
- `app/` is the `reconf` command: argument parsing, reading files and the
  files they import, error reports, and the interactive line editor.

## Usage

```text
reconf check FILE
reconf eval FILE [--format json|reconf] [--pretty | --compact]
reconf repl
reconf --explain CODE
```
