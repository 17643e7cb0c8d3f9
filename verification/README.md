# minparser

Simple parsing tools, verified with Verus.

A string is matched against *atoms* and *tools*: patterns that a prefix of the string satisfies
or not. Every matcher states what it matches as a spec function over the characters of the
string, and its executable code is proved to return the byte length of that prefix.

## Layout

- `src/text.rs`: characters and their UTF-8 bytes; the few string operations the rest uses.
- `src/pos.rs`: `Position` (file, line, column) and how it advances over bytes.
- `src/atoms.rs`, `src/atomlist.rs`, `src/chains.rs`: the `Atom` trait, the basic atoms, and the
  sequences, alternatives, checks and (lazy) repetitions built from atoms; `MatchHelper`.
- `src/predicates.rs`, `src/utils.rs`: atoms for character classes, newlines, whitespace and
  identifiers.
- `src/tools.rs`: the `ParseTool` trait on strings, with its tools.
- `src/toolerr.rs`, `src/viewerr.rs`: tools with custom errors, and the `View` that carries a
  position through them.
- `src/view.rs`, `src/parsable.rs`: the `View` driven by tools that return data and errors.
- `src/parser.rs`: tools on a `View` that carries the data of the last match.
- `app/`: copies of the error types with their messages (`thiserror`).
- `tests/`: tests of every module, and of the laws on concrete inputs.
