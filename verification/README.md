# sgs

Sout's Game Script (SGS) is a small language for describing the entities,
components and systems of an ECS game engine. This crate reads SGS programs and
checks them statically. Every function of the library is verified with Verus,
but for one trusted wrapper around `String::push`.

- `src/lexer.rs`: splitting source text into tokens (`lex`), and the byte
  offset of each character.
- `src/grammar.rs`: the grammar, as spec functions over tokens; `parse_spec`
  is what a program text reads as.
- `src/parser.rs`: `parse_program`, proved to return exactly `parse_spec`, and
  only well-formed function bodies.
- `src/ast.rs`: the syntax tree and its mathematical view.
- `src/types.rs`, `src/typing.rs`: static types and the typing rules as spec
  functions over a model of the analyzer's state.
- `src/analyzer.rs`: the static analyzer, each method proved to follow the
  typing rules.
- `src/laws.rs`: properties across operations (declarations and scopes;
  errors and warnings only accumulate; assignments to immutable variables,
  stray `break`/`continue` and `+` on strings are refused; a call raises one
  error per argument whose type clashes with its parameter's).
- `src/hint.rs`: where to point when a `;` is missing.
- `app/`: the command-line runner and the interpreter, whose values are
  floating-point numbers.
