# rilox

A tree-walking interpreter for Lox, with its front end verified in Verus.

## Layout

- `src/` — the verified library:
  - `token.rs` — token kinds, literals, tokens and the reserved words;
  - `scanner.rs` — the lexical grammar as spec functions over the source
    characters, the scanner proved against it, and its laws (the
    end-of-input token comes last and only last, reserved words are never
    identifiers, lines never go back);
  - `expr.rs`, `stmt.rs` — the syntax tree and its mathematical model, and
    the printed forms of expressions;
  - `grammar.rs` — the syntax as spec functions over the token sequence,
    and the law that every function the parser builds is tagged with its
    kind;
  - `parser.rs` — the recursive-descent parser, proved to compute exactly
    what `grammar.rs` states;
  - `resolution.rs` — the static resolution pass stated over the syntax
    model (scopes, slots, static errors) and its laws;
  - `resolver.rs` — the resolver proved against `resolution.rs`;
  - `native.rs` — the `array` and `floor` built-ins and the array methods;
  - `text.rs` — characters, substrings and decimal numerals.
- `app/` — the evaluator, environments, runtime values (floating-point
  numbers, shared objects), the remaining built-ins and the command line.
- `tests/` — tests of the library on concrete programs.
