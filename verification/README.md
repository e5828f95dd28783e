# ssl_core

The front end of SiliconScript, a hardware description language with an
indentation-based syntax: lexer, parser, syntax tree and semantic analysis,
written in Verus with every function of the library verified against its
contract, apart from two trusted items in `src/text.rs`: `debug_quote`, which
quotes a string with std's `Debug` formatting, and `debug_text`, the name for
that formatting's result.

## Layout

- `src/span.rs`, `src/text.rs`: source spans and small string helpers.
- `src/lexer/`: tokens (`token.rs`), numeric literals (`numeric.rs`), the
  tokenizer (`lex.rs`, specified by the longest-match `tokenization`
  relation), indentation into `Indent`/`Dedent` tokens (`indent.rs`, specified
  by `layout`) and token display (`debug.rs`).
- `src/ast/`: the syntax tree.
- `src/parser/`: the recursive-descent parser. The grammar it follows is
  written out as spec functions: `grammar.rs` for expressions,
  `type_grammar.rs` for types and generic parameters, `stmt_grammar.rs` for
  statements; each parsing function is proved to give exactly what its rule
  gives, value, error and position alike.
- `src/sema/`: semantic analysis. `scope.rs` is the symbol table with its view;
  `resolution.rs` states what name resolution does, as functions from a
  state of resolution to the next, and `resolve.rs` is proved to follow it;
  `eval.rs` evaluates constants; `typing.rs` holds the type rules that
  `check.rs` is proved to follow; `validate.rs` checks latches, resets,
  immutability and port connections.
- `tests/`: tests on concrete inputs.
- `app/`: the `sslc` command line (`lex` and `parse` of a file).
