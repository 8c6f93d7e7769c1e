# Own-Lang compiler, verified

A compiler for the small Own-Lang language (variables, functions,
conditionals and loops) down to x86-64 NASM assembly, written in Verus.
Each stage states what it does as a contract over a mathematical model:

- `src/lex`: the lexer, which reads the source byte by byte; `tokenize`
  gives exactly the tokens of `lex_all` over those bytes.
- `src/parser`: the recursive-descent parser; each parser gives the
  result and the position of its spec function (`parse_expression_spec`,
  `parse_statement_spec`, `parse_statements_spec`).
- `src/ast`: the first parser of the language, for declarations of
  literals.
- `src/semantic`: scopes, symbols and type checking; every analysis
  function gives the state of `analyze_stmt_spec` and its kin, errors
  included, word for word. `properties.rs` proves what every analysis keeps
  and what a function declaration adds to its scope.
- `src/codegen`: the code generator; every generating function gives the
  state of `gen_stmt` and its kin (`emission.rs`), line for line.
  `properties.rs` proves that labels are never reused, that a string
  literal keeps its label and is defined in the data section, that the
  code of an expression leaves the stack balanced, and the layout of a
  generated program.
- `src/text.rs`: decimal texts, text equality, and the grammars of the
  integer and floating-point literals that Rust's `str::parse` accepts.

`app/main.rs` is the command line: it reads the source file, runs the
analysis and the generator, and calls `nasm` and `ld`.
