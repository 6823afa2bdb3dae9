# helion

Lexer and parser of the Helion scripting language, verified with Verus, and a
command-line evaluator around them.

- `src/token.rs`, `src/lexer.rs`: tokens and the lexer; `lex_next` states what
  reading one token does, and `counted` that a lexer's line and column are
  those of the text it has read.
- `src/ast.rs`: the syntax tree and its mathematical form (`SpecExpr`, `SpecStmt`).
- `src/grammar.rs`: the grammar as functions on parser states; `src/parser.rs`:
  the recursive-descent parser, proved to compute them.
- `src/env.rs`: chains of variable scopes.
- `src/runtime.rs`: what the evaluator decides without computing on values: its
  errors, the functions a program declares, and how a call binds its arguments.
- `app/`: the `helion` command and the tree-walking evaluator, which works on
  floating-point numbers and so stays outside the verified library.
