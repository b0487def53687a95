# promql_parser

A PromQL lexer and abstract syntax tree, verified with Verus.

- `src/` is the verified library:
  - `label`: label lists, label pairs and the label matchers of vector selectors
    (regular expressions are compiled and matched by the `regex` crate);
  - `parser`: the tokens, the lexer (a state machine over the chars of a query), the
    expression tree with its constructors and type checks, the function table, and the
    one-line and pretty-printed texts of expressions;
  - `util`: durations in the Prometheus format, quoted strings, the form of number
    literals, text helpers and the depth-first walk over an expression.
- `app/` holds what stays outside the proofs: the lrlex lexer that a grammar reads,
  floating-point numbers (number literals are held as their binary64 encodings in the
  library), serde, and the walk that lets a visitor rewrite the tree.
- `tests/` runs the library on concrete queries.
