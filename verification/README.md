# roc: a verified evaluator

An evaluator for a small expression language (integers, strings, characters,
fractions, variants, closures, assignments, `case`, `if` and arithmetic),
written in Verus.

- `src/expr.rs`: the syntax trees (`Expr`, `Pattern`, `Problem`, `Operator`) and
  their mathematical views (`ExprV`, `PatternV`, `ProblemV`), with verified copies.
- `src/patterns.rs`: closure parameter lists and `case` branches, each kept in a `smallvec::SmallVec`.
- `src/scope.rs`: scopes, kept in a persistent `im_rc::HashMap` (`empty_scope`, `bind`).
- `src/render.rs`: the textual form of expressions used in error messages.
- `src/semantics.rs`: the meaning of evaluation, as spec functions with a depth bound.
- `src/eval.rs`: `eval`, `scoped_eval`, `from_evaluated` and their helpers, each
  proved to compute what `semantics.rs` says.
- `src/laws.rs`: properties proved of all inputs (determinism, read after
  assignment, refused reassignment, `==` symmetry, idempotence of evaluation, matching
  never reading the scope, ...).
