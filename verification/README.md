# krusty

The verified core of a Kotlin compiler's serialization plugin and of its body resolution.

- `src/types.rs`, `src/names.rs`, `src/libraries.rs`, `src/symbols.rs`: semantic types, qualified
  names, and what providers publish about declarations. Types that hold text or lists have a view
  where contracts compare their values, and contracts speak of the views.
- `src/ir/`: the intermediate representation that plugins add to.
- `src/plugins/serialization/`: the generated serializers. Generation is stated over what it adds to
  a file: a contract says which expressions, members and lines a file has gained, and that the rest
  of it is unchanged.
- `src/resolve/`: the decisions of overload selection, delegated properties, constant evaluation,
  capture analysis, result inference, import scopes and publication. What a provider answers is an
  argument of the decision, so each holds for every answer.
- `app/`: floating-point arithmetic for constant evaluation.
- `tests/`: scenarios.

Public proof functions state what holds across functions. Nothing in `src/` is trusted: there is no
item whose contract is taken without proof.
