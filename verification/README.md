# typer

Static checks for a small contract language, written in Verus: every
function in `src/` carries a contract over mathematical models (types as
`Ty`, names as `Seq<char>`, tables as `Map`/`Set`) and is proved to meet
it, with one exception: `push_char` in `src/text.rs` appends a character
through `String::push`, for which the standard library has no
specification, and its contract is trusted.

## Layout

- `src/ty.rs`, `src/ast.rs`, `src/env.rs` — the surface types, the syntax
  tree and the declaration tables, with their models.
- `src/type_resolve.rs`, `src/type_params.rs`, `src/generics.rs` — alias
  expansion, substitution, unification of type parameters and impl patterns.
- `src/type_defs.rs`, `src/validation.rs`, `src/collections.rs`,
  `src/equatable.rs`, `src/patterns.rs` — building the type table and the
  declaration-level checks (resource collections, comparable keys,
  type-parameter use, pattern binders).
- `src/aliases.rs`, `src/known.rs`, `src/known_decls.rs` — building the
  refined aliases, and checking that every declared type names known types
  (contract state and events included).
- `src/trait_env.rs`, `src/trait_impls.rs`, `src/coherence.rs` — building
  the trait table and checking impls against it, impl search with `where`
  bounds, impl choice, signature agreement and overlap of impls.
- `src/effects.rs`, `src/effect_check.rs`, `src/totality.rs`,
  `src/resources.rs`, `src/cei.rs`, `src/closures.rs`, `src/captures.rs`,
  `src/intrinsics.rs` — effects, termination measures, linear resources,
  checks-effects-interactions order, recursive closures, captures and the
  runtime intrinsics a program needs.
- `src/refinement.rs`, `src/literals.rs`, `src/ops.rs` — refinement
  predicates, literal ranges, and the typing rules of operators, `?` and
  indexing once the operands' types are known.
- `src/external.rs` — the builtins served outside the program, merged with
  the bundled ones by name.
- `src/mangle.rs`, `src/display.rs`, `src/errors.rs`, `src/text.rs`,
  `src/names.rs`, `src/builtins.rs`, `src/builtin_table.rs` — name mangling,
  rendering, diagnostics, string helpers, name tables and the builtin
  signatures.
- `tests/` — executable tests of the library.
- `app/` — the parts that touch the environment and JSON: reading the
  mangling setting and the ABI manifest.
