//! Type-level core of the contract language checker: type model, diagnostics,
//! builtin tables, effect lattice, refinement predicates, name mangling and
//! alias/type-parameter resolution.
pub mod ty;
pub mod text;
pub mod display;
pub mod errors;
pub mod builtins;
pub mod ast;
pub mod refinement;
pub mod names;
pub mod type_params;
pub mod type_resolve;
pub mod mangle;
pub mod effects;
pub mod env;
pub mod effect_check;
pub mod totality;
pub mod resources;
pub mod cei;
pub mod literals;
pub mod generics;
pub mod builtin_table;
pub mod ops;
pub mod coherence;
pub mod collections;
pub mod closures;
pub mod captures;
pub mod intrinsics;
pub mod type_defs;
pub mod equatable;
pub mod patterns;
pub mod trait_impls;
pub mod validation;
pub mod known;
pub mod known_decls;
pub mod aliases;
pub mod trait_env;
pub mod external;
