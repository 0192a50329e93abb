use typer::ast::{Expr, Func, Program, TraitDecl};
use typer::env::{ImplDecl, TraitBound, TraitMethod, TypeParam};
use typer::generics::{BoundFault, TypeParamFault};
use typer::known::{KnownTypeError, StdTypeMap};
use typer::names::NameMap;
use typer::trait_env::{build_trait_env, TraitEnvError};
use typer::ty::{Effect, Param, ParamKind, Span, Type};
use typer::type_defs::build_type_defs;

fn sp(start: usize, end: usize) -> Span {
    Span { start, end }
}

fn named(name: &str) -> Type {
    Type::Named { name: name.to_string(), args: Vec::new() }
}

fn tmethod(name: &str, param: Type, ret: Type, at: usize) -> TraitMethod {
    TraitMethod {
        name: name.to_string(),
        params: vec![Param { kind: ParamKind::Borrow, name: "x".to_string(), ty: param }],
        ret,
        effect: Effect::Pure,
        span: sp(at, at + 5),
    }
}

fn trait_decl(name: &str, methods: Vec<TraitMethod>, at: usize) -> TraitDecl {
    TraitDecl { name: name.to_string(), name_span: sp(at, at + 1), type_params: Vec::new(), methods, span: sp(at, at + 50) }
}

fn imethod(name: &str, param: Type, ret: Type, at: usize) -> Func {
    Func {
        name: name.to_string(),
        type_params: Vec::new(),
        where_bounds: Vec::new(),
        params: vec![Param { kind: ParamKind::Borrow, name: "x".to_string(), ty: param }],
        ret,
        effect: Effect::Pure,
        effect_span: sp(at, at + 1),
        requires: Vec::new(),
        ensures: Vec::new(),
        body: Expr::String("v".to_string(), sp(at + 10, at + 13)),
        span: sp(at, at + 20),
    }
}

fn impl_decl(trait_name: &str, for_type: Type, methods: Vec<Func>, at: usize) -> ImplDecl {
    ImplDecl {
        trait_name: trait_name.to_string(),
        trait_name_span: sp(at + 5, at + 9),
        type_params: Vec::new(),
        for_type,
        where_bounds: Vec::new(),
        methods,
        span: sp(at, at + 40),
    }
}

fn show() -> TraitDecl {
    trait_decl("Show", vec![tmethod("show", named("Self"), Type::String, 10)], 0)
}

fn show_int(at: usize) -> ImplDecl {
    impl_decl("Show", Type::Int, vec![imethod("show", Type::Int, Type::String, at + 2)], at)
}

fn program(traits: Vec<TraitDecl>, impls: Vec<ImplDecl>) -> Program {
    Program {
        contracts: Vec::new(),
        resources: Vec::new(),
        structs: Vec::new(),
        enums: Vec::new(),
        refined_aliases: Vec::new(),
        funcs: Vec::new(),
        traits,
        impls,
    }
}

fn build(p: &Program) -> Result<typer::env::TraitEnv, TraitEnvError> {
    let td = build_type_defs(p).unwrap();
    build_trait_env(p, &NameMap::new(), &td, &StdTypeMap::new())
}

#[test]
fn traits_and_their_impls_are_collected() {
    let p = program(vec![show()], vec![show_int(100)]);
    let env = build(&p).unwrap();
    assert!(env.traits.contains_key("Show"));
    assert!(env.traits.get("Show").unwrap().methods.contains_key("show"));
    assert_eq!(env.impls.len(), 1);
    assert_eq!(env.impls[0].decl.trait_name, "Show");
    assert_eq!(env.impls[0].decl.span, sp(100, 140));
    assert_eq!(env.impls[0].decl.methods[0].name, "show");
}

#[test]
fn repeated_trait_names_are_refused() {
    let p = program(vec![show(), trait_decl("Show", Vec::new(), 60)], Vec::new());
    match build(&p) {
        Err(TraitEnvError::DuplicateTrait { name, span }) => {
            assert_eq!(name, "Show");
            assert_eq!(span, sp(60, 61));
        }
        other => panic!("unexpected: {:?}", other),
    }
}

#[test]
fn generic_traits_are_refused() {
    let mut t = show();
    t.type_params.push(TypeParam { name: "T".to_string(), span: sp(3, 4) });
    match build(&program(vec![t], Vec::new())) {
        Err(TraitEnvError::TraitTypeParams { name, span }) => {
            assert_eq!(name, "Show");
            assert_eq!(span, sp(0, 50));
        }
        other => panic!("unexpected: {:?}", other),
    }
}

#[test]
fn trait_methods_must_not_repeat_and_must_name_known_types() {
    let t = trait_decl("Show", vec![tmethod("show", named("Self"), Type::String, 10), tmethod("show", Type::Int, Type::Int, 20)], 0);
    match build(&program(vec![t], Vec::new())) {
        Err(TraitEnvError::DuplicateTraitMethod { trait_name, method, span }) => {
            assert_eq!((trait_name.as_str(), method.as_str()), ("Show", "show"));
            assert_eq!(span, sp(20, 25));
        }
        other => panic!("unexpected: {:?}", other),
    }
    let t = trait_decl("Show", vec![tmethod("show", named("Nowhere"), Type::String, 10)], 0);
    match build(&program(vec![t], Vec::new())) {
        Err(TraitEnvError::Known(KnownTypeError::UnknownType { name, span })) => {
            assert_eq!(name, "Nowhere");
            assert_eq!(span, Some(sp(10, 15)));
        }
        other => panic!("unexpected: {:?}", other),
    }
}

#[test]
fn impls_of_unknown_traits_are_refused() {
    match build(&program(vec![show()], vec![impl_decl("Hash", Type::Int, Vec::new(), 100)])) {
        Err(TraitEnvError::UnknownTrait { name, span }) => {
            assert_eq!(name, "Hash");
            assert_eq!(span, sp(105, 109));
        }
        other => panic!("unexpected: {:?}", other),
    }
}

#[test]
fn impl_type_params_and_bounds_are_checked() {
    let mut d = show_int(100);
    d.type_params.push(TypeParam { name: "Show".to_string(), span: sp(101, 105) });
    assert!(matches!(build(&program(vec![show()], vec![d])), Err(TraitEnvError::TypeParam(TypeParamFault::Conflict { .. }))));
    let mut d = show_int(100);
    d.where_bounds.push(TraitBound { param: "T".to_string(), trait_name: "Show".to_string(), span: sp(120, 127) });
    match build(&program(vec![show()], vec![d])) {
        Err(TraitEnvError::Bound(BoundFault::UnknownTypeParam { name, span })) => {
            assert_eq!(name, "T");
            assert_eq!(span, sp(120, 127));
        }
        other => panic!("unexpected: {:?}", other),
    }
}

#[test]
fn impl_methods_take_no_generics_and_do_not_repeat() {
    let mut d = show_int(100);
    d.methods[0].type_params.push(TypeParam { name: "U".to_string(), span: sp(103, 104) });
    match build(&program(vec![show()], vec![d])) {
        Err(TraitEnvError::MethodGenerics { method, span }) => {
            assert_eq!(method, "show");
            assert_eq!(span, sp(102, 103));
        }
        other => panic!("unexpected: {:?}", other),
    }
    let mut d = show_int(100);
    d.methods.push(imethod("show", Type::Int, Type::String, 130));
    match build(&program(vec![show()], vec![d])) {
        Err(TraitEnvError::DuplicateTraitMethod { method, span, .. }) => {
            assert_eq!(method, "show");
            assert_eq!(span, sp(140, 143));
        }
        other => panic!("unexpected: {:?}", other),
    }
}

#[test]
fn impls_must_match_their_trait() {
    let d = impl_decl("Show", Type::Int, Vec::new(), 100);
    match build(&program(vec![show()], vec![d])) {
        Err(TraitEnvError::MissingMethod { trait_name, method, span }) => {
            assert_eq!((trait_name.as_str(), method.as_str()), ("Show", "show"));
            assert_eq!(span, sp(100, 140));
        }
        other => panic!("unexpected: {:?}", other),
    }
    let d = impl_decl("Show", Type::Int, vec![imethod("show", Type::Bool, Type::String, 102)], 100);
    match build(&program(vec![show()], vec![d])) {
        Err(TraitEnvError::Signature(m)) => {
            assert_eq!(m.method, "show");
            assert_eq!(m.span, sp(10, 15));
        }
        other => panic!("unexpected: {:?}", other),
    }
    let mut d = show_int(100);
    d.methods.push(imethod("debug", Type::Int, Type::String, 130));
    match build(&program(vec![show()], vec![d])) {
        Err(TraitEnvError::ExtraMethod { method, span, .. }) => {
            assert_eq!(method, "debug");
            assert_eq!(span, sp(100, 140));
        }
        other => panic!("unexpected: {:?}", other),
    }
}

#[test]
fn overlapping_impls_are_refused() {
    match build(&program(vec![show()], vec![show_int(100), show_int(200)])) {
        Err(TraitEnvError::Overlap(o)) => {
            assert_eq!(o.trait_name, "Show");
            assert_eq!((o.first, o.second), (sp(100, 140), sp(200, 240)));
        }
        other => panic!("unexpected: {:?}", other),
    }
}
