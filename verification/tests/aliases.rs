use typer::aliases::{build_alias_map, AliasMapError};
use typer::ast::{Expr, Program, RefinedAliasDecl, ResourceDecl, StructDecl};
use typer::ty::{type_eq, Span, Type};
use typer::type_defs::build_type_defs;

fn sp(start: usize, end: usize) -> Span {
    Span { start, end }
}

fn named(name: &str) -> Type {
    Type::Named { name: name.to_string(), args: Vec::new() }
}

fn alias(name: &str, type_params: &[&str], base: Type, at: usize) -> RefinedAliasDecl {
    RefinedAliasDecl {
        name: name.to_string(),
        name_span: sp(at, at + 1),
        type_params: type_params.iter().map(|p| p.to_string()).collect(),
        base,
        binder: Some("v".to_string()),
        predicate: Expr::Bool(true, sp(at + 2, at + 6)),
        span: sp(at, at + 9),
    }
}

fn program(aliases: Vec<RefinedAliasDecl>) -> Program {
    Program {
        contracts: Vec::new(),
        resources: vec![ResourceDecl { name: "Coin".to_string(), fields: Vec::new() }],
        structs: vec![StructDecl {
            name: "Point".to_string(),
            name_span: sp(1, 2),
            type_params: Vec::new(),
            fields: Vec::new(),
            is_resource: false,
        }],
        enums: Vec::new(),
        refined_aliases: aliases,
        funcs: Vec::new(),
        traits: Vec::new(),
        impls: Vec::new(),
    }
}

fn build(aliases: Vec<RefinedAliasDecl>) -> Result<typer::type_resolve::AliasMap, AliasMapError> {
    let td = build_type_defs(&program(Vec::new())).unwrap();
    build_alias_map(&program(aliases), &td)
}

#[test]
fn later_aliases_store_earlier_ones_expanded() {
    let map = build(vec![
        alias("Positive", &[], Type::Int, 10),
        alias("MaybePositive", &[], Type::Option(Box::new(named("Positive"))), 20),
    ])
    .unwrap();
    let first = map.get("Positive").unwrap();
    assert!(type_eq(&first.base, &Type::Int));
    assert_eq!(first.span, sp(10, 19));
    assert_eq!(first.binder.as_deref(), Some("v"));
    assert!(matches!(first.predicate, Expr::Bool(true, _)));
    let second = map.get("MaybePositive").unwrap();
    assert!(type_eq(&second.base, &Type::Option(Box::new(Type::Int))));
    assert!(second.type_params.is_empty());
}

#[test]
fn a_forward_reference_stays_a_name() {
    let map = build(vec![alias("Early", &[], Type::List(Box::new(named("Late"))), 10), alias("Late", &[], Type::Int, 20)]).unwrap();
    assert!(type_eq(&map.get("Early").unwrap().base, &Type::List(Box::new(named("Late")))));
}

#[test]
fn generic_aliases_are_refused() {
    match build(vec![alias("Wrapped", &["T"], named("T"), 10)]) {
        Err(AliasMapError::GenericAlias { name, span }) => {
            assert_eq!(name, "Wrapped");
            assert_eq!(span, sp(10, 19));
        }
        other => panic!("unexpected: {:?}", other),
    }
}

#[test]
fn repeated_alias_names_are_refused_at_the_name() {
    match build(vec![alias("Positive", &[], Type::Int, 10), alias("Positive", &[], Type::U64, 20)]) {
        Err(AliasMapError::Typer(e)) => {
            assert_eq!(e.code, "T701");
            assert_eq!((e.start, e.end), (20, 21));
        }
        other => panic!("unexpected: {:?}", other),
    }
}

#[test]
fn resource_and_struct_names_are_taken() {
    match build(vec![alias("Coin", &[], Type::Int, 10)]) {
        Err(AliasMapError::Typer(e)) => {
            assert_eq!(e.code, "T702");
            assert_eq!((e.start, e.end), (10, 11));
        }
        other => panic!("unexpected: {:?}", other),
    }
    match build(vec![alias("Point", &[], Type::Int, 10)]) {
        Err(AliasMapError::Typer(e)) => assert_eq!(e.code, "T701"),
        other => panic!("unexpected: {:?}", other),
    }
}

#[test]
fn aliases_cannot_wrap_resources() {
    match build(vec![alias("Purse", &[], Type::Option(Box::new(named("Coin"))), 10)]) {
        Err(AliasMapError::Typer(e)) => {
            assert_eq!(e.code, "T706");
            assert_eq!((e.start, e.end), (10, 19));
        }
        other => panic!("unexpected: {:?}", other),
    }
}

#[test]
fn alias_keys_must_be_comparable() {
    let base = Type::SetOf(Box::new(Type::Slice(Box::new(Type::U8))));
    match build(vec![alias("Blobs", &[], base, 10)]) {
        Err(AliasMapError::NonEquatableKey { offending, span }) => {
            assert!(type_eq(&offending, &Type::Slice(Box::new(Type::U8))));
            assert_eq!(span, Some(sp(10, 19)));
        }
        other => panic!("unexpected: {:?}", other),
    }
}
