use typer::ast::{ContractDecl, EventDecl, Expr, Func, Program, RefinedAliasDecl, ResourceDecl, StructDecl, StructField};
use typer::env::{TraitEnv, TypeParam};
use typer::generics::TypeParamFault;
use typer::known::{KnownTypeError, StdTypeInfo, StdTypeMap};
use typer::known_decls::{validate_known_types, KnownTypesError};
use typer::names::NameMap;
use typer::ty::{type_eq, Effect, Param, ParamKind, Span, Type};
use typer::type_defs::build_type_defs;
use typer::type_resolve::AliasMap;

fn sp(start: usize, end: usize) -> Span {
    Span { start, end }
}

fn named(name: &str) -> Type {
    Type::Named { name: name.to_string(), args: Vec::new() }
}

fn field(name: &str, ty: Type, at: usize) -> StructField {
    StructField { name: name.to_string(), ty, span: sp(at, at + 1) }
}

fn event(name: &str, at: usize, fields: Vec<StructField>) -> EventDecl {
    EventDecl { name: name.to_string(), name_span: sp(at, at + 1), fields }
}

fn contract(name: &str, at: usize, fields: Vec<StructField>, events: Vec<EventDecl>) -> ContractDecl {
    ContractDecl { name: name.to_string(), name_span: sp(at, at + 1), fields, events }
}

fn func(name: &str, type_params: &[&str], params: Vec<Type>, ret: Type) -> Func {
    Func {
        name: name.to_string(),
        type_params: type_params.iter().map(|p| TypeParam { name: p.to_string(), span: sp(70, 71) }).collect(),
        where_bounds: Vec::new(),
        params: params
            .into_iter()
            .enumerate()
            .map(|(i, ty)| Param { kind: ParamKind::Borrow, name: format!("p{}", i), ty })
            .collect(),
        ret,
        effect: Effect::Pure,
        effect_span: sp(0, 1),
        requires: Vec::new(),
        ensures: Vec::new(),
        body: Expr::Int(0, sp(0, 1)),
        span: sp(0, 1),
    }
}

fn alias(name: &str, type_params: &[&str], base: Type, at: usize) -> RefinedAliasDecl {
    RefinedAliasDecl {
        name: name.to_string(),
        name_span: sp(at, at + 1),
        type_params: type_params.iter().map(|p| p.to_string()).collect(),
        base,
        binder: Some("v".to_string()),
        predicate: Expr::Bool(true, sp(at, at + 1)),
        span: sp(at, at + 9),
    }
}

fn program(contracts: Vec<ContractDecl>, structs: Vec<StructDecl>, aliases: Vec<RefinedAliasDecl>, funcs: Vec<Func>) -> Program {
    Program {
        contracts,
        resources: vec![ResourceDecl { name: "Coin".to_string(), fields: vec![field("amount", Type::U64, 1)] }],
        structs,
        enums: Vec::new(),
        refined_aliases: aliases,
        funcs,
        traits: Vec::new(),
        impls: Vec::new(),
    }
}

fn std_types() -> StdTypeMap {
    let mut m = StdTypeMap::new();
    m.insert("Address".to_string(), StdTypeInfo { byte_len: 20, align: 1 });
    m
}

fn check(p: &Program) -> Result<(), KnownTypesError> {
    let td = build_type_defs(p).unwrap();
    let al = AliasMap::new();
    let te = TraitEnv { traits: NameMap::new(), impls: Vec::new() };
    validate_known_types(p, &al, &td, &te, &std_types())
}

#[test]
fn known_declarations_pass() {
    let p = program(
        vec![contract(
            "Vault",
            10,
            vec![field("owner", named("Address"), 11), field("balances", Type::MapOf(Box::new(named("Address")), Box::new(Type::U64)), 12)],
            vec![event("Deposited", 13, vec![field("who", named("Address"), 14), field("amount", Type::U64, 15)])],
        )],
        vec![StructDecl {
            name: "Pair".to_string(),
            name_span: sp(20, 21),
            type_params: vec![TypeParam { name: "T".to_string(), span: sp(22, 23) }],
            fields: vec![field("left", named("T"), 24), field("right", named("T"), 25)],
            is_resource: false,
        }],
        vec![alias("Positive", &[], Type::Int, 30)],
        vec![func("swap", &["T"], vec![Type::Named { name: "Pair".to_string(), args: vec![named("T")] }], named("T"))],
    );
    assert!(check(&p).is_ok());
}

#[test]
fn repeated_contract_names_are_reported_at_the_second() {
    let p = program(vec![contract("Vault", 10, Vec::new(), Vec::new()), contract("Vault", 40, Vec::new(), Vec::new())], Vec::new(), Vec::new(), Vec::new());
    match check(&p) {
        Err(KnownTypesError::DuplicateStateField { name, span }) => {
            assert_eq!(name, "Vault");
            assert_eq!(span, sp(40, 41));
        }
        other => panic!("unexpected: {:?}", other),
    }
}

#[test]
fn repeated_state_fields_are_refused() {
    let p = program(
        vec![contract("Vault", 10, vec![field("owner", named("Address"), 11), field("owner", Type::U64, 12)], Vec::new())],
        Vec::new(),
        Vec::new(),
        Vec::new(),
    );
    match check(&p) {
        Err(KnownTypesError::DuplicateStateField { name, span }) => {
            assert_eq!(name, "owner");
            assert_eq!(span, sp(12, 13));
        }
        other => panic!("unexpected: {:?}", other),
    }
}

#[test]
fn resources_in_state_are_refused() {
    let p = program(vec![contract("Vault", 10, vec![field("reserve", named("Coin"), 11)], Vec::new())], Vec::new(), Vec::new(), Vec::new());
    match check(&p) {
        Err(KnownTypesError::InvalidStateType { ty, span }) => {
            assert!(type_eq(&ty, &named("Coin")));
            assert_eq!(span, sp(11, 12));
        }
        other => panic!("unexpected: {:?}", other),
    }
}

#[test]
fn functions_in_state_are_refused() {
    let f = Type::Fn { params: vec![Type::Int], ret: Box::new(Type::Int) };
    let p = program(vec![contract("Vault", 10, vec![field("hook", f, 11)], Vec::new())], Vec::new(), Vec::new(), Vec::new());
    assert!(matches!(check(&p), Err(KnownTypesError::InvalidStateType { .. })));
}

#[test]
fn unknown_state_types_are_refused_before_persistence() {
    let p = program(vec![contract("Vault", 10, vec![field("ghost", named("Nowhere"), 11)], Vec::new())], Vec::new(), Vec::new(), Vec::new());
    match check(&p) {
        Err(KnownTypesError::Known(KnownTypeError::UnknownType { name, span })) => {
            assert_eq!(name, "Nowhere");
            assert_eq!(span, Some(sp(11, 12)));
        }
        other => panic!("unexpected: {:?}", other),
    }
}

#[test]
fn event_names_and_fields_must_not_repeat() {
    let p = program(
        vec![contract("Vault", 10, Vec::new(), vec![event("Paid", 13, Vec::new()), event("Paid", 16, Vec::new())])],
        Vec::new(),
        Vec::new(),
        Vec::new(),
    );
    match check(&p) {
        Err(KnownTypesError::DuplicateEvent { name, span }) => {
            assert_eq!(name, "Paid");
            assert_eq!(span, sp(16, 17));
        }
        other => panic!("unexpected: {:?}", other),
    }
    let p = program(
        vec![contract("Vault", 10, Vec::new(), vec![event("Paid", 13, vec![field("to", Type::U64, 14), field("to", Type::U64, 15)])])],
        Vec::new(),
        Vec::new(),
        Vec::new(),
    );
    match check(&p) {
        Err(KnownTypesError::DuplicateEventField { name, span }) => {
            assert_eq!(name, "to");
            assert_eq!(span, sp(15, 16));
        }
        other => panic!("unexpected: {:?}", other),
    }
}

#[test]
fn resources_in_events_are_refused() {
    let p = program(vec![contract("Vault", 10, Vec::new(), vec![event("Paid", 13, vec![field("coin", named("Coin"), 14)])])], Vec::new(), Vec::new(), Vec::new());
    match check(&p) {
        Err(KnownTypesError::InvalidEventType { ty, span }) => {
            assert!(type_eq(&ty, &named("Coin")));
            assert_eq!(span, sp(14, 15));
        }
        other => panic!("unexpected: {:?}", other),
    }
}

#[test]
fn alias_bases_may_use_the_alias_parameters() {
    let p = program(Vec::new(), Vec::new(), vec![alias("Boxed", &["T"], Type::Option(Box::new(named("T"))), 30)], Vec::new());
    assert!(check(&p).is_ok());
    let p = program(Vec::new(), Vec::new(), vec![alias("Boxed", &[], Type::Option(Box::new(named("T"))), 30)], Vec::new());
    match check(&p) {
        Err(KnownTypesError::Known(KnownTypeError::UnknownType { name, span })) => {
            assert_eq!(name, "T");
            assert_eq!(span, Some(sp(30, 39)));
        }
        other => panic!("unexpected: {:?}", other),
    }
}

#[test]
fn function_types_are_checked_without_a_span() {
    let p = program(Vec::new(), Vec::new(), Vec::new(), vec![func("f", &[], vec![named("Missing")], Type::Int)]);
    match check(&p) {
        Err(KnownTypesError::Known(KnownTypeError::UnknownType { name, span })) => {
            assert_eq!(name, "Missing");
            assert_eq!(span, None);
        }
        other => panic!("unexpected: {:?}", other),
    }
}

#[test]
fn function_type_parameters_are_checked_first() {
    let p = program(Vec::new(), Vec::new(), Vec::new(), vec![func("f", &["T", "T"], vec![named("Missing")], Type::Int)]);
    assert!(matches!(check(&p), Err(KnownTypesError::TypeParam(TypeParamFault::Duplicate { .. }))));
}

#[test]
fn contracts_are_checked_before_functions() {
    let p = program(
        vec![contract("Vault", 10, vec![field("reserve", named("Coin"), 11)], Vec::new())],
        Vec::new(),
        Vec::new(),
        vec![func("f", &[], vec![named("Missing")], Type::Int)],
    );
    assert!(matches!(check(&p), Err(KnownTypesError::InvalidStateType { .. })));
}
