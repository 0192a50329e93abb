use typer::ast::{EnumDecl, EnumVariant, Expr, Func, Program, RefinedAliasDecl, ResourceDecl, StructDecl, StructField};
use typer::env::{TraitEnv, TypeParam};
use typer::generics::TypeParamFault;
use typer::names::{NameMap, NameSet};
use typer::ty::{Effect, Param, ParamKind, Span, Type};
use typer::type_defs::build_type_defs;
use typer::type_resolve::AliasMap;
use typer::ast::TraitDecl;
use typer::env::TraitMethod;
use typer::env::ImplDecl;
use typer::validation::{
    validate_equatable_collections, validate_no_resource_collections, validate_struct_enum_resources, validate_supported_types,
    DeclCheckError,
};

fn sp(start: usize, end: usize) -> Span {
    Span { start, end }
}

fn named(name: &str) -> Type {
    Type::Named { name: name.to_string(), args: Vec::new() }
}

fn list(t: Type) -> Type {
    Type::List(Box::new(t))
}

fn set(t: Type) -> Type {
    Type::SetOf(Box::new(t))
}

fn field(name: &str, ty: Type, at: usize) -> StructField {
    StructField { name: name.to_string(), ty, span: sp(at, at + 1) }
}

fn func(name: &str, type_params: &[&str], params: Vec<Type>, ret: Type) -> Func {
    Func {
        name: name.to_string(),
        type_params: type_params.iter().map(|p| TypeParam { name: p.to_string(), span: sp(70, 71) }).collect(),
        where_bounds: Vec::new(),
        params: params
            .into_iter()
            .enumerate()
            .map(|(i, ty)| Param { kind: ParamKind::Borrow, name: format!("p{}", i), ty })
            .collect(),
        ret,
        effect: Effect::Pure,
        effect_span: sp(0, 1),
        requires: Vec::new(),
        ensures: Vec::new(),
        body: Expr::Int(0, sp(0, 1)),
        span: sp(0, 1),
    }
}

fn program(structs: Vec<StructDecl>, enums: Vec<EnumDecl>, funcs: Vec<Func>, aliases: Vec<RefinedAliasDecl>) -> Program {
    Program {
        contracts: Vec::new(),
        resources: vec![ResourceDecl { name: "Coin".to_string(), fields: vec![field("amount", Type::U64, 1)] }],
        structs,
        enums,
        refined_aliases: aliases,
        funcs,
        traits: Vec::new(),
        impls: Vec::new(),
    }
}

fn strukt(name: &str, type_params: &[&str], fields: Vec<StructField>) -> StructDecl {
    StructDecl {
        name: name.to_string(),
        name_span: sp(0, 1),
        type_params: type_params.iter().map(|p| TypeParam { name: p.to_string(), span: sp(50, 51) }).collect(),
        fields,
        is_resource: false,
    }
}

fn names(list: &[&str]) -> NameSet {
    let mut s = NameSet::new();
    for n in list {
        s.insert(n.to_string());
    }
    s
}

fn trait_env() -> TraitEnv {
    TraitEnv { traits: NameMap::new(), impls: Vec::new() }
}

#[test]
fn well_formed_declarations_pass_both_checks() {
    let p = program(
        vec![strukt("Wallet", &["T"], vec![field("coins", named("Coin"), 2), field("tags", set(Type::String), 3)])],
        Vec::new(),
        vec![func("f", &["T"], vec![named("T")], Type::Int)],
        Vec::new(),
    );
    let td = build_type_defs(&p).unwrap();
    let al = AliasMap::new();
    let te = trait_env();
    assert!(validate_no_resource_collections(&p, &names(&["Coin"]), &al, &td, &te).is_ok());
    assert!(validate_equatable_collections(&p, &al, &td, &te).is_ok());
}

#[test]
fn resource_lists_in_fields_are_refused() {
    let p = program(vec![strukt("Bag", &[], vec![field("coins", list(named("Coin")), 9)])], Vec::new(), Vec::new(), Vec::new());
    let td = build_type_defs(&p).unwrap();
    let al = AliasMap::new();
    match validate_no_resource_collections(&p, &names(&["Coin"]), &al, &td, &trait_env()) {
        Err(DeclCheckError::Typer(e)) => {
            assert_eq!(e.code, "T806");
            assert_eq!((e.start, e.end), (9, 10));
        }
        other => panic!("unexpected: {:?}", other),
    }
}

#[test]
fn resource_lists_in_signatures_are_refused() {
    let p = program(Vec::new(), Vec::new(), vec![func("g", &[], vec![Type::Int], list(named("Coin")))], Vec::new());
    let td = build_type_defs(&p).unwrap();
    let al = AliasMap::new();
    match validate_no_resource_collections(&p, &names(&["Coin"]), &al, &td, &trait_env()) {
        Err(DeclCheckError::Typer(e)) => assert_eq!(e.code, "T806"),
        other => panic!("unexpected: {:?}", other),
    }
}

#[test]
fn bad_type_parameters_come_first() {
    let p = program(
        vec![strukt("Pair", &["A", "A"], vec![field("items", list(named("Coin")), 9)])],
        Vec::new(),
        Vec::new(),
        Vec::new(),
    );
    let td = build_type_defs(&p).unwrap();
    let al = AliasMap::new();
    match validate_no_resource_collections(&p, &names(&["Coin"]), &al, &td, &trait_env()) {
        Err(DeclCheckError::TypeParam(TypeParamFault::Duplicate { name, .. })) => assert_eq!(name, "A"),
        other => panic!("unexpected: {:?}", other),
    }
}

#[test]
fn non_equatable_keys_are_refused_in_enums_and_aliases() {
    let e = EnumDecl {
        name: "E".to_string(),
        name_span: sp(0, 1),
        type_params: Vec::new(),
        variants: vec![EnumVariant { name: "V".to_string(), fields: vec![set(list(Type::Int))], span: sp(30, 31) }],
        is_resource: false,
    };
    let p = program(Vec::new(), vec![e], Vec::new(), Vec::new());
    let td = build_type_defs(&p).unwrap();
    let al = AliasMap::new();
    match validate_equatable_collections(&p, &al, &td, &trait_env()) {
        Err(DeclCheckError::NonEquatableKey { offending, span }) => {
            assert!(matches!(offending, Type::List(_)));
            assert_eq!(span, Some(sp(30, 31)));
        }
        other => panic!("unexpected: {:?}", other),
    }
    let alias = RefinedAliasDecl {
        name: "Keys".to_string(),
        name_span: sp(40, 44),
        type_params: Vec::new(),
        base: set(named("Coin")),
        binder: None,
        predicate: Expr::Bool(true, sp(40, 44)),
        span: sp(40, 44),
    };
    let p = program(Vec::new(), Vec::new(), Vec::new(), vec![alias]);
    let td = build_type_defs(&p).unwrap();
    match validate_equatable_collections(&p, &al, &td, &trait_env()) {
        Err(DeclCheckError::NonEquatableKey { span, .. }) => assert_eq!(span, Some(sp(40, 44))),
        other => panic!("unexpected: {:?}", other),
    }
}

fn generic(name: &str, args: Vec<Type>) -> Type {
    Type::Named { name: name.to_string(), args }
}

#[test]
fn type_parameters_with_arguments_are_refused() {
    let p = program(
        Vec::new(),
        Vec::new(),
        vec![func("h", &["T"], vec![generic("T", vec![Type::Int])], Type::Int)],
        Vec::new(),
    );
    let td = build_type_defs(&p).unwrap();
    let al = AliasMap::new();
    match validate_supported_types(&p, &al, &td, &trait_env()) {
        Err(DeclCheckError::TypeParamWithArgs { name, span }) => {
            assert_eq!(name, "T");
            assert_eq!(span, None);
        }
        other => panic!("unexpected: {:?}", other),
    }
}

#[test]
fn trait_and_impl_signatures_are_checked() {
    let mut p = program(Vec::new(), Vec::new(), Vec::new(), Vec::new());
    p.traits.push(TraitDecl {
        name: "Show".to_string(),
        name_span: sp(0, 4),
        type_params: Vec::new(),
        methods: vec![TraitMethod {
            name: "show".to_string(),
            params: vec![Param { kind: ParamKind::Borrow, name: "s".to_string(), ty: named("Self") }],
            ret: Type::String,
            effect: Effect::Pure,
            span: sp(10, 20),
        }],
        span: sp(0, 30),
    });
    let td = build_type_defs(&p).unwrap();
    let al = AliasMap::new();
    assert!(validate_supported_types(&p, &al, &td, &trait_env()).is_ok());
    p.impls.push(ImplDecl {
        trait_name: "Show".to_string(),
        trait_name_span: sp(40, 44),
        type_params: Vec::new(),
        for_type: generic("Self", vec![Type::Int]),
        where_bounds: Vec::new(),
        methods: Vec::new(),
        span: sp(40, 60),
    });
    match validate_supported_types(&p, &al, &td, &trait_env()) {
        Err(DeclCheckError::TypeParamWithArgs { name, span }) => {
            assert_eq!(name, "Self");
            assert_eq!(span, Some(sp(40, 60)));
        }
        other => panic!("unexpected: {:?}", other),
    }
}

#[test]
fn plain_declarations_cannot_hold_resources() {
    let plain = strukt("Holder", &[], vec![field("x", Type::Int, 1), field("coin", Type::Option(Box::new(named("Coin"))), 12)]);
    let p = program(vec![plain], Vec::new(), Vec::new(), Vec::new());
    let td = build_type_defs(&p).unwrap();
    let al = AliasMap::new();
    match validate_struct_enum_resources(&p, &al, &td, &trait_env()) {
        Err(DeclCheckError::ResourceField { kind, name, span }) => {
            assert_eq!(kind, "struct");
            assert_eq!(name, "Holder");
            assert_eq!(span, sp(12, 13));
        }
        other => panic!("unexpected: {:?}", other),
    }
    let mut linear = strukt("Vault", &[], vec![field("coin", named("Coin"), 12)]);
    linear.is_resource = true;
    let e = EnumDecl {
        name: "Maybe".to_string(),
        name_span: sp(0, 1),
        type_params: vec![TypeParam { name: "T".to_string(), span: sp(2, 3) }],
        variants: vec![EnumVariant { name: "Just".to_string(), fields: vec![named("T")], span: sp(20, 24) }],
        is_resource: false,
    };
    let p = program(vec![linear], vec![e], Vec::new(), Vec::new());
    let td = build_type_defs(&p).unwrap();
    assert!(validate_struct_enum_resources(&p, &al, &td, &trait_env()).is_ok());
    let e2 = EnumDecl {
        name: "Pouch".to_string(),
        name_span: sp(0, 1),
        type_params: Vec::new(),
        variants: vec![EnumVariant { name: "Full".to_string(), fields: vec![Type::Int, named("Coin")], span: sp(30, 34) }],
        is_resource: false,
    };
    let p = program(Vec::new(), vec![e2], Vec::new(), Vec::new());
    let td = build_type_defs(&p).unwrap();
    match validate_struct_enum_resources(&p, &al, &td, &trait_env()) {
        Err(DeclCheckError::ResourceField { kind, name, span }) => {
            assert_eq!((kind.as_str(), name.as_str()), ("enum", "Pouch"));
            assert_eq!(span, sp(30, 34));
        }
        other => panic!("unexpected: {:?}", other),
    }
}
