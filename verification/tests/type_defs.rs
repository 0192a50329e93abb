use typer::ast::{EnumDecl, EnumVariant, Expr, MatchPat, Program, RefinedAliasDecl, ResourceDecl, StructDecl, StructField};
use typer::env::{find_enum, find_struct, TypeDefs, TypeParam};
use typer::equatable::{
    enum_field_types, ensure_equatable_collection_keys, find_non_equatable_collection_key, is_equatable_type,
    struct_field_types, CollectionKeyError, SeenDecls,
};
use typer::names::NameSet;
use typer::ty::{Span, Type};
use typer::patterns::{enum_variant_fields, pattern_binders, BinderError};
use typer::type_defs::{build_type_defs, TypeDefsError};
use typer::type_resolve::{AliasDef, AliasMap};

fn sp(start: usize, end: usize) -> Span {
    Span { start, end }
}

fn named(name: &str, args: Vec<Type>) -> Type {
    Type::Named { name: name.to_string(), args }
}

fn field(name: &str, ty: Type, at: usize) -> StructField {
    StructField { name: name.to_string(), ty, span: sp(at, at + 1) }
}

fn tparam(name: &str) -> TypeParam {
    TypeParam { name: name.to_string(), span: sp(0, 1) }
}

fn strukt(name: &str, params: &[&str], fields: Vec<StructField>, at: usize) -> StructDecl {
    StructDecl {
        name: name.to_string(),
        name_span: sp(at, at + name.len()),
        type_params: params.iter().map(|p| tparam(p)).collect(),
        fields,
        is_resource: false,
    }
}

fn variant(name: &str, fields: Vec<Type>, at: usize) -> EnumVariant {
    EnumVariant { name: name.to_string(), fields, span: sp(at, at + 1) }
}

fn enumeration(name: &str, params: &[&str], variants: Vec<EnumVariant>, at: usize) -> EnumDecl {
    EnumDecl {
        name: name.to_string(),
        name_span: sp(at, at + name.len()),
        type_params: params.iter().map(|p| tparam(p)).collect(),
        variants,
        is_resource: false,
    }
}

fn program(structs: Vec<StructDecl>, enums: Vec<EnumDecl>) -> Program {
    Program {
        contracts: Vec::new(),
        resources: vec![ResourceDecl { name: "Coin".to_string(), fields: Vec::new() }],
        structs,
        enums,
        refined_aliases: vec![RefinedAliasDecl {
            name: "Positive".to_string(),
            name_span: sp(90, 98),
            type_params: Vec::new(),
            base: Type::Int,
            binder: Some("n".to_string()),
            predicate: Expr::Bool(true, sp(90, 98)),
            span: sp(90, 98),
        }],
        funcs: Vec::new(),
        traits: Vec::new(),
        impls: Vec::new(),
    }
}

#[test]
fn declarations_are_collected() {
    let p = program(
        vec![strukt("Point", &[], vec![field("x", Type::Int, 1), field("y", Type::Int, 2)], 0)],
        vec![enumeration("Color", &[], vec![variant("Red", Vec::new(), 3)], 10)],
    );
    let td = build_type_defs(&p).unwrap();
    assert!(td.resources.contains("Coin"));
    assert_eq!(find_struct(&td.structs, "Point"), Some(0));
    assert_eq!(find_enum(&td.enums, "Color"), Some(0));
    assert_eq!(find_struct(&td.structs, "Color"), None);
    assert_eq!(td.structs[0].fields.len(), 2);
}

#[test]
fn struct_named_like_a_resource_is_refused() {
    let p = program(vec![strukt("Coin", &[], Vec::new(), 4)], Vec::new());
    match build_type_defs(&p) {
        Err(TypeDefsError::Typer(e)) => {
            assert_eq!(e.code, "T702");
            assert_eq!(e.message, "at 4..8: type `Coin` conflicts with an existing resource name");
        }
        other => panic!("unexpected: {:?}", other),
    }
}

#[test]
fn duplicate_type_names_are_refused() {
    let p = program(vec![strukt("A", &[], Vec::new(), 0)], vec![enumeration("A", &[], Vec::new(), 20)]);
    match build_type_defs(&p) {
        Err(TypeDefsError::Typer(e)) => {
            assert_eq!(e.code, "T701");
            assert_eq!(e.message, "at 20..21: duplicate type `A`");
        }
        other => panic!("unexpected: {:?}", other),
    }
    let p = program(vec![strukt("Positive", &[], Vec::new(), 0)], Vec::new());
    match build_type_defs(&p) {
        Err(TypeDefsError::Typer(e)) => assert_eq!(e.code, "T701"),
        other => panic!("unexpected: {:?}", other),
    }
}

#[test]
fn repeated_fields_and_variants_are_refused() {
    let p = program(vec![strukt("P", &[], vec![field("x", Type::Int, 1), field("x", Type::Bool, 7)], 0)], Vec::new());
    match build_type_defs(&p) {
        Err(TypeDefsError::DuplicateStructField { name, span }) => {
            assert_eq!(name, "x");
            assert_eq!(span, sp(7, 8));
        }
        other => panic!("unexpected: {:?}", other),
    }
    let p = program(Vec::new(), vec![enumeration("E", &[], vec![variant("V", Vec::new(), 3), variant("V", Vec::new(), 9)], 0)]);
    match build_type_defs(&p) {
        Err(TypeDefsError::DuplicateEnumVariant { name, span }) => {
            assert_eq!(name, "V");
            assert_eq!(span, sp(9, 10));
        }
        other => panic!("unexpected: {:?}", other),
    }
}

fn defs() -> TypeDefs {
    let p = program(
        vec![
            strukt("Point", &[], vec![field("x", Type::Int, 1), field("y", Type::Int, 2)], 0),
            strukt("Bag", &[], vec![field("items", Type::List(Box::new(Type::Int)), 3)], 10),
            strukt("Node", &[], vec![field("next", Type::Option(Box::new(named("Node", vec![]))), 4)], 20),
            strukt("Wrap", &["T"], vec![field("inner", named("T", vec![]), 5)], 30),
            strukt("Keyed", &[], vec![field("index", Type::SetOf(Box::new(named("Bag", vec![]))), 6)], 40),
        ],
        vec![enumeration(
            "Shape",
            &["T"],
            vec![variant("Dot", vec![named("T", vec![])], 7), variant("Line", vec![Type::Int, Type::Int], 8)],
            50,
        )],
    );
    build_type_defs(&p).unwrap()
}

fn no_aliases() -> AliasMap {
    AliasMap::new()
}

fn fresh() -> SeenDecls {
    SeenDecls { structs: NameSet::new(), enums: NameSet::new() }
}

#[test]
fn field_types_are_substituted() {
    let td = defs();
    let fields = struct_field_types(&td.structs[3], &vec![Type::Bool]);
    assert!(matches!(fields.as_slice(), [Type::Bool]));
    let fields = enum_field_types(&td.enums[0], &vec![Type::U8]);
    assert!(matches!(fields.as_slice(), [Type::U8, Type::Int, Type::Int]));
}

#[test]
fn equatability_follows_the_fields() {
    let td = defs();
    let al = no_aliases();
    let tp = NameSet::new();
    let mut seen = fresh();
    assert_eq!(is_equatable_type(&named("Point", vec![]), &td, &al, &tp, &mut seen).unwrap(), true);
    assert_eq!(is_equatable_type(&named("Bag", vec![]), &td, &al, &tp, &mut seen).unwrap(), false);
    assert_eq!(is_equatable_type(&named("Node", vec![]), &td, &al, &tp, &mut seen).unwrap(), true);
    assert_eq!(is_equatable_type(&named("Coin", vec![]), &td, &al, &tp, &mut seen).unwrap(), false);
    assert_eq!(is_equatable_type(&named("Wrap", vec![Type::Bytes]), &td, &al, &tp, &mut seen).unwrap(), true);
    let list = Type::List(Box::new(Type::Int));
    assert_eq!(is_equatable_type(&named("Wrap", vec![list]), &td, &al, &tp, &mut seen).unwrap(), false);
    let slice = Type::Slice(Box::new(Type::Int));
    assert_eq!(is_equatable_type(&named("Shape", vec![slice]), &td, &al, &tp, &mut seen).unwrap(), false);
    assert_eq!(is_equatable_type(&named("Unknown", vec![]), &td, &al, &tp, &mut seen).unwrap(), true);
    let pair = Type::Tuple(vec![Type::Int, Type::String]);
    assert_eq!(is_equatable_type(&pair, &td, &al, &tp, &mut seen).unwrap(), true);
    assert!(seen.structs.contains("Node") == false);
}

#[test]
fn type_parameters_and_self_are_equatable() {
    let td = defs();
    let al = no_aliases();
    let mut tp = NameSet::new();
    tp.insert("K".to_string());
    let mut seen = fresh();
    assert_eq!(is_equatable_type(&named("K", vec![]), &td, &al, &tp, &mut seen).unwrap(), true);
    assert_eq!(is_equatable_type(&named("Self", vec![]), &td, &al, &tp, &mut seen).unwrap(), true);
}

#[test]
fn alias_cycles_are_reported() {
    let td = defs();
    let mut al = AliasMap::new();
    al.insert(
        "Loop".to_string(),
        AliasDef {
            type_params: Vec::new(),
            base: named("Loop", vec![]),
            predicate: Expr::Bool(true, sp(0, 0)),
            binder: None,
            span: sp(60, 64),
        },
    );
    let tp = NameSet::new();
    let mut seen = fresh();
    let e = is_equatable_type(&named("Loop", vec![]), &td, &al, &tp, &mut seen).unwrap_err();
    assert_eq!(e.code, "T703");
    match ensure_equatable_collection_keys(&Type::SetOf(Box::new(named("Loop", vec![]))), None, &td, &al, &tp) {
        Err(CollectionKeyError::Typer(e)) => assert_eq!(e.code, "T703"),
        other => panic!("unexpected: {:?}", other),
    }
}

#[test]
fn non_equatable_keys_are_found() {
    let td = defs();
    let al = no_aliases();
    let tp = NameSet::new();
    let mut seen = fresh();
    let bag_set = Type::SetOf(Box::new(named("Bag", vec![])));
    let found = find_non_equatable_collection_key(&bag_set, &td, &al, &tp, &mut seen).unwrap();
    assert!(matches!(found, Some(Type::Named { ref name, .. }) if name == "Bag"));
    let map = Type::MapOf(Box::new(Type::Int), Box::new(Type::SetOf(Box::new(Type::List(Box::new(Type::Int))))));
    let found = find_non_equatable_collection_key(&map, &td, &al, &tp, &mut seen).unwrap();
    assert!(matches!(found, Some(Type::List(_))));
    let fine = Type::MapOf(Box::new(named("Point", vec![])), Box::new(Type::Int));
    assert!(find_non_equatable_collection_key(&fine, &td, &al, &tp, &mut seen).unwrap().is_none());
    let through_struct = named("Keyed", vec![]);
    let found = find_non_equatable_collection_key(&through_struct, &td, &al, &tp, &mut seen).unwrap();
    assert!(matches!(found, Some(Type::Named { ref name, .. }) if name == "Bag"));
}

#[test]
fn collection_key_check_reports_the_span() {
    let td = defs();
    let al = no_aliases();
    let tp = NameSet::new();
    let ty = Type::Option(Box::new(Type::SetOf(Box::new(Type::Slice(Box::new(Type::U8))))));
    match ensure_equatable_collection_keys(&ty, Some(sp(3, 9)), &td, &al, &tp) {
        Err(CollectionKeyError::NonEquatableKey { offending, span }) => {
            assert!(matches!(offending, Type::Slice(_)));
            assert_eq!(span, Some(sp(3, 9)));
        }
        other => panic!("unexpected: {:?}", other),
    }
    assert!(ensure_equatable_collection_keys(&Type::SetOf(Box::new(Type::Int)), None, &td, &al, &tp).is_ok());
}

#[test]
fn option_and_result_patterns_bind_their_payloads() {
    let td = defs();
    let al = no_aliases();
    let opt = Type::Option(Box::new(Type::U64));
    let b = pattern_binders(&MatchPat::SomeBind("v".to_string()), &opt, &td, &al).unwrap();
    assert_eq!(b.len(), 1);
    assert_eq!(b[0].0, "v");
    assert!(matches!(b[0].1, Type::U64));
    let res = Type::Result(Box::new(Type::Bool), Box::new(Type::String));
    let b = pattern_binders(&MatchPat::ErrBind("e".to_string()), &res, &td, &al).unwrap();
    assert!(matches!(b[0].1, Type::String));
    let b = pattern_binders(&MatchPat::OkBind("o".to_string()), &opt, &td, &al).unwrap();
    assert!(b.is_empty());
    assert!(pattern_binders(&MatchPat::Wildcard, &opt, &td, &al).unwrap().is_empty());
}

#[test]
fn enum_patterns_bind_substituted_fields() {
    let td = defs();
    let al = no_aliases();
    let scrutinee = named("Shape", vec![Type::U8]);
    let pat = MatchPat::EnumVariant {
        enum_name: "Shape".to_string(),
        variant: "Line".to_string(),
        binders: vec!["a".to_string()],
    };
    let b = pattern_binders(&pat, &scrutinee, &td, &al).unwrap();
    assert_eq!(b.len(), 1);
    assert!(matches!(b[0].1, Type::Int));
    let pat = MatchPat::EnumVariant {
        enum_name: "Shape".to_string(),
        variant: "Dot".to_string(),
        binders: vec!["p".to_string(), "extra".to_string()],
    };
    let b = pattern_binders(&pat, &scrutinee, &td, &al).unwrap();
    assert_eq!(b.len(), 1);
    assert!(matches!(b[0].1, Type::U8));
    let other = MatchPat::EnumVariant { enum_name: "Other".to_string(), variant: "Dot".to_string(), binders: Vec::new() };
    assert!(pattern_binders(&other, &scrutinee, &td, &al).unwrap().is_empty());
}

#[test]
fn variant_lookup_failures_are_reported() {
    let td = defs();
    match enum_variant_fields(&td, "Nope", &Vec::new(), "A") {
        Err(BinderError::UnknownEnum { name }) => assert_eq!(name, "Nope"),
        other => panic!("unexpected: {:?}", other),
    }
    match enum_variant_fields(&td, "Shape", &Vec::new(), "Dot") {
        Err(BinderError::TypeArgCountMismatch { expected, found }) => assert_eq!((expected, found), (1, 0)),
        other => panic!("unexpected: {:?}", other),
    }
    match enum_variant_fields(&td, "Shape", &vec![Type::Int], "Circle") {
        Err(BinderError::UnknownVariant { name }) => assert_eq!(name, "Circle"),
        other => panic!("unexpected: {:?}", other),
    }
}
