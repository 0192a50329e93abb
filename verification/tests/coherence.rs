use typer::coherence::{types_overlap, validate_impl_coherence};
use typer::env::{ImplDecl, ImplInfo, TraitEnv, TraitInfo, TypeParam};
use typer::names::{NameMap, NameSet};
use typer::ty::{Span, Type};

fn sp(start: usize, end: usize) -> Span {
    Span { start, end }
}

fn p(name: &str) -> Type {
    Type::Named { name: name.to_string(), args: Vec::new() }
}

fn params(names: &[&str]) -> NameSet {
    let mut s = NameSet::new();
    for n in names {
        s.insert(n.to_string());
    }
    s
}

#[test]
fn overlap_of_patterns() {
    let none = params(&[]);
    let t = params(&["T"]);
    assert!(types_overlap(&Type::Int, &none, &Type::Int, &none));
    assert!(!types_overlap(&Type::Int, &none, &Type::Bool, &none));
    assert!(types_overlap(&p("T"), &t, &Type::Int, &none));
    assert!(types_overlap(&Type::List(Box::new(p("T"))), &t, &Type::List(Box::new(Type::U8)), &none));
    assert!(!types_overlap(&Type::List(Box::new(p("T"))), &t, &Type::Option(Box::new(Type::U8)), &none));
    // a parameter used twice must meet the same type both times
    let pair_tt = Type::Tuple(vec![p("T"), p("T")]);
    assert!(types_overlap(&pair_tt, &t, &Type::Tuple(vec![Type::Int, Type::Int]), &none));
    assert!(!types_overlap(&pair_tt, &t, &Type::Tuple(vec![Type::Int, Type::Bool]), &none));
    let u = params(&["U"]);
    assert!(types_overlap(&Type::MapOf(Box::new(Type::Int), Box::new(p("T"))), &t, &Type::MapOf(Box::new(p("U")), Box::new(Type::Bool)), &u));
    assert!(types_overlap(&Type::Array(Box::new(Type::U8), Some(2)), &none, &Type::Array(Box::new(Type::U8), Some(2)), &none));
    // array lengths are not compared
    assert!(types_overlap(&Type::Array(Box::new(Type::U8), Some(2)), &none, &Type::Array(Box::new(Type::U8), Some(3)), &none));
    assert!(!types_overlap(&Type::Array(Box::new(Type::U8), Some(2)), &none, &Type::Array(Box::new(Type::U64), Some(2)), &none));
}

fn imp(trait_name: &str, tps: &[&str], for_type: Type, at: usize) -> ImplInfo {
    ImplInfo {
        decl: ImplDecl {
            trait_name: trait_name.to_string(),
            trait_name_span: sp(0, 0),
            type_params: tps.iter().map(|n| TypeParam { name: n.to_string(), span: sp(0, 0) }).collect(),
            for_type,
            methods: Vec::new(),
            where_bounds: Vec::new(),
            span: sp(at, at + 1),
        },
    }
}

fn env(impls: Vec<ImplInfo>) -> TraitEnv {
    let mut traits = NameMap::new();
    traits.insert("Eq".to_string(), TraitInfo { methods: NameMap::new() });
    traits.insert("Show".to_string(), TraitInfo { methods: NameMap::new() });
    TraitEnv { traits, impls }
}

#[test]
fn coherent_impls_are_accepted() {
    let e = env(vec![
        imp("Eq", &[], Type::Int, 1),
        imp("Eq", &[], Type::Bool, 3),
        imp("Show", &[], Type::Int, 5),
        imp("Eq", &["T"], Type::List(Box::new(p("T"))), 7),
    ]);
    assert!(validate_impl_coherence(&e).is_ok());
}

#[test]
fn overlapping_impls_are_reported() {
    let e = env(vec![
        imp("Eq", &[], Type::Int, 1),
        imp("Show", &[], Type::Int, 3),
        imp("Eq", &["T"], p("T"), 5),
    ]);
    let f = validate_impl_coherence(&e).unwrap_err();
    assert_eq!(f.trait_name, "Eq");
    assert_eq!(f.first, sp(1, 2));
    assert_eq!(f.second, sp(5, 6));
}

#[test]
fn impls_of_undeclared_traits_are_not_compared() {
    let e = env(vec![imp("Ord", &[], Type::Int, 1), imp("Ord", &[], Type::Int, 3)]);
    assert!(validate_impl_coherence(&e).is_ok());
}
