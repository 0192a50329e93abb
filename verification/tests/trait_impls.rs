use typer::ast::{Expr, Func};
use typer::env::{ImplDecl, ImplInfo, TraitBound, TraitEnv, TraitMethod, TypeParam};
use typer::generics::BoundsMap;
use typer::names::{NameMap, NameSet};
use typer::trait_impls::{ensure_trait_bound, find_impl, trait_impl_exists, validate_impl_method_signature};
use typer::ty::{Effect, Param, ParamKind, Span, Type};
use typer::type_resolve::AliasMap;

fn sp(start: usize, end: usize) -> Span {
    Span { start, end }
}

fn named(name: &str, args: Vec<Type>) -> Type {
    Type::Named { name: name.to_string(), args }
}

fn imp(trait_name: &str, params: &[&str], for_type: Type, bounds: &[(&str, &str)], span: Span) -> ImplInfo {
    ImplInfo {
        decl: ImplDecl {
            trait_name: trait_name.to_string(),
            trait_name_span: sp(0, 0),
            type_params: params.iter().map(|p| TypeParam { name: p.to_string(), span: sp(0, 0) }).collect(),
            for_type,
            methods: Vec::new(),
            where_bounds: bounds
                .iter()
                .map(|(p, t)| TraitBound { param: p.to_string(), trait_name: t.to_string(), span: sp(0, 0) })
                .collect(),
            span,
        },
    }
}

fn env(impls: Vec<ImplInfo>) -> TraitEnv {
    TraitEnv { traits: NameMap::new(), impls }
}

fn missing_impl_case() {
    let trait_env = env(Vec::new());
    let aliases = AliasMap::new();
    let span = Span { start: 12, end: 34 };
    let err = match find_impl(&trait_env, &aliases, "Eq", &Type::Int, span) {
        Ok(_) => panic!("expected missing impl"),
        Err(err) => err,
    };
    assert_eq!(err.code, "T237");
    assert_eq!(err.start, span.start);
    assert_eq!(err.end, span.end);
}

fn ambiguous_impl_case() {
    let trait_env = env(vec![
        imp("Eq", &[], Type::Int, &[], Span { start: 1, end: 2 }),
        imp("Eq", &[], Type::Int, &[], Span { start: 3, end: 4 }),
    ]);
    let aliases = AliasMap::new();
    let span = Span { start: 55, end: 89 };
    let te = match find_impl(&trait_env, &aliases, "Eq", &Type::Int, span) {
        Ok(_) => panic!("expected ambiguous impl"),
        Err(err) => err,
    };
    assert_eq!(te.code, "T248");
    assert_eq!(te.start, span.start);
    assert_eq!(te.end, span.end);
    assert!(te.message.contains("candidates"));
    assert!(te.message.contains("implementation for `Int`"));
    assert!(te.message.contains("1..2"));
    assert!(te.message.contains("3..4"));
}

#[test]
fn monomorphize_find_impl_uses_call_span_for_missing_impl() {
    missing_impl_case();
}

#[test]
fn monomorphize_find_impl_uses_call_span_for_ambiguous_impl() {
    ambiguous_impl_case();
}

#[test]
fn tests_find_impl_uses_call_span_for_missing_impl() {
    missing_impl_case();
}

#[test]
fn tests_find_impl_uses_call_span_for_ambiguous_impl() {
    ambiguous_impl_case();
}

#[test]
fn find_impl_returns_the_binding() {
    let trait_env = env(vec![
        imp("Show", &[], Type::Bool, &[], sp(1, 2)),
        imp("Show", &["T"], Type::List(Box::new(named("T", vec![]))), &[("T", "Show")], sp(3, 4)),
        imp("Show", &[], Type::Int, &[], sp(5, 6)),
    ]);
    let aliases = AliasMap::new();
    let (k, subst) = find_impl(&trait_env, &aliases, "Show", &Type::List(Box::new(Type::Int)), sp(0, 0)).unwrap();
    assert_eq!(k, 1);
    assert!(matches!(subst.get("T"), Some(Type::Int)));
    let e = find_impl(&trait_env, &aliases, "Show", &Type::List(Box::new(Type::String)), sp(7, 9)).unwrap_err();
    assert_eq!(e.code, "T237");
    assert_eq!(e.message, "at 7..9: type `List<String>` does not satisfy trait bound `Show`");
}

#[test]
fn impl_search_follows_where_bounds() {
    let trait_env = env(vec![
        imp("Eq", &[], Type::Int, &[], sp(1, 2)),
        imp("Eq", &["T"], Type::Option(Box::new(named("T", vec![]))), &[("T", "Eq")], sp(3, 4)),
    ]);
    let aliases = AliasMap::new();
    let nested = Type::Option(Box::new(Type::Option(Box::new(Type::Int))));
    assert_eq!(trait_impl_exists("Eq", &nested, &trait_env, &aliases).unwrap(), true);
    let bad = Type::Option(Box::new(Type::Bool));
    assert_eq!(trait_impl_exists("Eq", &bad, &trait_env, &aliases).unwrap(), false);
    assert_eq!(trait_impl_exists("Ord", &Type::Int, &trait_env, &aliases).unwrap(), false);
}

#[test]
fn self_referential_bounds_are_taken_as_met() {
    // impl<T> A for T where T: B, and impl<T> B for T where T: A
    let trait_env = env(vec![
        imp("A", &["T"], named("T", vec![]), &[("T", "B")], sp(1, 2)),
        imp("B", &["T"], named("T", vec![]), &[("T", "A")], sp(3, 4)),
    ]);
    let aliases = AliasMap::new();
    assert_eq!(trait_impl_exists("A", &Type::Bytes, &trait_env, &aliases).unwrap(), true);
}

#[test]
fn trait_bounds_on_parameters_need_a_declaration() {
    let trait_env = env(vec![imp("Eq", &[], Type::Int, &[], sp(1, 2))]);
    let aliases = AliasMap::new();
    let mut params = NameSet::new();
    params.insert("T".to_string());
    let mut bounds = BoundsMap::new();
    assert!(ensure_trait_bound(&Type::Int, "Eq", &params, &bounds, &trait_env, &aliases, sp(0, 1)).is_ok());
    let e = ensure_trait_bound(&named("T", vec![]), "Eq", &params, &bounds, &trait_env, &aliases, sp(4, 5)).unwrap_err();
    assert_eq!(e.code, "T237");
    assert_eq!(e.message, "at 4..5: type `T` does not satisfy trait bound `Eq`");
    bounds.insert("T".to_string(), "Eq".to_string());
    assert!(ensure_trait_bound(&named("T", vec![]), "Eq", &params, &bounds, &trait_env, &aliases, sp(4, 5)).is_ok());
    let e = ensure_trait_bound(&Type::List(Box::new(named("T", vec![]))), "Eq", &params, &bounds, &trait_env, &aliases, sp(6, 7))
        .unwrap_err();
    assert_eq!(e.message, "at 6..7: type `List<T>` does not satisfy trait bound `Eq`");
    let e = ensure_trait_bound(&Type::Bool, "Eq", &params, &bounds, &trait_env, &aliases, sp(8, 9)).unwrap_err();
    assert_eq!(e.code, "T237");
}

fn method_decl(params: Vec<(ParamKind, Type)>, ret: Type, effect: Effect) -> TraitMethod {
    TraitMethod {
        name: "eq".to_string(),
        params: params.into_iter().map(|(kind, ty)| Param { kind, name: "x".to_string(), ty }).collect(),
        ret,
        effect,
        span: sp(30, 40),
    }
}

fn method_impl(params: Vec<(ParamKind, Type)>, ret: Type, effect: Effect) -> Func {
    Func {
        name: "eq".to_string(),
        type_params: Vec::new(),
        where_bounds: Vec::new(),
        params: params.into_iter().map(|(kind, ty)| Param { kind, name: "y".to_string(), ty }).collect(),
        ret,
        effect,
        effect_span: sp(0, 1),
        requires: Vec::new(),
        ensures: Vec::new(),
        body: Expr::Bool(true, sp(50, 54)),
        span: sp(45, 60),
    }
}

#[test]
fn impl_methods_must_match_the_trait_with_self_substituted() {
    let decl = method_decl(vec![(ParamKind::Borrow, named("Self", vec![])), (ParamKind::Borrow, named("Self", vec![]))], Type::Bool, Effect::Pure);
    let good = method_impl(vec![(ParamKind::Borrow, Type::Int), (ParamKind::Borrow, Type::Int)], Type::Bool, Effect::Pure);
    assert!(validate_impl_method_signature("Eq", &decl, &good, &Type::Int).is_ok());
    let wrong_type = method_impl(vec![(ParamKind::Borrow, Type::Int), (ParamKind::Borrow, Type::Bool)], Type::Bool, Effect::Pure);
    let err = validate_impl_method_signature("Eq", &decl, &wrong_type, &Type::Int).unwrap_err();
    assert_eq!(err.trait_name, "Eq");
    assert_eq!(err.method, "eq");
    assert_eq!(err.span, sp(30, 40));
    let wrong_kind = method_impl(vec![(ParamKind::Consume, Type::Int), (ParamKind::Borrow, Type::Int)], Type::Bool, Effect::Pure);
    assert!(validate_impl_method_signature("Eq", &decl, &wrong_kind, &Type::Int).is_err());
    let wrong_effect = method_impl(vec![(ParamKind::Borrow, Type::Int), (ParamKind::Borrow, Type::Int)], Type::Bool, Effect::Io);
    assert!(validate_impl_method_signature("Eq", &decl, &wrong_effect, &Type::Int).is_err());
    let wrong_arity = method_impl(vec![(ParamKind::Borrow, Type::Int)], Type::Bool, Effect::Pure);
    assert!(validate_impl_method_signature("Eq", &decl, &wrong_arity, &Type::Int).is_err());
    let wrong_ret = method_impl(vec![(ParamKind::Borrow, Type::Int), (ParamKind::Borrow, Type::Int)], Type::Int, Effect::Pure);
    assert!(validate_impl_method_signature("Eq", &decl, &wrong_ret, &Type::Int).is_err());
}
