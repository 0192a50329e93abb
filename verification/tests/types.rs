use typer::ast::{Block, EnumDecl, Expr, StructDecl};
use typer::known::{ensure_known_type, KnownTypeError, StdTypeInfo, StdTypeMap};
use typer::display::show_ty;
use typer::env::{TraitBound, TraitEnv, TraitInfo, TypeDefs, TypeParam};
use typer::generics::{
    builtin_type_names, type_param_names, type_pattern_matches, unify_type_params, validate_bounds, validate_type_params,
    BoundFault,
    TypeParamFault, UnifyError,
};
use typer::literals::{
    ensure_bool, ensure_int, expr_span, int_literal_value, literal_can_coerce_unsigned, u64_literal_overflow,
    unsigned_literal_fits, unsigned_literal_fits_value, unsigned_literal_max, unsigned_literal_range_error,
    unsigned_literal_value,
};
use typer::ast::BinOp;
use typer::names::{NameMap, NameSet};
use typer::ty::{Span, Type};
use typer::type_params::{substitute_type, type_contains_params, TypeSubst};
use typer::type_resolve::{
    alias_name, base_type, base_types_match, binding_compatible, is_resource_type, refinement_loss, resolve_aliases,
    AliasDef, AliasMap,
};

fn sp(start: usize, end: usize) -> Span {
    Span { start, end }
}

fn named(name: &str, args: Vec<Type>) -> Type {
    Type::Named { name: name.to_string(), args }
}

fn alias(params: &[&str], base: Type, at: usize) -> AliasDef {
    AliasDef {
        type_params: params.iter().map(|p| p.to_string()).collect(),
        base,
        predicate: Expr::Bool(true, sp(at, at)),
        binder: None,
        span: sp(at, at + 4),
    }
}

fn aliases() -> AliasMap {
    let mut m = AliasMap::new();
    m.insert("Positive".to_string(), alias(&[], Type::Int, 1));
    m.insert("Wrapped".to_string(), alias(&["T"], Type::List(Box::new(named("T", vec![]))), 10));
    m.insert("Loop".to_string(), alias(&[], named("Loop", vec![]), 20));
    m
}

fn names(list: &[&str]) -> NameSet {
    let mut s = NameSet::new();
    for n in list {
        s.insert(n.to_string());
    }
    s
}

fn type_defs() -> TypeDefs {
    TypeDefs {
        resources: names(&["Coin"]),
        structs: vec![StructDecl {
            name: "Point".to_string(),
            name_span: sp(0, 5),
            type_params: Vec::new(),
            fields: Vec::new(),
            is_resource: false,
        }],
        enums: vec![EnumDecl {
            name: "Color".to_string(),
            name_span: sp(6, 11),
            type_params: Vec::new(),
            variants: Vec::new(),
            is_resource: false,
        }],
    }
}

#[test]
fn aliases_expand_to_their_base() {
    let al = aliases();
    assert_eq!(show_ty(&base_type(&named("Positive", vec![]), &al).unwrap()), "Int");
    let wrapped = named("Wrapped", vec![named("Positive", vec![])]);
    assert_eq!(show_ty(&base_type(&wrapped, &al).unwrap()), "List<Int>");
    // wrong number of arguments: left alone
    let bad = named("Wrapped", vec![]);
    assert_eq!(show_ty(&base_type(&bad, &al).unwrap()), "Wrapped");
}

#[test]
fn cyclic_alias_is_reported() {
    let al = aliases();
    let e = base_type(&Type::Option(Box::new(named("Loop", vec![]))), &al).unwrap_err();
    assert_eq!(e.code, "T703");
    assert_eq!(e.message, "at 20..24: cyclic refinement alias detected involving `Loop`");
}

#[test]
fn type_parameters_are_not_expanded() {
    let al = aliases();
    let mut visiting: Vec<String> = Vec::new();
    let params = names(&["Positive"]);
    let t = resolve_aliases(&named("Positive", vec![]), &al, &mut visiting, &params).unwrap();
    assert_eq!(show_ty(&t), "Positive");
    assert!(visiting.is_empty());
}

#[test]
fn expanding_twice_changes_nothing() {
    let al = aliases();
    let t = named("Wrapped", vec![Type::Tuple(vec![named("Positive", vec![]), Type::Bool])]);
    let once = base_type(&t, &al).unwrap();
    let twice = base_type(&once, &al).unwrap();
    assert_eq!(show_ty(&once), show_ty(&twice));
    assert_eq!(show_ty(&once), "List<(Int, Bool)>");
}

#[test]
fn alias_names_and_base_matching() {
    let al = aliases();
    assert_eq!(alias_name(&named("Positive", vec![]), &al), Some("Positive"));
    assert_eq!(alias_name(&named("Wrapped", vec![]), &al), None);
    assert_eq!(alias_name(&Type::Int, &al), None);
    assert_eq!(base_types_match(&named("Positive", vec![]), &Type::Int, &al).unwrap(), true);
    let a = Type::Array(Box::new(named("Positive", vec![])), Some(3));
    let b = Type::Array(Box::new(Type::Int), Some(5));
    assert_eq!(base_types_match(&a, &b, &al).unwrap(), true);
    let c = Type::Slice(Box::new(Type::Bool));
    assert_eq!(base_types_match(&a, &c, &al).unwrap(), false);
    assert_eq!(base_types_match(&Type::U64, &Type::Int, &al).unwrap(), false);
}

#[test]
fn refinements_are_lost_flowing_into_plain_types() {
    let al = aliases();
    let pos = named("Positive", vec![]);
    assert!(refinement_loss(&Type::Int, &pos, &al));
    assert!(!refinement_loss(&pos, &Type::Int, &al));
    assert!(refinement_loss(&Type::Option(Box::new(Type::Int)), &Type::Option(Box::new(pos)), &al));
    assert!(!refinement_loss(&Type::Int, &Type::Int, &al));
}

#[test]
fn binding_compatibility() {
    let al = aliases();
    let pos = named("Positive", vec![]);
    assert_eq!(binding_compatible(&Type::Int, &Type::Int, &al).unwrap(), true);
    assert_eq!(binding_compatible(&pos, &Type::Int, &al).unwrap(), true);
    assert_eq!(binding_compatible(&Type::Int, &pos, &al).unwrap(), false);
    let a = Type::Array(Box::new(Type::U8), Some(4));
    let b = Type::Array(Box::new(Type::U8), None);
    assert_eq!(binding_compatible(&a, &b, &al).unwrap(), true);
    assert_eq!(binding_compatible(&Type::Bool, &Type::Int, &al).unwrap(), false);
}

#[test]
fn resource_types_are_found_through_aliases_and_containers() {
    let mut al = aliases();
    al.insert("Wallet".to_string(), alias(&[], named("Coin", vec![]), 30));
    let defs = type_defs();
    assert_eq!(is_resource_type(&named("Coin", vec![]), &al, &defs).unwrap(), true);
    assert_eq!(is_resource_type(&named("Wallet", vec![]), &al, &defs).unwrap(), true);
    assert_eq!(is_resource_type(&Type::List(Box::new(named("Coin", vec![]))), &al, &defs).unwrap(), true);
    assert_eq!(is_resource_type(&Type::Tuple(vec![Type::Int, named("Coin", vec![])]), &al, &defs).unwrap(), true);
    assert_eq!(is_resource_type(&named("Point", vec![]), &al, &defs).unwrap(), false);
    assert_eq!(is_resource_type(&Type::Int, &al, &defs).unwrap(), false);
    assert_eq!(is_resource_type(&named("Loop", vec![]), &al, &defs).unwrap_err().code, "T703");
}

#[test]
fn substitution_and_parameter_mentions() {
    let mut s = TypeSubst::new();
    s.insert("T".to_string(), Type::U64);
    let t = Type::MapOf(Box::new(named("T", vec![])), Box::new(Type::List(Box::new(named("T", vec![])))));
    assert_eq!(show_ty(&substitute_type(&t, &s)), "Map<U64, List<U64>>");
    let params = names(&["T"]);
    assert!(type_contains_params(&t, &params));
    assert!(!type_contains_params(&Type::Int, &params));
}

#[test]
fn builtin_and_declared_parameter_names() {
    let b = builtin_type_names();
    for n in ["Int", "U8", "U64", "U128", "U256", "Bool", "String", "Bytes", "Option", "Result", "List", "Set", "Map", "Self"] {
        assert!(b.contains(n), "{n}");
    }
    assert!(!b.contains("T"));
    let ps = vec![TypeParam { name: "A".to_string(), span: sp(0, 1) }, TypeParam { name: "B".to_string(), span: sp(2, 3) }];
    let n = type_param_names(&ps);
    assert!(n.contains("A") && n.contains("B") && !n.contains("C"));
}

fn empty_trait_env() -> TraitEnv {
    TraitEnv { traits: NameMap::new(), impls: Vec::new() }
}

#[test]
fn type_parameter_validation() {
    let defs = type_defs();
    let al = aliases();
    let mut env = empty_trait_env();
    env.traits.insert("Eq".to_string(), TraitInfo { methods: NameMap::new() });
    let ok = vec![TypeParam { name: "T".to_string(), span: sp(0, 1) }, TypeParam { name: "U".to_string(), span: sp(2, 3) }];
    let names = validate_type_params(&ok, &defs, &al, &env).unwrap();
    assert!(names.contains("T") && names.contains("U"));
    let dup = vec![TypeParam { name: "T".to_string(), span: sp(0, 1) }, TypeParam { name: "T".to_string(), span: sp(5, 6) }];
    match validate_type_params(&dup, &defs, &al, &env) {
        Err(TypeParamFault::Duplicate { name, span }) => {
            assert_eq!(name, "T");
            assert_eq!(span, sp(5, 6));
        }
        other => panic!("unexpected {other:?}"),
    }
    for taken in ["Int", "Coin", "Point", "Color", "Positive", "Eq", "Self"] {
        let ps = vec![TypeParam { name: taken.to_string(), span: sp(7, 8) }];
        match validate_type_params(&ps, &defs, &al, &env) {
            Err(TypeParamFault::Conflict { name, span }) => {
                assert_eq!(name, taken);
                assert_eq!(span, sp(7, 8));
            }
            other => panic!("unexpected {other:?}"),
        }
    }
}

#[test]
fn unification_binds_and_checks_parameters() {
    let al = aliases();
    let params = names(&["T"]);
    let mut subst = TypeSubst::new();
    let pattern = Type::Tuple(vec![named("T", vec![]), Type::List(Box::new(named("T", vec![])))]);
    let actual = Type::Tuple(vec![named("Positive", vec![]), Type::List(Box::new(Type::Int))]);
    unify_type_params(&pattern, &actual, &params, &mut subst, &al).unwrap();
    assert_eq!(show_ty(subst.get("T").unwrap()), "Positive");
    let clash = Type::Tuple(vec![Type::Int, Type::List(Box::new(Type::Bool))]);
    let mut subst2 = TypeSubst::new();
    match unify_type_params(&pattern, &clash, &params, &mut subst2, &al) {
        Err(UnifyError::Mismatch { name, existing, actual }) => {
            assert_eq!(name, "T");
            assert_eq!(show_ty(&existing), "Int");
            assert_eq!(show_ty(&actual), "Bool");
        }
        other => panic!("unexpected {other:?}"),
    }
    // shapes that differ are skipped, and patterns without parameters bind nothing
    let mut subst3 = TypeSubst::new();
    unify_type_params(&Type::Option(Box::new(named("T", vec![]))), &Type::Int, &params, &mut subst3, &al).unwrap();
    unify_type_params(&Type::List(Box::new(Type::Int)), &Type::List(Box::new(Type::Bool)), &params, &mut subst3, &al).unwrap();
    assert!(subst3.get("T").is_none());
}

#[test]
fn literal_values() {
    assert_eq!(unsigned_literal_value(&Expr::Int(5, sp(0, 1))), Some(5));
    assert_eq!(unsigned_literal_value(&Expr::Int(-5, sp(0, 1))), None);
    let wrapped = Expr::Call { callee: "U8".to_string(), args: vec![Expr::Int(7, sp(3, 4))], span: sp(0, 5) };
    assert_eq!(unsigned_literal_value(&wrapped), Some(7));
    let other = Expr::Call { callee: "f".to_string(), args: vec![Expr::Int(7, sp(3, 4))], span: sp(0, 5) };
    assert_eq!(unsigned_literal_value(&other), None);
    let blk = Expr::Block {
        block: Box::new(Block { statements: Vec::new(), tail: Some(Box::new(Expr::Int(-9, sp(1, 2)))), span: sp(0, 3) }),
    };
    assert_eq!(int_literal_value(&blk), Some(-9));
    assert_eq!(unsigned_literal_value(&blk), None);
    let ret = Expr::Return { expr: Box::new(Expr::Int(4, sp(1, 2))), span: sp(0, 2) };
    assert_eq!(int_literal_value(&ret), Some(4));
    assert_eq!(expr_span(&ret), sp(0, 2));
    assert_eq!(expr_span(&blk), sp(0, 3));
}

#[test]
fn literal_ranges_and_coercion() {
    assert_eq!(unsigned_literal_max(&Type::U8), Some(255));
    assert_eq!(unsigned_literal_max(&Type::U64), Some(u64::MAX as u128));
    assert_eq!(unsigned_literal_max(&Type::U128), Some(u128::MAX));
    assert_eq!(unsigned_literal_max(&Type::U256), None);
    assert!(unsigned_literal_fits_value(&Type::U8, 255));
    assert!(!unsigned_literal_fits_value(&Type::U8, 256));
    assert!(unsigned_literal_fits_value(&Type::U256, u128::MAX));
    assert!(!unsigned_literal_fits(&Type::U8, &Expr::Int(300, sp(0, 3))));
    assert!(literal_can_coerce_unsigned(&Type::U8, &Type::Int, &Expr::Int(200, sp(0, 3))));
    assert!(!literal_can_coerce_unsigned(&Type::U8, &Type::Bool, &Expr::Int(200, sp(0, 3))));
    assert!(!literal_can_coerce_unsigned(&Type::Int, &Type::Int, &Expr::Int(200, sp(0, 3))));
    let o = unsigned_literal_range_error(&Type::U8, &Type::Int, &Expr::Int(300, sp(4, 7))).unwrap();
    assert_eq!(show_ty(&o.target), "U8");
    assert_eq!(o.value, 300);
    assert_eq!(o.span, sp(4, 7));
    assert!(unsigned_literal_range_error(&Type::U8, &Type::Int, &Expr::Int(30, sp(4, 7))).is_none());
}

#[test]
fn u64_constant_folding_overflow() {
    let max = u64::MAX as u128;
    assert!(u64_literal_overflow(&BinOp::Add, max, 1));
    assert!(!u64_literal_overflow(&BinOp::Add, max - 1, 1));
    assert!(u64_literal_overflow(&BinOp::Sub, 1, 2));
    assert!(!u64_literal_overflow(&BinOp::Sub, 2, 2));
    assert!(u64_literal_overflow(&BinOp::Mul, max, 2));
    assert!(u64_literal_overflow(&BinOp::Mul, u128::MAX, 2));
    assert!(!u64_literal_overflow(&BinOp::Div, 1, 0));
}

#[test]
fn operand_type_requirements() {
    let al = aliases();
    assert!(ensure_int(named("Positive", vec![]), &al, "operand", None).is_ok());
    let e = ensure_int(Type::Bool, &al, "left operand", Some(sp(2, 5))).unwrap_err();
    assert_eq!(e.code, "T005");
    assert_eq!(e.message, "at 2..5: left operand must be Int, found `Bool`");
    let e = ensure_bool(Type::Int, &al, "condition", None).unwrap_err();
    assert_eq!(e.code, "T012");
    assert_eq!(e.message, "condition must be Bool, found `Int`");
    assert!(ensure_bool(Type::Bool, &al, "condition", None).is_ok());
}

#[test]
fn where_clauses_name_declared_parameters_and_traits() {
    let mut env = empty_trait_env();
    env.traits.insert("Eq".to_string(), TraitInfo { methods: NameMap::new() });
    env.traits.insert("Ord".to_string(), TraitInfo { methods: NameMap::new() });
    let tp = names(&["T", "U"]);
    let bound = |p: &str, t: &str, at: usize| TraitBound { param: p.to_string(), trait_name: t.to_string(), span: sp(at, at + 1) };
    let m = validate_bounds(&vec![bound("T", "Eq", 0), bound("T", "Ord", 2), bound("U", "Eq", 4)], &tp, &env).unwrap();
    assert!(m.has_bound("T", "Eq") && m.has_bound("T", "Ord") && m.has_bound("U", "Eq"));
    assert!(!m.has_bound("U", "Ord"));
    match validate_bounds(&vec![bound("T", "Eq", 0), bound("V", "Eq", 6)], &tp, &env) {
        Err(BoundFault::UnknownTypeParam { name, span }) => {
            assert_eq!(name, "V");
            assert_eq!(span, sp(6, 7));
        }
        other => panic!("unexpected {other:?}"),
    }
    match validate_bounds(&vec![bound("U", "Show", 8)], &tp, &env) {
        Err(BoundFault::UnknownTrait { name, span }) => {
            assert_eq!(name, "Show");
            assert_eq!(span, sp(8, 9));
        }
        other => panic!("unexpected {other:?}"),
    }
}

#[test]
fn impl_patterns_bind_parameters() {
    let al = aliases();
    let params = names(&["T"]);
    let mut subst = TypeSubst::new();
    let pattern = Type::List(Box::new(named("T", vec![])));
    let actual = Type::List(Box::new(Type::U64));
    assert_eq!(type_pattern_matches(&pattern, &actual, &params, &mut subst, &al).unwrap(), true);
    assert!(matches!(subst.get("T"), Some(Type::U64)));
    let pair = Type::Tuple(vec![named("T", vec![]), named("T", vec![])]);
    let mut subst = TypeSubst::new();
    let same = Type::Tuple(vec![named("Positive", vec![]), Type::Int]);
    assert_eq!(type_pattern_matches(&pair, &same, &params, &mut subst, &al).unwrap(), true);
    let mut subst = TypeSubst::new();
    let differ = Type::Tuple(vec![Type::Int, Type::Bool]);
    assert_eq!(type_pattern_matches(&pair, &differ, &params, &mut subst, &al).unwrap(), false);
}

#[test]
fn impl_patterns_compare_concrete_types_after_expansion() {
    let al = aliases();
    let params = names(&["T"]);
    let mut subst = TypeSubst::new();
    assert_eq!(type_pattern_matches(&Type::Int, &named("Positive", vec![]), &params, &mut subst, &al).unwrap(), true);
    assert_eq!(type_pattern_matches(&Type::Int, &Type::Bool, &params, &mut subst, &al).unwrap(), false);
    assert_eq!(
        type_pattern_matches(&Type::Option(Box::new(Type::Int)), &Type::List(Box::new(Type::Int)), &params, &mut subst, &al)
            .unwrap(),
        false
    );
    let e = type_pattern_matches(&Type::Int, &named("Loop", vec![]), &params, &mut subst, &al).unwrap_err();
    assert_eq!(e.code, "T703");
}

fn std_types() -> StdTypeMap {
    let mut m = StdTypeMap::new();
    m.insert("Address".to_string(), StdTypeInfo { byte_len: 20, align: 1 });
    m
}

#[test]
fn known_types_are_accepted() {
    let al = aliases();
    let td = type_defs();
    let tp = names(&["T"]);
    let std = std_types();
    for ty in [
        named("Point", vec![]),
        named("Color", vec![]),
        named("Coin", vec![]),
        named("Address", vec![]),
        named("Positive", vec![]),
        named("Wrapped", vec![named("T", vec![])]),
        Type::MapOf(Box::new(Type::String), Box::new(Type::List(Box::new(named("Point", vec![]))))),
    ] {
        assert!(ensure_known_type(&ty, &al, &td, &tp, &std, None).is_ok());
    }
}

#[test]
fn unknown_and_misapplied_types_are_refused() {
    let al = aliases();
    let td = type_defs();
    let tp = names(&["T"]);
    let std = std_types();
    match ensure_known_type(&Type::Option(Box::new(named("Nope", vec![]))), &al, &td, &tp, &std, Some(sp(3, 7))) {
        Err(KnownTypeError::UnknownType { name, span }) => {
            assert_eq!(name, "Nope");
            assert_eq!(span, Some(sp(3, 7)));
        }
        other => panic!("unexpected: {:?}", other),
    }
    match ensure_known_type(&named("Wrapped", vec![]), &al, &td, &tp, &std, None) {
        Err(KnownTypeError::TypeArgCountMismatch { name, expected, found, .. }) => {
            assert_eq!((name.as_str(), expected, found), ("Wrapped", 1, 0));
        }
        other => panic!("unexpected: {:?}", other),
    }
    match ensure_known_type(&named("Coin", vec![Type::Int]), &al, &td, &tp, &std, None) {
        Err(KnownTypeError::TypeArgCountMismatch { expected, found, .. }) => assert_eq!((expected, found), (0, 1)),
        other => panic!("unexpected: {:?}", other),
    }
    match ensure_known_type(&named("T", vec![Type::Int]), &al, &td, &tp, &std, None) {
        Err(KnownTypeError::TypeParamWithArgs { name, .. }) => assert_eq!(name, "T"),
        other => panic!("unexpected: {:?}", other),
    }
    let f = Type::Fn { params: vec![Type::Int, named("Ghost", vec![])], ret: Box::new(Type::Bool) };
    assert!(matches!(ensure_known_type(&f, &al, &td, &tp, &std, None), Err(KnownTypeError::UnknownType { .. })));
}
