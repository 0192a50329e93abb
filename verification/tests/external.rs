use typer::builtins::BuiltinRoute;
use typer::external::{bundled_non_abi_external_builtin_sigs, external_builtin_sigs_match, merged_external_builtin_sigs, ExternalBuiltinSig};
use typer::names::NameSet;
use typer::ty::{Effect, Param, ParamKind, Type};

fn ext(name: &str, ret: Type) -> ExternalBuiltinSig {
    ExternalBuiltinSig {
        name: name.to_string(),
        params: vec![Param { kind: ParamKind::Borrow, name: "x".to_string(), ty: Type::Int }],
        ret,
        effect: Effect::Pure,
        route: BuiltinRoute::PackageImport,
    }
}

fn abi(names: &[&str]) -> NameSet {
    let mut s = NameSet::new();
    for n in names {
        s.insert(n.to_string());
    }
    s
}

#[test]
fn bundled_builtins_leave_out_the_abi_and_carry_routes() {
    let all = bundled_non_abi_external_builtin_sigs(&abi(&[]));
    assert_eq!(all.len(), 133);
    assert_eq!(all[0].name, "std::bytes::len");
    assert_eq!(all[0].route, BuiltinRoute::Intrinsic);
    let some = bundled_non_abi_external_builtin_sigs(&abi(&["std::bytes::len"]));
    assert_eq!(some.len(), 132);
    assert!(some.iter().all(|s| s.name != "std::bytes::len"));
}

#[test]
fn merged_builtins_are_sorted_and_unique() {
    let extra = vec![ext("zz::late", Type::Int), ext("aa::early", Type::Bool), ext("zz::late", Type::Int)];
    let merged = merged_external_builtin_sigs(&abi(&[]), &extra).unwrap();
    assert_eq!(merged.len(), 135);
    for w in merged.windows(2) {
        assert!(w[0].name < w[1].name);
    }
    assert_eq!(merged[0].name, "aa::early");
    assert_eq!(merged[134].name, "zz::late");
}

#[test]
fn conflicting_declarations_are_refused() {
    let extra = vec![ext("zz::late", Type::Int), ext("zz::late", Type::Bool)];
    let e = merged_external_builtin_sigs(&abi(&[]), &extra).unwrap_err();
    assert_eq!(e.name, "zz::late");
    assert!(external_builtin_sigs_match(&ext("a", Type::Int), &ext("a", Type::Int)));
    assert!(!external_builtin_sigs_match(&ext("a", Type::Int), &ext("a", Type::U64)));
}
