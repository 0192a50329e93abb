use typer::builtin_table::{
    all_builtin_sigs, builtin_sigs, non_abi_builtin_sigs, verified_std_abi_value_symbols, AbiExport, AbiExportKind,
    AbiModule, VerifiedStdAbiManifest,
};
use typer::builtins::builtin_compat_alias_target;
use typer::display::show_ty;
use typer::names::NameSet;
use typer::ty::{Effect, ParamKind};

#[test]
fn table_holds_every_builtin_once() {
    let all = all_builtin_sigs();
    assert_eq!(all.len(), 133);
    let mut seen = std::collections::BTreeSet::new();
    for (name, _, _, _) in &all {
        assert!(seen.insert(name.clone()), "duplicate {name}");
    }
    let (name, params, ret, effect) = &all[0];
    assert_eq!(name, "std::bytes::len");
    assert_eq!(params.len(), 1);
    assert_eq!(params[0].name, "b");
    assert_eq!(params[0].kind, ParamKind::Borrow);
    assert_eq!(show_ty(&params[0].ty), "Bytes");
    assert_eq!(show_ty(ret), "Int");
    assert_eq!(*effect, Effect::Pure);
    let (name, params, ret, effect) = &all[132];
    assert_eq!(name, "std::cosmos::from_array");
    assert_eq!(params.len(), 1);
    assert_eq!(params[0].name, "bytes");
    assert_eq!(show_ty(&params[0].ty), "Array<U8>");
    assert_eq!(show_ty(ret), "std::cosmos::Addr");
    assert_eq!(*effect, Effect::Pure);
}

#[test]
fn signatures_keep_their_shapes() {
    let all = all_builtin_sigs();
    let find = |n: &str| all.iter().find(|s| s.0 == n).expect(n);
    let get = find("std::host::storage::get");
    assert_eq!(show_ty(&get.2), "Result<Option<Bytes>, std::host::HostError>");
    assert_eq!(get.3, Effect::Io);
    let limbs = find("std::u256::from_limbs");
    assert_eq!(limbs.1.len(), 4);
    assert_eq!(limbs.1[3].name, "limb3");
    assert_eq!(find("std::env::time").1.len(), 0);
}

#[test]
fn compat_aliases_point_at_declared_builtins() {
    let all = all_builtin_sigs();
    for alias in ["std::bytes::equals", "std::u64::add_wrap", "std::crypto::sha256", "std::crypto::hmac_sha256"] {
        let target = builtin_compat_alias_target(alias).unwrap();
        assert!(all.iter().any(|s| s.0 == alias));
        assert!(all.iter().any(|s| s.0 == target));
    }
}

fn manifest() -> VerifiedStdAbiManifest {
    VerifiedStdAbiManifest {
        schema_version: 1,
        modules: vec![
            AbiModule {
                path: "std::bytes".to_string(),
                exports: vec![
                    AbiExport { name: "len".to_string(), kind: AbiExportKind::Value },
                    AbiExport { name: "Bytes".to_string(), kind: AbiExportKind::Type },
                    AbiExport { name: "concat".to_string(), kind: AbiExportKind::Value },
                ],
            },
            AbiModule {
                path: "std::env".to_string(),
                exports: vec![AbiExport { name: "time".to_string(), kind: AbiExportKind::Value }],
            },
        ],
    }
}

#[test]
fn abi_symbols_are_the_value_exports() {
    let s = verified_std_abi_value_symbols(&manifest());
    assert!(s.contains("std::bytes::len"));
    assert!(s.contains("std::bytes::concat"));
    assert!(s.contains("std::env::time"));
    assert!(!s.contains("std::bytes::Bytes"));
    assert!(!s.contains("std::bytes::eq"));
}

#[test]
fn abi_split_partitions_the_table() {
    let abi = verified_std_abi_value_symbols(&manifest());
    let inside = builtin_sigs(&abi);
    let outside = non_abi_builtin_sigs(&abi);
    let names: Vec<&str> = inside.iter().map(|s| s.0.as_str()).collect();
    assert_eq!(names, vec!["std::bytes::len", "std::bytes::concat", "std::env::time"]);
    assert_eq!(inside.len() + outside.len(), 133);
    assert!(outside.iter().all(|s| !abi.contains(s.0.as_str())));
    let none = NameSet::new();
    assert_eq!(builtin_sigs(&none).len(), 0);
    assert_eq!(non_abi_builtin_sigs(&none).len(), 133);
}

#[test]
fn legacy_aliases_keep_their_targets_signatures() {
    let all = all_builtin_sigs();
    let find = |n: &str| all.iter().find(|s| s.0 == n).expect(n);
    for alias in [
        "std::bytes::equals",
        "std::bytes::equals_ct",
        "std::str::equals",
        "std::u64::add_wrap",
        "std::u64::sub_wrap",
        "std::u64::mul_wrap",
        "std::u64::add_sat",
        "std::u64::sub_sat",
        "std::u64::mul_sat",
    ] {
        let a = find(alias);
        let t = find(builtin_compat_alias_target(alias).unwrap());
        assert_eq!(a.1.len(), t.1.len());
        for (p, q) in a.1.iter().zip(t.1.iter()) {
            assert_eq!(p.kind, q.kind);
            assert_eq!(show_ty(&p.ty), show_ty(&q.ty));
        }
        assert_eq!(show_ty(&a.2), show_ty(&t.2));
        assert_eq!(a.3, t.3);
    }
}
