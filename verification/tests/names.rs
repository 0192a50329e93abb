use typer::names::{ensure_user_function_name_allowed, is_special_callee, name_is_bound, NameMap, NameSet};

fn scope(names: &[&str]) -> NameSet {
    let mut s = NameSet::new();
    for n in names {
        s.insert(n.to_string());
    }
    s
}

#[test]
fn bound_names_are_found_in_any_scope() {
    let scopes = vec![scope(&["a", "b"]), scope(&[]), scope(&["c"])];
    assert!(name_is_bound("a", &scopes));
    assert!(name_is_bound("c", &scopes));
    assert!(!name_is_bound("d", &scopes));
    assert!(!name_is_bound("a", &Vec::new()));
}

#[test]
fn special_callees() {
    for n in ["U8", "U64", "U128", "U256", "Some", "None", "Ok", "Err"] {
        assert!(is_special_callee(n), "{n}");
    }
    assert!(!is_special_callee("u8"));
    assert!(!is_special_callee("Some2"));
}

#[test]
fn reserved_namespace_is_refused() {
    assert!(ensure_user_function_name_allowed("transfer").is_ok());
    assert!(ensure_user_function_name_allowed("_clg_x").is_ok());
    let e = ensure_user_function_name_allowed("__clg_state_write").unwrap_err();
    assert_eq!(e.name, "__clg_state_write");
}

#[test]
fn name_sets_and_maps() {
    let mut s = NameSet::new();
    assert!(s.insert("x".to_string()));
    assert!(!s.insert("x".to_string()));
    assert!(s.contains("x") && !s.contains("y"));
    let mut m: NameMap<u64> = NameMap::new();
    m.insert("k".to_string(), 1);
    m.insert("k".to_string(), 2);
    assert_eq!(m.get("k"), Some(&2));
    m.remove("k");
    assert_eq!(m.get("k"), None);
    assert!(!m.contains_key("k"));
}
