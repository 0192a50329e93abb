use typer::builtins::{builtin_compat_alias_target, builtin_route, std_text_compat_builtin, BuiltinRoute, StdTextCompatBuiltin};

#[test]
fn std_text_compat_builtins_stay_classified() {
    assert_eq!(
        std_text_compat_builtin("std::bytes::equals"),
        Some(StdTextCompatBuiltin::BytesEquals)
    );
    assert_eq!(
        std_text_compat_builtin("std::str_pattern::matches"),
        Some(StdTextCompatBuiltin::StrPatternMatches)
    );
    assert_eq!(std_text_compat_builtin("std::str::len"), None);
}

#[test]
fn builtin_compat_alias_target_covers_text_and_legacy_aliases() {
    assert_eq!(
        builtin_compat_alias_target("std::bytes::equals_ct"),
        Some("std::bytes::eq_ct")
    );
    assert_eq!(
        builtin_compat_alias_target("std::u64::add_wrap"),
        Some("std::u64::add_wrapping")
    );
    assert_eq!(builtin_compat_alias_target("std::str::is_empty"), None);
}

#[test]
fn builtin_route_separates_intrinsics_from_package_imports() {
    assert_eq!(builtin_route("std::bytes::len"), BuiltinRoute::Intrinsic);
    assert_eq!(builtin_route("std::u64::from_bytes_be"), BuiltinRoute::Intrinsic);
    assert_eq!(builtin_route("std::bytes::equals"), BuiltinRoute::PackageImport);
    assert_eq!(builtin_route(""), BuiltinRoute::PackageImport);
}

#[test]
fn compat_classification_covers_every_text_builtin() {
    assert_eq!(std_text_compat_builtin("std::bytes::equals_ct"), Some(StdTextCompatBuiltin::BytesEqualsCt));
    assert_eq!(std_text_compat_builtin("std::bytes::is_empty"), Some(StdTextCompatBuiltin::BytesIsEmpty));
    assert_eq!(std_text_compat_builtin("std::str::equals"), Some(StdTextCompatBuiltin::StrEquals));
    assert_eq!(std_text_compat_builtin("std::str::is_empty"), Some(StdTextCompatBuiltin::StrIsEmpty));
    assert_eq!(std_text_compat_builtin("std::str::to_bytes"), Some(StdTextCompatBuiltin::StrToBytes));
    assert_eq!(builtin_compat_alias_target("std::crypto::hmac_sha256"), Some("std::crypto::hmac"));
}
