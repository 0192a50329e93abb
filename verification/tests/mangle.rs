use typer::mangle::{
    fnv1a64, mangle_fn_name_with_config, mangle_impl_method_name_with_config, mangle_type,
    prefix_with_max_bytes, shorten_if_needed, MangleConfig,
};
use typer::mangle::{mangle_config_from_setting, parse_max_len, MangledNameOrigins};
use typer::ty::{Span, Type};
use typer::type_resolve::AliasMap;

fn named(name: &str, args: Vec<Type>) -> Type {
    Type::Named { name: name.to_string(), args }
}

fn ident_safe(s: &str) -> bool {
    s.chars().all(|c| c.is_ascii_alphanumeric() || c == '_' || c == '$')
}

// The environment does not set a maximum length while tests run.
fn env_config() -> MangleConfig {
    MangleConfig { shorten_max_len: None }
}

fn check_identifier_safe_names() {
    let aliases = AliasMap::new();
    let types = vec![
        Type::Int,
        Type::Bool,
        named("Box", vec![Type::U8]),
        Type::Option(Box::new(named("Pair", vec![Type::U64, Type::String]))),
        Type::Result(Box::new(Type::Int), Box::new(Type::U256)),
        Type::List(Box::new(Type::Bytes)),
        Type::SetOf(Box::new(Type::U128)),
        Type::MapOf(Box::new(Type::U8), Box::new(named("Thing", vec![Type::Bool]))),
        Type::Array(Box::new(Type::U64), None),
        Type::Tuple(vec![Type::Int, Type::Bool, Type::U8]),
    ];
    for ty in types {
        let name = mangle_type(&ty, &aliases).expect("mangle type");
        assert!(ident_safe(&name), "mangled name contained disallowed char: {name}");
    }
    let fn_name = mangle_fn_name_with_config(
        "do_work",
        &[named("Box", vec![Type::U8]), Type::Tuple(vec![Type::Int, Type::U64])],
        &aliases,
        env_config(),
    )
    .expect("mangle fn");
    assert!(ident_safe(&fn_name), "mangled fn name contained disallowed char: {fn_name}");
    let impl_name = mangle_impl_method_name_with_config("Eq", &Type::Int, "eq", &aliases, env_config())
        .expect("mangle impl");
    assert!(ident_safe(&impl_name), "mangled impl name contained disallowed char: {impl_name}");
}

#[test]
fn monomorphize_mangled_names_use_identifier_safe_chars() {
    check_identifier_safe_names();
}

#[test]
fn tests_mangled_names_use_identifier_safe_chars() {
    check_identifier_safe_names();
}

#[test]
fn optional_mangling_shortening_uses_deterministic_hash_suffix() {
    let aliases = AliasMap::new();
    let cfg = MangleConfig { shorten_max_len: Some(40) };
    let args = vec![
        named(
            "VeryLongContainerTypeName",
            vec![
                named("VeryLongInnerTypeName", vec![Type::Tuple(vec![Type::U256, Type::U256, Type::U256])]),
                named(
                    "AnotherLongInnerTypeName",
                    vec![Type::Result(Box::new(Type::String), Box::new(Type::Bytes))],
                ),
            ],
        ),
        Type::MapOf(
            Box::new(named("KeyTypeWithLongName", vec![Type::U128])),
            Box::new(named(
                "ValueTypeWithLongName",
                vec![Type::List(Box::new(named("EntryTypeWithLongName", vec![Type::Bool])))],
            )),
        ),
    ];
    let name_a = mangle_fn_name_with_config("extremely_long_function_name", &args, &aliases, cfg)
        .expect("mangle fn");
    let name_b = mangle_fn_name_with_config("extremely_long_function_name", &args, &aliases, cfg)
        .expect("mangle fn");
    assert_eq!(name_a, name_b, "shortening must be deterministic");
    assert!(name_a.len() <= 40, "shortened name exceeds max length: {}", name_a.len());
    assert!(name_a.contains("$h"), "shortened name should include hash suffix marker: {name_a}");
    assert!(ident_safe(&name_a), "shortened name contained disallowed char: {name_a}");
}

#[test]
fn optional_mangling_shortening_distinguishes_different_inputs() {
    let aliases = AliasMap::new();
    let cfg = MangleConfig { shorten_max_len: Some(36) };
    let self_ty = named(
        "VeryLongTypeForImplName",
        vec![Type::Tuple(vec![Type::Int, Type::Bool, Type::U256])],
    );
    let eq_name = mangle_impl_method_name_with_config("Eq", &self_ty, "eq", &aliases, cfg)
        .expect("mangle impl eq");
    let cmp_name = mangle_impl_method_name_with_config("Eq", &self_ty, "cmp", &aliases, cfg)
        .expect("mangle impl cmp");
    assert_ne!(
        eq_name, cmp_name,
        "different method inputs should not collapse to same shortened name in test coverage"
    );
    assert!(eq_name.len() <= 36);
    assert!(cmp_name.len() <= 36);
}

#[test]
fn mangled_encodings_are_exact() {
    let aliases = AliasMap::new();
    assert_eq!(mangle_type(&named("Box", vec![Type::U8]), &aliases).unwrap(), "N$Box$1$U8");
    assert_eq!(mangle_type(&named("Plain", vec![]), &aliases).unwrap(), "Plain");
    assert_eq!(
        mangle_type(&Type::MapOf(Box::new(Type::U8), Box::new(Type::Bool)), &aliases).unwrap(),
        "Map$U8$Bool"
    );
    assert_eq!(
        mangle_type(&Type::Tuple(vec![Type::Int, Type::Bool]), &aliases).unwrap(),
        "Tuple$2$Int$Bool"
    );
    assert_eq!(
        mangle_type(&Type::Fn { params: vec![Type::Int], ret: Box::new(Type::Bool) }, &aliases).unwrap(),
        "Fn$1$Int$Bool"
    );
    assert_eq!(
        mangle_fn_name_with_config("f", &[Type::Int, Type::Bool], &aliases, env_config()).unwrap(),
        "f$Int$Bool"
    );
    assert_eq!(mangle_fn_name_with_config("f", &[], &aliases, env_config()).unwrap(), "f");
    assert_eq!(
        mangle_impl_method_name_with_config("Eq", &Type::Int, "eq", &aliases, env_config()).unwrap(),
        "impl$Eq$Int$eq"
    );
}

#[test]
fn fnv_hash_matches_reference_values() {
    assert_eq!(fnv1a64(b""), 0xcbf29ce484222325);
    assert_eq!(fnv1a64(b"a"), 0xaf63dc4c8601ec8c);
    assert_eq!(fnv1a64(b"foobar"), 0x85944171f73967e8);
}

#[test]
fn shortening_keeps_short_names_and_cuts_long_ones() {
    let short = shorten_if_needed("abc".to_string(), MangleConfig { shorten_max_len: Some(3) });
    assert_eq!(short, "abc");
    let long = shorten_if_needed("abcdefghijklmnopqrstuvwxyz".to_string(), MangleConfig { shorten_max_len: Some(24) });
    let expected_suffix = format!("$h{:016x}", fnv1a64(b"abcdefghijklmnopqrstuvwxyz"));
    assert_eq!(long, format!("abcdef{}", expected_suffix));
    let tiny = shorten_if_needed("abcdefghij".to_string(), MangleConfig { shorten_max_len: Some(5) });
    assert_eq!(tiny, expected_suffix_for("abcdefghij")[..5].to_string());
    let unchanged = shorten_if_needed("abcdefghij".to_string(), MangleConfig { shorten_max_len: None });
    assert_eq!(unchanged, "abcdefghij");
}

fn expected_suffix_for(s: &str) -> String {
    format!("$h{:016x}", fnv1a64(s.as_bytes()))
}

#[test]
fn byte_prefix_respects_char_boundaries() {
    assert_eq!(prefix_with_max_bytes("héllo", 2), "h");
    assert_eq!(prefix_with_max_bytes("héllo", 3), "hé");
    assert_eq!(prefix_with_max_bytes("héllo", 100), "héllo");
    assert_eq!(prefix_with_max_bytes("", 0), "");
}

#[test]
fn mangling_shortening_collision_reports_t250() {
    let mut origins = MangledNameOrigins::new();
    let span = Span { start: 7, end: 9 };
    origins.track_mangled_name_origin("$", "full_name_A", span).expect("first origin insert");
    let te = origins
        .track_mangled_name_origin("$", "full_name_B", span)
        .expect_err("expected deterministic collision error");
    assert_eq!(te.code, "T250");
    assert!(te.message.contains("full_name_A"));
    assert!(te.message.contains("full_name_B"));
}

#[test]
fn recording_an_origin_again_is_accepted() {
    let mut origins = MangledNameOrigins::new();
    let span = Span { start: 1, end: 2 };
    origins.track_mangled_name_origin("f$h0", "f$Int", span).unwrap();
    origins.track_mangled_name_origin("f$h0", "f$Int", span).unwrap();
    origins.track_mangled_name_origin("g", "g$Bool", span).unwrap();
    let te = origins.track_mangled_name_origin("f$h0", "f$Bool", span).unwrap_err();
    assert_eq!(te.message, "at 1..2: mangled name `f$h0` is produced by both `f$Int` and `f$Bool`");
    assert_eq!((te.start, te.end), (1, 2));
}

#[test]
fn max_length_setting_is_a_positive_number() {
    assert_eq!(parse_max_len("40"), Some(40));
    assert_eq!(parse_max_len("  36\n"), Some(36));
    assert_eq!(parse_max_len("+12"), Some(12));
    assert_eq!(parse_max_len("0"), None);
    assert_eq!(parse_max_len(""), None);
    assert_eq!(parse_max_len("   "), None);
    assert_eq!(parse_max_len("-3"), None);
    assert_eq!(parse_max_len("4x"), None);
    assert_eq!(parse_max_len("+"), None);
    assert_eq!(parse_max_len("99999999999999999999999"), None);
    for s in ["40", " 7\t", "\u{3000}9\u{2028}", "+0", "++1", "1 2", "18446744073709551615", "18446744073709551616"] {
        let expected = s.trim().parse::<usize>().ok().filter(|n| *n > 0);
        assert_eq!(parse_max_len(s), expected, "{s:?}");
    }
    assert_eq!(mangle_config_from_setting(Some(" 7 ")), MangleConfig { shorten_max_len: Some(7) });
    assert_eq!(mangle_config_from_setting(Some("off")), MangleConfig { shorten_max_len: None });
    assert_eq!(mangle_config_from_setting(None), MangleConfig { shorten_max_len: None });
}
