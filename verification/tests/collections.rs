use typer::collections::{
    contains_named_resource, contains_resource, ensure_no_resource_collections, ensure_supported_type,
    ensure_no_unsupported_resource_collections, find_resource_collection, find_unsupported_resource_collection,
    is_persistable_state_type,
};
use typer::type_params::collect_type_params_in_type;
use typer::display::show_ty;
use typer::names::NameSet;
use typer::ty::{Span, Type};

fn set(names: &[&str]) -> NameSet {
    let mut s = NameSet::new();
    for n in names {
        s.insert(n.to_string());
    }
    s
}

fn coin() -> Type {
    Type::Named { name: "Coin".to_string(), args: Vec::new() }
}

fn list(t: Type) -> Type {
    Type::List(Box::new(t))
}

#[test]
fn resources_are_found_but_parameters_hide_them() {
    let res = set(&["Coin"]);
    let none = set(&[]);
    assert!(contains_resource(&coin(), &res, &none));
    assert!(contains_resource(&Type::Tuple(vec![Type::Int, list(coin())]), &res, &none));
    assert!(!contains_resource(&Type::Int, &res, &none));
    assert!(!contains_resource(&coin(), &res, &set(&["Coin"])));
    let boxed = Type::Named { name: "Box".to_string(), args: vec![coin()] };
    assert!(contains_named_resource(&boxed, &res, &none));
    assert!(!contains_named_resource(&boxed, &res, &set(&["Box"])));
}

#[test]
fn field_types_may_not_keep_resources_in_collections() {
    let res = set(&["Coin"]);
    let none = set(&[]);
    let opt_list = Type::Option(Box::new(list(coin())));
    assert_eq!(show_ty(&find_resource_collection(&opt_list, &res, &none).unwrap()), "List<Coin>");
    let map = Type::MapOf(Box::new(Type::Int), Box::new(coin()));
    assert_eq!(show_ty(&find_resource_collection(&map, &res, &none).unwrap()), "Map<Int, Coin>");
    assert!(find_resource_collection(&list(Type::Int), &res, &none).is_none());
    let nested = Type::Tuple(vec![Type::Int, Type::SetOf(Box::new(coin()))]);
    assert_eq!(show_ty(&find_resource_collection(&nested, &res, &none).unwrap()), "Set<Coin>");
    let e = ensure_no_resource_collections(&opt_list, Some(Span { start: 4, end: 9 }), &res, &none).unwrap_err();
    assert_eq!(e.code, "T806");
    assert_eq!(
        e.message,
        "at 4..9: resources cannot be stored inside collections or tuples yet; found `List<Coin>`"
    );
    assert!(ensure_no_resource_collections(&Type::Slice(Box::new(coin())), None, &res, &none).is_ok());
}

#[test]
fn signatures_allow_lists_and_maps_of_resources() {
    let res = set(&["Coin"]);
    let none = set(&[]);
    assert!(find_unsupported_resource_collection(&list(coin()), &res, &none).is_none());
    let to_coin = Type::MapOf(Box::new(Type::Int), Box::new(coin()));
    assert!(find_unsupported_resource_collection(&to_coin, &res, &none).is_none());
    let by_coin = Type::MapOf(Box::new(coin()), Box::new(Type::Int));
    assert_eq!(show_ty(&find_unsupported_resource_collection(&by_coin, &res, &none).unwrap()), "Map<Coin, Int>");
    let list_of_sets = list(Type::SetOf(Box::new(coin())));
    assert_eq!(show_ty(&find_unsupported_resource_collection(&list_of_sets, &res, &none).unwrap()), "Set<Coin>");
    let slice = Type::Slice(Box::new(coin()));
    let e = ensure_no_unsupported_resource_collections(&slice, None, &res, &none).unwrap_err();
    assert_eq!(e.message, "resources cannot be stored inside collections or tuples yet; found `Slice<Coin>`");
    assert!(ensure_no_unsupported_resource_collections(&Type::Tuple(vec![Type::Int]), None, &res, &none).is_ok());
    let pair = Type::Tuple(vec![Type::Int, coin()]);
    assert!(ensure_no_unsupported_resource_collections(&pair, None, &res, &none).is_err());
}

#[test]
fn type_parameters_take_no_arguments() {
    let tp = set(&["T"]);
    let t = Type::Named { name: "T".to_string(), args: Vec::new() };
    assert!(ensure_supported_type(&list(t), None, &tp).is_ok());
    let applied = Type::Named { name: "T".to_string(), args: vec![Type::Int] };
    let nested = Type::MapOf(Box::new(Type::Int), Box::new(Type::Tuple(vec![Type::Bool, applied])));
    let f = ensure_supported_type(&nested, Some(Span { start: 1, end: 3 }), &tp).unwrap_err();
    assert_eq!(f.name, "T");
    assert_eq!(f.span, Some(Span { start: 1, end: 3 }));
    let other = Type::Named { name: "Box".to_string(), args: vec![Type::U128] };
    assert!(ensure_supported_type(&other, None, &tp).is_ok());
}

#[test]
fn function_types_cannot_be_persisted() {
    let f = Type::Fn { params: vec![Type::Int], ret: Box::new(Type::Bool) };
    assert!(!is_persistable_state_type(&f));
    assert!(!is_persistable_state_type(&Type::List(Box::new(Type::Fn { params: Vec::new(), ret: Box::new(Type::Int) }))));
    let nested = Type::Named { name: "Box".to_string(), args: vec![Type::Tuple(vec![Type::Int, f])] };
    assert!(!is_persistable_state_type(&nested));
    let fine = Type::MapOf(Box::new(Type::String), Box::new(Type::Option(Box::new(Type::U64))));
    assert!(is_persistable_state_type(&fine));
}

#[test]
fn bare_type_parameters_are_collected() {
    let mut params = NameSet::new();
    params.insert("T".to_string());
    params.insert("U".to_string());
    params.insert("V".to_string());
    let ty = Type::Tuple(vec![
        Type::Named { name: "T".to_string(), args: Vec::new() },
        Type::Named { name: "Pair".to_string(), args: vec![Type::Named { name: "U".to_string(), args: Vec::new() }] },
        Type::Named { name: "V".to_string(), args: vec![Type::Int] },
    ]);
    let mut used = NameSet::new();
    collect_type_params_in_type(&ty, &params, &mut used);
    assert!(used.contains("T"));
    assert!(used.contains("U"));
    assert!(!used.contains("V"));
    assert!(!used.contains("Pair"));
}
