use typer::ast::{Block, Expr, Func, Program, Stmt};
use typer::intrinsics::{collect_called_functions, record_intrinsics, used_intrinsics, walk_calls};
use typer::names::NameSet;
use typer::ty::{Effect, Span, Type};

fn sp(start: usize, end: usize) -> Span {
    Span { start, end }
}

fn call(callee: &str, args: Vec<Expr>) -> Expr {
    Expr::Call { callee: callee.to_string(), args, span: sp(0, 1) }
}

fn func(name: &str, requires: Vec<Expr>, ensures: Vec<Expr>, body: Expr) -> Func {
    Func {
        name: name.to_string(),
        type_params: Vec::new(),
        where_bounds: Vec::new(),
        params: Vec::new(),
        ret: Type::Int,
        effect: Effect::Pure,
        effect_span: sp(0, 1),
        requires,
        ensures,
        body,
        span: sp(0, 1),
    }
}

fn program() -> Program {
    let body = Expr::Block {
        block: Box::new(Block {
            statements: vec![Stmt::Let {
                name: "n".to_string(),
                expr: Box::new(call("std::str::len", vec![call("helper", Vec::new())])),
                span: sp(0, 1),
            }],
            tail: Some(Box::new(call("std::map::get", Vec::new()))),
            span: sp(0, 1),
        }),
    };
    Program {
        contracts: Vec::new(),
        resources: Vec::new(),
        structs: Vec::new(),
        enums: Vec::new(),
        refined_aliases: Vec::new(),
        funcs: vec![
            func("main", vec![call("pre", Vec::new())], vec![call("post", Vec::new())], body),
            func("helper", Vec::new(), Vec::new(), call("std::crypto::sha256", Vec::new())),
        ],
        traits: Vec::new(),
        impls: Vec::new(),
    }
}

#[test]
fn calls_are_walked_in_order() {
    let calls = walk_calls(&program());
    assert_eq!(
        calls,
        vec!["pre", "post", "std::str::len", "helper", "std::map::get", "std::crypto::sha256"]
    );
}

#[test]
fn called_functions_form_a_set() {
    let p = Program {
        contracts: Vec::new(),
        resources: Vec::new(),
        structs: Vec::new(),
        enums: Vec::new(),
        refined_aliases: Vec::new(),
        funcs: vec![func("f", Vec::new(), Vec::new(), call("g", vec![call("g", Vec::new())]))],
        traits: Vec::new(),
        impls: Vec::new(),
    };
    let called = collect_called_functions(&p);
    assert!(called.contains("g"));
    assert!(!called.contains("f"));
    let all = collect_called_functions(&program());
    for name in ["pre", "post", "std::str::len", "helper", "std::map::get", "std::crypto::sha256"] {
        assert!(all.contains(name));
    }
}

#[test]
fn intrinsics_follow_the_callees() {
    let set = used_intrinsics(&walk_calls(&program()));
    assert!(set.contains("std::str::len"));
    assert!(set.contains("std::str::eq"));
    assert!(set.contains("std::bytes::eq"));
    assert!(set.contains("std::crypto::hash"));
    assert!(!set.contains("std::crypto::sha256"));
    assert!(!set.contains("helper"));
}

#[test]
fn aliases_share_one_intrinsic() {
    let mut set = NameSet::new();
    record_intrinsics("std::str::is_empty", &mut set);
    assert!(set.contains("std::str::len"));
    record_intrinsics("std::str_pattern::matches", &mut set);
    assert!(set.contains("std::str::contains"));
    record_intrinsics("std::str::to_bytes", &mut set);
    assert!(set.contains("std::bytes::from_string"));
    let mut none = NameSet::new();
    record_intrinsics("std::list::len", &mut none);
    assert!(!none.contains("std::list::len"));
}
