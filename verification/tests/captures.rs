use typer::ast::{BinOp, Block, Expr, Stmt};
use typer::captures::{collect_lambda_captures, collect_lambda_captures_block, collect_lambda_captures_expr};
use typer::names::{NameMap, NameSet};
use typer::ty::{Param, ParamKind, Span, Type};

fn sp(start: usize, end: usize) -> Span {
    Span { start, end }
}

fn var(name: &str, start: usize) -> Expr {
    Expr::Var(name.to_string(), sp(start, start + 1))
}

fn param(name: &str) -> Param {
    Param { kind: ParamKind::Borrow, name: name.to_string(), ty: Type::Int }
}

fn add(lhs: Expr, rhs: Expr) -> Expr {
    Expr::Bin { op: BinOp::Add, lhs: Box::new(lhs), rhs: Box::new(rhs), span: sp(0, 1) }
}

fn names(list: &[&str]) -> NameSet {
    let mut s = NameSet::new();
    for n in list {
        s.insert(n.to_string());
    }
    s
}

#[test]
fn free_variables_are_captured_with_their_first_span() {
    // |x| x + y + y + z
    let body = add(add(add(var("x", 1), var("y", 5)), var("y", 9)), var("z", 13));
    let env = names(&["x", "y", "z"]);
    let caps = collect_lambda_captures(&vec![param("x")], &body, &env);
    assert_eq!(caps.get("x"), None);
    assert_eq!(caps.get("y"), Some(&sp(5, 6)));
    assert_eq!(caps.get("z"), Some(&sp(13, 14)));
}

#[test]
fn names_outside_the_environment_are_not_captures() {
    // |x| helper(w), where `helper` and `w` are not locals
    let body = Expr::Call { callee: "helper".to_string(), args: vec![var("w", 8)], span: sp(1, 7) };
    let env = names(&["x", "total"]);
    let caps = collect_lambda_captures(&vec![param("x")], &body, &env);
    assert_eq!(caps.get("helper"), None);
    assert_eq!(caps.get("w"), None);
    let env = names(&["helper", "w"]);
    let caps = collect_lambda_captures(&vec![param("x")], &body, &env);
    assert_eq!(caps.get("helper"), Some(&sp(1, 7)));
    assert_eq!(caps.get("w"), Some(&sp(8, 9)));
}

#[test]
fn qualified_callees_are_not_captures() {
    let body = Expr::Call { callee: "std::list::len".to_string(), args: vec![var("xs", 20)], span: sp(2, 18) };
    let mut scopes: Vec<NameSet> = Vec::new();
    let mut caps: NameMap<Span> = NameMap::new();
    collect_lambda_captures_expr(&body, &mut scopes, &mut caps);
    assert_eq!(caps.get("std::list::len"), None);
    assert_eq!(caps.get("xs"), Some(&sp(20, 21)));
    assert!(scopes.is_empty());
}

#[test]
fn let_bindings_shadow_only_after_their_initializer() {
    // { let a = a; a + b }
    let block = Block {
        statements: vec![Stmt::Let { name: "a".to_string(), expr: Box::new(var("a", 10)), span: sp(2, 12) }],
        tail: Some(Box::new(add(var("a", 14), var("b", 18)))),
        span: sp(0, 20),
    };
    let mut scopes: Vec<NameSet> = Vec::new();
    let mut caps: NameMap<Span> = NameMap::new();
    collect_lambda_captures_block(&block, &mut scopes, &mut caps);
    assert_eq!(caps.get("a"), Some(&sp(10, 11)));
    assert_eq!(caps.get("b"), Some(&sp(18, 19)));
}

#[test]
fn existing_entries_keep_their_span() {
    let mut scopes: Vec<NameSet> = Vec::new();
    let mut caps: NameMap<Span> = NameMap::new();
    caps.insert("y".to_string(), sp(100, 101));
    collect_lambda_captures_expr(&var("y", 3), &mut scopes, &mut caps);
    assert_eq!(caps.get("y"), Some(&sp(100, 101)));
}
