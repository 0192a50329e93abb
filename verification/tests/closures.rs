use typer::ast::{Block, Expr, Stmt};
use typer::closures::{collect_closure_calls_block, has_path, reject_recursive_closure_values, RecursiveClosure};
use typer::names::NameSet;
use typer::ty::{Param, ParamKind, Span, Type};

fn sp(start: usize, end: usize) -> Span {
    Span { start, end }
}

fn call(callee: &str, args: Vec<Expr>, start: usize) -> Expr {
    Expr::Call { callee: callee.to_string(), args, span: sp(start, start + 1) }
}

fn var(name: &str, start: usize) -> Expr {
    Expr::Var(name.to_string(), sp(start, start + 1))
}

fn param(name: &str) -> Param {
    Param { kind: ParamKind::Borrow, name: name.to_string(), ty: Type::Int }
}

fn lambda(params: Vec<&str>, body: Expr) -> Expr {
    Expr::Lambda { params: params.into_iter().map(param).collect(), body: Box::new(body), span: sp(0, 1) }
}

fn let_stmt(name: &str, expr: Expr, start: usize) -> Stmt {
    Stmt::Let { name: name.to_string(), expr: Box::new(expr), span: sp(start, start + 1) }
}

fn block(statements: Vec<Stmt>, tail: Option<Expr>) -> Block {
    Block { statements, tail: tail.map(Box::new), span: sp(0, 1000) }
}

#[test]
fn closure_calling_itself_is_refused() {
    let b = block(vec![let_stmt("f", lambda(vec!["x"], call("f", vec![var("x", 11)], 10)), 0)], None);
    match reject_recursive_closure_values(&b) {
        Err(RecursiveClosure::SelfReferential { name, span }) => {
            assert_eq!(name, "f");
            assert_eq!(span, sp(10, 11));
        }
        other => panic!("unexpected result: {:?}", other),
    }
}

#[test]
fn mutually_recursive_closures_are_refused() {
    let b = block(
        vec![
            let_stmt("f", lambda(vec!["x"], call("g", vec![var("x", 21)], 20)), 0),
            let_stmt("g", lambda(vec!["y"], call("f", vec![var("y", 31)], 30)), 1),
        ],
        None,
    );
    match reject_recursive_closure_values(&b) {
        Err(RecursiveClosure::Mutual { from, to, span }) => {
            assert_eq!(from, "f");
            assert_eq!(to, "g");
            assert_eq!(span, sp(20, 21));
        }
        other => panic!("unexpected result: {:?}", other),
    }
}

#[test]
fn closure_calling_an_earlier_closure_is_accepted() {
    let b = block(
        vec![
            let_stmt("f", lambda(vec!["x"], var("x", 5)), 0),
            let_stmt("g", lambda(vec!["y"], call("f", vec![var("y", 31)], 30)), 1),
        ],
        Some(call("g", vec![Expr::Int(1, sp(50, 51))], 49)),
    );
    assert!(reject_recursive_closure_values(&b).is_ok());
}

#[test]
fn call_through_a_shadowing_parameter_is_not_recursion() {
    // `f`'s own parameter is named `f`: the call inside goes to the parameter.
    let b = block(vec![let_stmt("f", lambda(vec!["f"], call("f", Vec::new(), 10)), 0)], None);
    assert!(reject_recursive_closure_values(&b).is_ok());
}

#[test]
fn qualified_callee_is_not_a_closure_call() {
    let b = block(vec![let_stmt("f", lambda(vec!["x"], call("m::f", vec![var("x", 11)], 10)), 0)], None);
    assert!(reject_recursive_closure_values(&b).is_ok());
}

#[test]
fn block_without_closures_is_accepted() {
    let b = block(vec![let_stmt("a", Expr::Int(3, sp(1, 2)), 0)], Some(call("a", Vec::new(), 5)));
    assert!(reject_recursive_closure_values(&b).is_ok());
}

#[test]
fn calls_to_closures_are_collected_with_their_spans() {
    let mut names = NameSet::new();
    names.insert("f".to_string());
    let b = block(
        vec![Stmt::Expr { expr: Box::new(call("f", Vec::new(), 3)), span: sp(3, 4) }],
        Some(call("h", vec![call("f", Vec::new(), 9)], 7)),
    );
    let mut scopes: Vec<NameSet> = Vec::new();
    let mut out: Vec<(String, Span)> = Vec::new();
    collect_closure_calls_block(&b, &names, &mut scopes, &mut out);
    assert_eq!(out, vec![("f".to_string(), sp(3, 4)), ("f".to_string(), sp(9, 10))]);
    assert!(scopes.is_empty());
}

#[test]
fn path_search_follows_edges() {
    let edges: Vec<Vec<(usize, Span)>> = vec![vec![(1, sp(0, 1))], vec![(2, sp(1, 2))], Vec::new()];
    let mut visited = vec![false; 3];
    assert!(has_path(0, 2, &edges, &mut visited));
    let mut visited = vec![false; 3];
    assert!(!has_path(2, 0, &edges, &mut visited));
    assert!(visited[2]);
}
