use typer::ast::{Block, Expr, MatchArm, MatchPat, Stmt};
use typer::cei::{analyze_external_call_cei, direct_init_writes, enforce_external_call_cei, is_state_rooted, ExternalCallFlow};
use typer::ty::Span;

fn sp(start: usize, end: usize) -> Span {
    Span { start, end }
}

fn call(callee: &str, start: usize) -> Expr {
    Expr::Call { callee: callee.to_string(), args: Vec::new(), span: sp(start, start + 1) }
}

fn block(stmts: Vec<Expr>, tail: Option<Expr>) -> Expr {
    Expr::Block {
        block: Box::new(Block {
            statements: stmts
                .into_iter()
                .enumerate()
                .map(|(i, e)| Stmt::Expr { expr: Box::new(e), span: sp(i, i + 1) })
                .collect(),
            tail: tail.map(Box::new),
            span: sp(0, 100),
        }),
    }
}

fn state_field(start: usize) -> Expr {
    Expr::FieldAccess {
        base: Box::new(Expr::Var("state".to_string(), sp(start, start + 1))),
        field: "balance".to_string(),
        span: sp(start, start + 9),
    }
}

#[test]
fn writes_before_external_call_pass() {
    let body = block(
        vec![call("__clg_state_write$balance", 10), call("__clg_event_emit$Paid", 20)],
        Some(call("__clg_external_call$token", 30)),
    );
    assert_eq!(enforce_external_call_cei(&body), Ok(()));
}

#[test]
fn write_after_external_call_is_refused() {
    let body = block(
        vec![call("__clg_external_call$token", 10), call("__clg_state_write$balance", 20)],
        None,
    );
    assert_eq!(enforce_external_call_cei(&body), Err(sp(20, 21)));
}

#[test]
fn state_read_after_external_call_is_refused() {
    let body = block(vec![call("__clg_external_call$token", 10)], Some(state_field(40)));
    assert_eq!(enforce_external_call_cei(&body), Err(sp(40, 49)));
}

#[test]
fn second_external_call_is_refused() {
    let body = block(vec![call("__clg_external_call$a", 10), call("__clg_external_call$b", 20)], None);
    assert_eq!(enforce_external_call_cei(&body), Err(sp(20, 21)));
}

#[test]
fn flow_operations() {
    let entry = ExternalCallFlow::entry();
    assert_eq!(entry, ExternalCallFlow { can_continue_before_call: true, can_continue_after_call: false });
    let after = entry.outbound_call(sp(1, 2)).unwrap();
    assert_eq!(after, ExternalCallFlow { can_continue_before_call: false, can_continue_after_call: true });
    assert_eq!(after.interaction(sp(3, 4)), Err(sp(3, 4)));
    assert_eq!(entry.interaction(sp(3, 4)), Ok(entry));
    assert_eq!(
        entry.merge(after),
        ExternalCallFlow { can_continue_before_call: true, can_continue_after_call: true }
    );
    assert_eq!(entry.merge(after), after.merge(entry));
}

#[test]
fn branch_with_call_poisons_later_writes() {
    let if_expr = Expr::If {
        cond: Box::new(Expr::Bool(true, sp(0, 1))),
        then_br: Box::new(call("__clg_external_call$token", 5)),
        else_br: Box::new(Expr::Int(0, sp(6, 7))),
        span: sp(0, 8),
    };
    let flow = analyze_external_call_cei(&if_expr, ExternalCallFlow::entry()).unwrap();
    assert_eq!(flow, ExternalCallFlow { can_continue_before_call: true, can_continue_after_call: true });
    let body = block(vec![if_expr], Some(call("__clg_event_emit$E", 50)));
    assert_eq!(enforce_external_call_cei(&body), Err(sp(50, 51)));
}

#[test]
fn match_arms_start_from_the_scrutinee() {
    let m = Expr::Match {
        scrutinee: Box::new(Expr::Var("x".to_string(), sp(0, 1))),
        arms: vec![
            MatchArm { pat: MatchPat::Wildcard, expr: call("__clg_state_write$a", 3) },
            MatchArm { pat: MatchPat::NoneCase, expr: call("__clg_external_call$t", 5) },
        ],
        span: sp(0, 9),
    };
    let flow = analyze_external_call_cei(&m, ExternalCallFlow::entry()).unwrap();
    assert_eq!(flow, ExternalCallFlow { can_continue_before_call: true, can_continue_after_call: true });
}

#[test]
fn lambda_bodies_are_checked_on_their_own() {
    let lambda = Expr::Lambda {
        params: Vec::new(),
        body: Box::new(block(vec![call("__clg_external_call$t", 3)], Some(call("__clg_state_write$a", 7)))),
        span: sp(0, 9),
    };
    assert_eq!(analyze_external_call_cei(&lambda, ExternalCallFlow::entry()), Err(sp(7, 8)));
    let harmless = Expr::Lambda {
        params: Vec::new(),
        body: Box::new(call("__clg_external_call$t", 3)),
        span: sp(0, 9),
    };
    let after = ExternalCallFlow { can_continue_before_call: false, can_continue_after_call: true };
    assert_eq!(analyze_external_call_cei(&harmless, after), Ok(after));
}

#[test]
fn loop_body_may_not_end_after_a_call() {
    let body_block = Block {
        statements: vec![Stmt::Expr { expr: Box::new(call("__clg_external_call$t", 3)), span: sp(3, 4) }],
        tail: None,
        span: sp(2, 10),
    };
    let w = Stmt::While {
        cond: Box::new(Expr::Bool(true, sp(1, 2))),
        loop_invariant: Box::new(Expr::Bool(true, sp(1, 2))),
        variant: None,
        body: Box::new(body_block),
        span: sp(0, 12),
    };
    let outer = Expr::Block { block: Box::new(Block { statements: vec![w], tail: None, span: sp(0, 20) }) };
    assert_eq!(enforce_external_call_cei(&outer), Err(sp(0, 12)));
}

#[test]
fn code_without_external_calls_always_passes() {
    let body = block(
        vec![call("__clg_state_write$a", 1), state_field(5), call("__clg_event_emit$b", 9)],
        Some(call("helper", 12)),
    );
    let after = ExternalCallFlow { can_continue_before_call: false, can_continue_after_call: false };
    assert!(analyze_external_call_cei(&body, after).is_ok());
    assert!(enforce_external_call_cei(&body).is_ok());
}

#[test]
fn state_rooted_places() {
    assert!(is_state_rooted(&state_field(0)));
    let indexed = Expr::Index { base: Box::new(state_field(0)), index: Box::new(Expr::Int(1, sp(0, 1))), span: sp(0, 12) };
    assert!(is_state_rooted(&indexed));
    let other = Expr::FieldAccess {
        base: Box::new(Expr::Var("config".to_string(), sp(0, 1))),
        field: "balance".to_string(),
        span: sp(0, 9),
    };
    assert!(!is_state_rooted(&other));
    assert!(!is_state_rooted(&Expr::Var("state".to_string(), sp(0, 1))));
}

#[test]
fn initializer_writes_are_read_from_top_level_statements() {
    let body = block(
        vec![call("__clg_state_write$owner", 1), call("helper", 2), call("__clg_state_write$total", 3)],
        Some(call("__clg_state_write$tail", 4)),
    );
    let w = direct_init_writes(&body);
    assert!(w.contains("owner"));
    assert!(w.contains("total"));
    assert!(!w.contains("tail"));
    assert!(!w.contains("helper"));
    assert!(!direct_init_writes(&call("__clg_state_write$owner", 1)).contains("owner"));
}
