use typer::ast::Expr;
use typer::resources::{
    consume_var_expr, merge_match_trackers, ResourceFault, ResourceState, ResourceTracker, TrackedResource,
};
use typer::ty::{ParamKind, Span};

fn sp(start: usize, end: usize) -> Span {
    Span { start, end }
}

#[test]
fn registration_sets_initial_states() {
    let mut t = ResourceTracker::new();
    t.register_param("owned", ParamKind::Consume, true);
    t.register_param("lent", ParamKind::Borrow, true);
    t.register_param("plain", ParamKind::Consume, false);
    t.register_local("local", true);
    assert_eq!(
        t.get("owned"),
        Some(TrackedResource { state: ResourceState::Owned { borrows: 0 }, must_consume: true })
    );
    assert_eq!(
        t.get("lent"),
        Some(TrackedResource { state: ResourceState::ActiveBorrow, must_consume: false })
    );
    assert_eq!(t.get("plain"), None);
    assert_eq!(
        t.get("local"),
        Some(TrackedResource { state: ResourceState::Owned { borrows: 0 }, must_consume: true })
    );
}

#[test]
fn use_after_consume_is_refused_with_both_spans() {
    let mut t = ResourceTracker::new();
    t.register_local("coin", true);
    assert!(t.use_var("coin", sp(1, 2)).is_ok());
    assert!(t.consume_var("coin", sp(3, 7)).is_ok());
    let e = t.use_var("coin", sp(10, 14)).unwrap_err();
    assert_eq!(e.code, "T801");
    assert_eq!(e.message, "resource `coin` was consumed at 3..7 and cannot be used again");
    assert_eq!((e.start, e.end), (10, 14));
}

#[test]
fn double_consume_names_the_first() {
    let mut t = ResourceTracker::new();
    t.register_local("coin", true);
    t.consume_var("coin", sp(3, 7)).unwrap();
    let e = t.consume_var("coin", sp(20, 25)).unwrap_err();
    assert_eq!(e.code, "T802");
    assert_eq!(e.message, "resource `coin` already consumed at 3..7; second consume here");
    assert_eq!((e.start, e.end), (20, 25));
}

#[test]
fn borrowed_resources_cannot_be_consumed() {
    let mut t = ResourceTracker::new();
    t.register_local("coin", true);
    t.borrow_var("coin", sp(1, 2)).unwrap();
    let e = t.consume_var("coin", sp(5, 6)).unwrap_err();
    assert_eq!(e.code, "T803");
    assert_eq!(e.message, "cannot consume borrowed resource `coin`");
    t.register_param("lent", ParamKind::Borrow, true);
    let e = t.consume_var("lent", sp(8, 9)).unwrap_err();
    assert_eq!(e.code, "T803");
    assert_eq!((e.start, e.end), (8, 9));
}

#[test]
fn release_undoes_borrow() {
    let mut t = ResourceTracker::new();
    t.register_local("coin", true);
    let before = t.get("coin");
    t.borrow_var("coin", sp(1, 2)).unwrap();
    assert_eq!(
        t.get("coin"),
        Some(TrackedResource { state: ResourceState::Owned { borrows: 1 }, must_consume: true })
    );
    t.release_borrow("coin").unwrap();
    assert_eq!(t.get("coin"), before);
    assert!(t.consume_var("coin", sp(3, 4)).is_ok());
}

#[test]
fn release_without_borrow_is_an_error() {
    let mut t = ResourceTracker::new();
    t.register_local("coin", true);
    assert_eq!(
        t.release_borrow("coin"),
        Err("release_borrow called without active borrow for coin".to_string())
    );
}

#[test]
fn borrow_after_consume_is_refused() {
    let mut t = ResourceTracker::new();
    t.register_local("coin", true);
    t.consume_var("coin", sp(3, 7)).unwrap();
    let e = t.borrow_var("coin", sp(9, 11)).unwrap_err();
    assert_eq!(e.code, "T801");
    assert_eq!((e.start, e.end), (9, 11));
}

#[test]
fn untracked_names_are_free() {
    let mut t = ResourceTracker::new();
    assert!(t.use_var("x", sp(0, 1)).is_ok());
    assert!(t.consume_var("x", sp(0, 1)).is_ok());
    assert!(t.consume_var("x", sp(0, 1)).is_ok());
    assert!(t.borrow_var("x", sp(0, 1)).is_ok());
    assert!(t.release_borrow("x").is_ok());
    assert_eq!(t.get("x"), None);
}

#[test]
fn scope_end_requires_consumption() {
    let mut t = ResourceTracker::new();
    t.register_param("lent", ParamKind::Borrow, true);
    assert!(t.ensure_consumed().is_ok());
    t.register_local("coin", true);
    let e = t.ensure_consumed().unwrap_err();
    assert_eq!(e.code, "T805");
    assert_eq!(e.message, "resource `coin` must be consumed before returning");
    assert_eq!((e.start, e.end), (0, 0));
    t.consume_var("coin", sp(1, 2)).unwrap();
    assert!(t.ensure_consumed().is_ok());
}

#[test]
fn branches_must_agree() {
    let mut base = ResourceTracker::new();
    base.register_local("coin", true);
    let mut then_branch = base.duplicate();
    let mut else_branch = base.duplicate();
    assert!(then_branch.merge_branch(&else_branch, sp(0, 9)).is_ok());
    then_branch.consume_var("coin", sp(1, 2)).unwrap();
    let e = then_branch.merge_branch(&else_branch, sp(0, 9)).unwrap_err();
    assert_eq!(e.code, "T804");
    assert_eq!(e.message, "resource `coin` has different ownership states across branches");
    assert_eq!((e.start, e.end), (0, 9));
    else_branch.consume_var("coin", sp(5, 6)).unwrap();
    assert!(then_branch.merge_branch(&else_branch, sp(0, 9)).is_ok());
    else_branch.register_local("extra", true);
    let e = then_branch.merge_branch(&else_branch, sp(0, 9)).unwrap_err();
    assert_eq!(e.message, "resource `extra` has different ownership states across branches");
}

#[test]
fn retain_drops_scope_locals() {
    let mut base = ResourceTracker::new();
    base.register_local("outer", true);
    let mut inner = base.duplicate();
    inner.register_local("inner", true);
    inner.retain_keys_from(&base);
    assert!(inner.get("outer").is_some());
    assert_eq!(inner.get("inner"), None);
}

#[test]
fn consuming_an_argument_expression() {
    let mut t = ResourceTracker::new();
    t.register_local("coin", true);
    consume_var_expr(&mut t, &Expr::Int(3, sp(0, 1))).unwrap();
    assert!(t.use_var("coin", sp(0, 1)).is_ok());
    consume_var_expr(&mut t, &Expr::Var("coin".to_string(), sp(4, 8))).unwrap();
    let e = t.use_var("coin", sp(9, 10)).unwrap_err();
    assert_eq!(e.message, "resource `coin` was consumed at 4..8 and cannot be used again");
}

#[test]
fn consume_in_call_names_the_callee() {
    let mut t = ResourceTracker::new();
    t.register_param("coin", ParamKind::Consume, true);
    assert!(t.consume_var_in_call("coin", sp(3, 7), "deposit").is_ok());
    let err = t.consume_var_in_call("coin", sp(10, 14), "deposit").unwrap_err();
    assert_eq!(err.fault, ResourceFault::DoubleConsume { first: sp(3, 7) });
    assert_eq!(err.name, "coin");
    assert_eq!(err.span, sp(10, 14));
    assert_eq!(err.callee, "deposit");
    let err = t.use_var_in_call("coin", sp(20, 24), "show").unwrap_err();
    assert_eq!(err.fault, ResourceFault::UseAfterConsume { consumed_at: sp(3, 7) });
    assert_eq!(err.callee, "show");
}

#[test]
fn consume_in_call_of_a_borrowed_parameter_is_refused() {
    let mut t = ResourceTracker::new();
    t.register_param("lent", ParamKind::Borrow, true);
    let err = t.consume_var_in_call("lent", sp(1, 5), "burn").unwrap_err();
    assert_eq!(err.fault, ResourceFault::ConsumeBorrow);
    assert!(t.use_var_in_call("lent", sp(1, 5), "show").is_ok());
}

#[test]
fn match_arms_that_agree_are_merged() {
    let mut baseline = ResourceTracker::new();
    baseline.register_param("coin", ParamKind::Consume, true);
    let mut arm1 = baseline.duplicate();
    arm1.consume_var("coin", sp(10, 14)).unwrap();
    arm1.register_local("inner", true);
    let mut arm2 = baseline.duplicate();
    arm2.consume_var("coin", sp(20, 24)).unwrap();
    let arms = vec![(arm1, sp(8, 30)), (arm2, sp(18, 40))];
    let mut out = ResourceTracker::new();
    assert!(merge_match_trackers(&baseline, &arms, &mut out).is_ok());
    assert_eq!(
        out.get("coin"),
        Some(TrackedResource { state: ResourceState::Consumed { span: sp(10, 14) }, must_consume: true })
    );
    assert_eq!(out.get("inner"), None);
}

#[test]
fn match_arms_that_disagree_are_refused_at_the_arm() {
    let mut baseline = ResourceTracker::new();
    baseline.register_param("coin", ParamKind::Consume, true);
    let mut arm1 = baseline.duplicate();
    arm1.consume_var("coin", sp(10, 14)).unwrap();
    let arm2 = baseline.duplicate();
    let arms = vec![(arm1, sp(8, 30)), (arm2, sp(18, 40))];
    let mut out = ResourceTracker::new();
    let err = merge_match_trackers(&baseline, &arms, &mut out).unwrap_err();
    assert_eq!(err.code, "T804");
    assert_eq!((err.start, err.end), (18, 40));
    assert_eq!(out.get("coin"), None);
}

#[test]
fn match_without_arms_keeps_the_baseline() {
    let mut baseline = ResourceTracker::new();
    baseline.register_local("coin", true);
    let arms: Vec<(ResourceTracker, Span)> = Vec::new();
    let mut out = ResourceTracker::new();
    assert!(merge_match_trackers(&baseline, &arms, &mut out).is_ok());
    assert_eq!(out.get("coin"), baseline.get("coin"));
}
