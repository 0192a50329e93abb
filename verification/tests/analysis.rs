use typer::ast::{BinOp, Block, Expr, Func, Stmt, UnaryOp};
use typer::effect_check::max_effect;
use typer::effects::{builtin_effect, effect_label, level_from_effect, EffectLevel};
use typer::effects::EffectLevel::{Io, Mut, Pure};
use typer::env::{FnSig, TraitEnv};
use typer::names::NameMap;
use typer::refinement::{predicate_is_contradiction, IntBound, IntConstraint, IntConstraintSet};
use typer::totality::{check_totality_expr, enforce_totality};
use typer::ty::{Effect, Span, Type};

fn sp(start: usize, end: usize) -> Span {
    Span { start, end }
}

fn var(n: &str) -> Expr {
    Expr::Var(n.to_string(), sp(0, 1))
}

fn lit(v: i64) -> Expr {
    Expr::Int(v, sp(0, 1))
}

fn bin(op: BinOp, lhs: Expr, rhs: Expr) -> Expr {
    Expr::Bin { op, lhs: Box::new(lhs), rhs: Box::new(rhs), span: sp(0, 9) }
}

fn call(callee: &str, args: Vec<Expr>, start: usize) -> Expr {
    Expr::Call { callee: callee.to_string(), args, span: sp(start, start + 2) }
}

#[test]
fn effect_lattice() {
    assert_eq!(Pure.join(Mut), Mut);
    assert_eq!(Mut.join(Io), Io);
    assert_eq!(Io.join(Pure), Io);
    assert_eq!(Mut.join(Mut), Mut);
    assert_eq!(Pure.join(Mut), Mut.join(Pure));
    assert_eq!(Pure.rank(), 0);
    assert_eq!(Io.rank(), 2);
    assert_eq!(effect_label(Mut), "mut");
    assert_eq!(level_from_effect(Effect::Omitted), Pure);
    assert_eq!(level_from_effect(Effect::Io), Io);
    assert_eq!(builtin_effect("std::list::push_mut"), Some(Mut));
    assert_eq!(builtin_effect("Some"), Some(Pure));
    assert_eq!(builtin_effect("std::env::time"), Some(Io));
    assert_eq!(builtin_effect("user_fn"), None);
}

#[test]
fn effects_of_expressions() {
    let fns: NameMap<FnSig> = NameMap::new();
    let env = TraitEnv { traits: NameMap::new(), impls: Vec::new() };
    let pure = bin(BinOp::Add, lit(1), var("x"));
    assert_eq!(max_effect(&pure, &fns, &env, EffectLevel::Pure).unwrap(), EffectLevel::Pure);
    let printing = call("std::wasi::print", vec![var("b")], 4);
    assert_eq!(max_effect(&printing, &fns, &env, EffectLevel::Io).unwrap(), EffectLevel::Io);
    let e = max_effect(&printing, &fns, &env, EffectLevel::Mut).unwrap_err();
    assert_eq!(e.code, "T401");
    assert_eq!(e.message, "at 4..6: calling `std::wasi::print` requires `io` effect");
    let write = call("__clg_state_write$balance", vec![lit(1)], 8);
    assert_eq!(max_effect(&write, &fns, &env, EffectLevel::Mut).unwrap(), EffectLevel::Mut);
    assert!(max_effect(&write, &fns, &env, EffectLevel::Pure).is_err());
}

#[test]
fn totality_rejects_recursion_and_unmeasured_loops() {
    let rec = bin(BinOp::Add, lit(1), call("count", vec![lit(0)], 12));
    let e = check_totality_expr(&rec, "count").unwrap_err();
    assert_eq!(e.code, "T902");
    assert_eq!(e.message, "at 12..14: recursive call to `count` requires a decreasing measure for totality");
    assert!(check_totality_expr(&rec, "other").is_ok());
    let looped = Expr::Block {
        block: Box::new(Block {
            statements: vec![Stmt::While {
                cond: Box::new(Expr::Bool(true, sp(0, 1))),
                loop_invariant: Box::new(Expr::Bool(true, sp(0, 1))),
                variant: None,
                body: Box::new(Block { statements: Vec::new(), tail: None, span: sp(3, 4) }),
                span: sp(2, 9),
            }],
            tail: None,
            span: sp(0, 10),
        }),
    };
    let e = check_totality_expr(&looped, "f").unwrap_err();
    assert_eq!(e.code, "T901");
    assert_eq!(e.message, "at 2..9: while loops in pure functions require a variant (measure) for totality");
    let io_fn = Func {
        name: "f".to_string(),
        type_params: Vec::new(),
        where_bounds: Vec::new(),
        params: Vec::new(),
        ret: Type::Int,
        effect: Effect::Io,
        effect_span: sp(0, 1),
        requires: Vec::new(),
        ensures: Vec::new(),
        body: looped,
        span: sp(0, 10),
    };
    assert!(enforce_totality(&io_fn).is_ok());
}

#[test]
fn constraint_sets_detect_empty_ranges() {
    let mut s = IntConstraintSet::new();
    assert!(!s.is_unsat());
    s.apply(IntConstraint::Lower(IntBound { value: 5, inclusive: false }));
    s.apply(IntConstraint::Upper(IntBound { value: 10, inclusive: true }));
    assert!(!s.is_unsat());
    s.apply(IntConstraint::Eq(3));
    assert!(s.is_unsat());
    let mut t = IntConstraintSet::new();
    t.apply(IntConstraint::Eq(4));
    t.apply(IntConstraint::Neq(4));
    assert!(t.is_unsat());
    let mut u = IntConstraintSet::new();
    u.apply(IntConstraint::Lower(IntBound { value: 5, inclusive: true }));
    u.apply(IntConstraint::Upper(IntBound { value: 5, inclusive: true }));
    assert!(!u.is_unsat());
    u.apply(IntConstraint::Neq(5));
    assert!(u.is_unsat());
}

#[test]
fn contradictory_refinement_predicates() {
    let gt5_lt3 = bin(BinOp::And, bin(BinOp::Gt, var("x"), lit(5)), bin(BinOp::Lt, var("x"), lit(3)));
    assert!(predicate_is_contradiction(&gt5_lt3, Some("x"), &Type::Int));
    assert!(!predicate_is_contradiction(&gt5_lt3, Some("x"), &Type::Bool));
    let ok = bin(BinOp::And, bin(BinOp::Gt, var("x"), lit(0)), bin(BinOp::Lt, var("x"), lit(3)));
    assert!(!predicate_is_contradiction(&ok, Some("x"), &Type::Int));
    assert!(predicate_is_contradiction(&Expr::Bool(false, sp(0, 1)), None, &Type::Int));
    let not_true = Expr::Unary { op: UnaryOp::Not, expr: Box::new(Expr::Bool(true, sp(0, 1))), span: sp(0, 2) };
    assert!(predicate_is_contradiction(&not_true, None, &Type::Bool));
    let flipped = bin(BinOp::Lt, lit(10), var("x"));
    let both = bin(BinOp::And, flipped, bin(BinOp::Le, var("x"), lit(10)));
    assert!(predicate_is_contradiction(&both, Some("x"), &Type::Int));
}
