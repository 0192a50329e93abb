use vstd::prelude::*;
use crate::ast::{Block, Expr, FieldInit, Func, MatchArm, Stmt};
use crate::errors::{at_span, TyperError};
use crate::intrinsics::{calls_arms, calls_block, calls_fields, calls_in, calls_list, calls_stmts};
use crate::text::str_eq;
use crate::ty::{Effect, Span};

verus! {

/// Why a pure function may fail to terminate.
pub enum TotalityErr {
    /// A direct recursive call at the span.
    Recursion(Span),
    /// A loop without a variant.
    MissingVariant(Span),
    /// A loop whose variant is a constant.
    ConstantVariant(Span),
}

/// The diagnostic reported for a totality violation in function `name`.
pub open spec fn is_totality_error(e: TyperError, err: TotalityErr, name: Seq<char>) -> bool {
    match err {
        TotalityErr::Recursion(sp) => e.code@ == "T902"@ && e.message@ == at_span(sp) + "recursive call to `"@ + name
            + "` requires a decreasing measure for totality"@ && e.start == sp.start && e.end == sp.end,
        TotalityErr::MissingVariant(sp) => e.code@ == "T901"@ && e.message@ == at_span(sp)
            + "while loops in pure functions require a variant (measure) for totality"@ && e.start == sp.start && e.end == sp.end,
        TotalityErr::ConstantVariant(sp) => e.code@ == "T903"@ && e.message@ == at_span(sp)
            + "loop variant must decrease each iteration; constant measures are not allowed"@ && e.start == sp.start && e.end == sp.end,
    }
}

/// The first totality violation in `e`, in evaluation order.
pub open spec fn totality(e: Expr, name: Seq<char>) -> Option<TotalityErr>
    decreases e, 1nat,
{
    match e {
        Expr::Block { block } => totality_block(*block, name),
        Expr::If { cond, then_br, else_br, .. } => first_of(totality(*cond, name), first_of(totality(*then_br, name), totality(*else_br, name))),
        Expr::Match { scrutinee, arms, .. } => first_of(totality(*scrutinee, name), totality_arms(arms@, name)),
        Expr::ArrayLit { elems, .. } => totality_list(elems@, name),
        Expr::TupleLit { elems, .. } => totality_list(elems@, name),
        Expr::StructLit { fields, .. } => totality_fields(fields@, name),
        Expr::FieldAccess { base, .. } => totality(*base, name),
        Expr::Index { base, index, .. } => first_of(totality(*base, name), totality(*index, name)),
        Expr::Unary { expr, .. } => totality(*expr, name),
        Expr::Return { expr, .. } => totality(*expr, name),
        Expr::Try { expr, .. } => totality(*expr, name),
        Expr::Bin { lhs, rhs, .. } => first_of(totality(*lhs, name), totality(*rhs, name)),
        Expr::Call { callee, args, span } => if callee@ == name {
            Some(TotalityErr::Recursion(span))
        } else {
            totality_list(args@, name)
        },
        Expr::Lambda { body, .. } => totality(*body, name),
        _ => None,
    }
}

pub open spec fn first_of(a: Option<TotalityErr>, b: Option<TotalityErr>) -> Option<TotalityErr> {
    if a is Some { a } else { b }
}

pub open spec fn totality_list(es: Seq<Expr>, name: Seq<char>) -> Option<TotalityErr>
    decreases es, 0nat,
{
    if es.len() == 0 { None } else { first_of(totality(es[0], name), totality_list(es.drop_first(), name)) }
}

pub open spec fn totality_fields(fs: Seq<FieldInit>, name: Seq<char>) -> Option<TotalityErr>
    decreases fs, 0nat,
{
    if fs.len() == 0 { None } else { first_of(totality(fs[0].expr, name), totality_fields(fs.drop_first(), name)) }
}

pub open spec fn totality_arms(arms: Seq<MatchArm>, name: Seq<char>) -> Option<TotalityErr>
    decreases arms, 0nat,
{
    if arms.len() == 0 { None } else { first_of(totality(arms[0].expr, name), totality_arms(arms.drop_first(), name)) }
}

pub open spec fn totality_stmt(s: Stmt, name: Seq<char>) -> Option<TotalityErr>
    decreases s, 0nat,
{
    match s {
        Stmt::Let { expr, .. } => totality(*expr, name),
        Stmt::Expr { expr, .. } => totality(*expr, name),
        Stmt::While { cond, loop_invariant, variant, body, span } => match variant {
            None => Some(TotalityErr::MissingVariant(span)),
            Some(v) => first_of(
                totality(*cond, name),
                first_of(
                    totality(*loop_invariant, name),
                    first_of(
                        totality(*v, name),
                        match *v {
                            Expr::Int(_, sp) => Some(TotalityErr::ConstantVariant(sp)),
                            _ => totality_block(*body, name),
                        },
                    ),
                ),
            ),
        },
    }
}

pub open spec fn totality_stmts(ss: Seq<Stmt>, name: Seq<char>) -> Option<TotalityErr>
    decreases ss, 1nat,
{
    if ss.len() == 0 { None } else { first_of(totality_stmt(ss[0], name), totality_stmts(ss.drop_first(), name)) }
}

pub open spec fn totality_block(b: Block, name: Seq<char>) -> Option<TotalityErr>
    decreases b, 0nat,
{
    first_of(
        totality_stmts(b.statements@, name),
        match b.tail {
            Some(t) => totality(*t, name),
            None => None,
        },
    )
}

/// How an executable outcome of a totality check matches the specified one.
pub open spec fn totality_outcome(r: Result<(), TyperError>, s: Option<TotalityErr>, name: Seq<char>) -> bool {
    match r {
        Ok(()) => s is None,
        Err(e) => s is Some && is_totality_error(e, s->0, name),
    }
}

fn check_totality_list(es: &Vec<Expr>, self_name: &str) -> (r: Result<(), TyperError>)
    ensures
        totality_outcome(r, totality_list(es@, self_name@), self_name@),
    decreases es, 0nat,
{
    let mut i: usize = 0;
    assert(es@.subrange(0, es@.len() as int) =~= es@);
    while i < es.len()
        invariant
            i <= es@.len(),
            totality_list(es@, self_name@) == totality_list(es@.subrange(i as int, es@.len() as int), self_name@),
        decreases es.len() - i,
    {
        assert(decreases_to!(es => es@[i as int]));
        let ghost rest = es@.subrange(i as int, es@.len() as int);
        assert(rest.drop_first() =~= es@.subrange(i as int + 1, es@.len() as int));
        assert(rest[0] == es@[i as int]);
        check_totality_expr(&es[i], self_name)?;
        i = i + 1;
    }
    assert(es@.subrange(es@.len() as int, es@.len() as int) =~= Seq::<Expr>::empty());
    Ok(())
}

fn check_totality_fields(fs: &Vec<FieldInit>, self_name: &str) -> (r: Result<(), TyperError>)
    ensures
        totality_outcome(r, totality_fields(fs@, self_name@), self_name@),
    decreases fs, 0nat,
{
    let mut i: usize = 0;
    assert(fs@.subrange(0, fs@.len() as int) =~= fs@);
    while i < fs.len()
        invariant
            i <= fs@.len(),
            totality_fields(fs@, self_name@) == totality_fields(fs@.subrange(i as int, fs@.len() as int), self_name@),
        decreases fs.len() - i,
    {
        assert(decreases_to!(fs => fs@[i as int]));
        let ghost rest = fs@.subrange(i as int, fs@.len() as int);
        assert(rest.drop_first() =~= fs@.subrange(i as int + 1, fs@.len() as int));
        assert(rest[0] == fs@[i as int]);
        check_totality_expr(&fs[i].expr, self_name)?;
        i = i + 1;
    }
    assert(fs@.subrange(fs@.len() as int, fs@.len() as int) =~= Seq::<FieldInit>::empty());
    Ok(())
}

fn check_totality_arms(arms: &Vec<MatchArm>, self_name: &str) -> (r: Result<(), TyperError>)
    ensures
        totality_outcome(r, totality_arms(arms@, self_name@), self_name@),
    decreases arms, 0nat,
{
    let mut i: usize = 0;
    assert(arms@.subrange(0, arms@.len() as int) =~= arms@);
    while i < arms.len()
        invariant
            i <= arms@.len(),
            totality_arms(arms@, self_name@) == totality_arms(arms@.subrange(i as int, arms@.len() as int), self_name@),
        decreases arms.len() - i,
    {
        assert(decreases_to!(arms => arms@[i as int]));
        let ghost rest = arms@.subrange(i as int, arms@.len() as int);
        assert(rest.drop_first() =~= arms@.subrange(i as int + 1, arms@.len() as int));
        assert(rest[0] == arms@[i as int]);
        check_totality_expr(&arms[i].expr, self_name)?;
        i = i + 1;
    }
    assert(arms@.subrange(arms@.len() as int, arms@.len() as int) =~= Seq::<MatchArm>::empty());
    Ok(())
}

fn check_totality_stmt(stmt: &Stmt, self_name: &str) -> (r: Result<(), TyperError>)
    ensures
        totality_outcome(r, totality_stmt(*stmt, self_name@), self_name@),
    decreases stmt, 0nat,
{
    match stmt {
        Stmt::Let { expr, .. } | Stmt::Expr { expr, .. } => check_totality_expr(expr, self_name),
        Stmt::While { cond, loop_invariant, variant, body, span } => {
            let v = match variant {
                None => return Err(TyperError::while_variant_required(*span)),
                Some(v) => v,
            };
            check_totality_expr(cond, self_name)?;
            check_totality_expr(loop_invariant, self_name)?;
            check_totality_expr(v, self_name)?;
            if let Expr::Int(_, sp) = &**v {
                return Err(TyperError::variant_not_decreasing(*sp));
            }
            check_totality_block(body, self_name)
        },
    }
}

fn check_totality_block(block: &Block, self_name: &str) -> (r: Result<(), TyperError>)
    ensures
        totality_outcome(r, totality_block(*block, self_name@), self_name@),
    decreases block, 0nat,
{
    let ghost ss = block.statements@;
    let mut i: usize = 0;
    assert(ss.subrange(0, ss.len() as int) =~= ss);
    while i < block.statements.len()
        invariant
            i <= ss.len(),
            ss == block.statements@,
            totality_stmts(ss, self_name@) == totality_stmts(ss.subrange(i as int, ss.len() as int), self_name@),
        decreases ss.len() - i,
    {
        assert(decreases_to!(block => block.statements));
        assert(decreases_to!(block.statements => block.statements@[i as int]));
        let ghost rest = ss.subrange(i as int, ss.len() as int);
        assert(rest.drop_first() =~= ss.subrange(i as int + 1, ss.len() as int));
        assert(rest[0] == ss[i as int]);
        match check_totality_stmt(&block.statements[i], self_name) {
            Ok(()) => {},
            Err(e) => return Err(e),
        }
        i = i + 1;
    }
    assert(ss.subrange(ss.len() as int, ss.len() as int) =~= Seq::<Stmt>::empty());
    match &block.tail {
        Some(tail) => check_totality_expr(tail, self_name),
        None => Ok(()),
    }
}

/// Fails on the first direct recursive call to `self_name` and on the first
/// loop without a (non-constant) variant.
pub fn check_totality_expr(expr: &Expr, self_name: &str) -> (r: Result<(), TyperError>)
    ensures
        totality_outcome(r, totality(*expr, self_name@), self_name@),
    decreases expr, 1nat,
{
    match expr {
        Expr::Block { block } => check_totality_block(block, self_name),
        Expr::If { cond, then_br, else_br, .. } => {
            check_totality_expr(cond, self_name)?;
            check_totality_expr(then_br, self_name)?;
            check_totality_expr(else_br, self_name)
        },
        Expr::Match { scrutinee, arms, .. } => {
            check_totality_expr(scrutinee, self_name)?;
            check_totality_arms(arms, self_name)
        },
        Expr::ArrayLit { elems, .. } | Expr::TupleLit { elems, .. } => check_totality_list(elems, self_name),
        Expr::StructLit { fields, .. } => check_totality_fields(fields, self_name),
        Expr::FieldAccess { base, .. } => check_totality_expr(base, self_name),
        Expr::Index { base, index, .. } => {
            check_totality_expr(base, self_name)?;
            check_totality_expr(index, self_name)
        },
        Expr::Unary { expr, .. } | Expr::Return { expr, .. } | Expr::Try { expr, .. } => {
            check_totality_expr(expr, self_name)
        },
        Expr::Bin { lhs, rhs, .. } => {
            check_totality_expr(lhs, self_name)?;
            check_totality_expr(rhs, self_name)
        },
        Expr::Call { callee, args, span } => {
            if str_eq(callee.as_str(), self_name) {
                return Err(TyperError::recursion_requires_measure(callee.as_str(), *span));
            }
            check_totality_list(args, self_name)
        },
        Expr::Lambda { body, .. } => check_totality_expr(body, self_name),
        Expr::Int(..) | Expr::Bool(..) | Expr::String(..) | Expr::Var(..) => Ok(()),
    }
}

/// Pure (and unannotated) functions must terminate: no direct recursion and
/// no loop without a decreasing variant.
pub fn enforce_totality(func: &Func) -> (r: Result<(), TyperError>)
    ensures
        func.effect == Effect::Omitted || func.effect == Effect::Pure ==> totality_outcome(r, totality(func.body, func.name@), func.name@),
        !(func.effect == Effect::Omitted || func.effect == Effect::Pure) ==> r is Ok,
{
    match func.effect {
        Effect::Omitted | Effect::Pure => check_totality_expr(&func.body, func.name.as_str()),
        _ => Ok(()),
    }
}

// ---------------------------------------------------------------------------
// Laws

proof fn lemma_split_contains(a: Seq<Seq<char>>, b: Seq<Seq<char>>, x: Seq<char>)
    requires
        (a + b).contains(x),
    ensures
        a.contains(x) || b.contains(x),
{
    let i = choose|i: int| 0 <= i < (a + b).len() && (a + b)[i] == x;
    if i < a.len() {
        assert(a[i] == x);
    } else {
        assert(b[i - a.len()] == x);
    }
}

/// A pure function may not call itself without a measure: wherever a direct
/// call of `name` stands in `e` (in any sub-expression, both branches of an
/// `if`, every arm, statement, loop and closure body included), the
/// totality check of `e` for `name` reports a violation.
pub proof fn lemma_self_call_refused(e: Expr, name: Seq<char>)
    requires
        calls_in(e).contains(name),
    ensures
        totality(e, name) is Some,
    decreases e, 1nat,
{
    match e {
        Expr::Int(..) | Expr::Bool(..) | Expr::String(..) | Expr::Var(..) => {},
        Expr::Return { expr, .. } => lemma_self_call_refused(*expr, name),
        Expr::Unary { expr, .. } => lemma_self_call_refused(*expr, name),
        Expr::Try { expr, .. } => lemma_self_call_refused(*expr, name),
        Expr::FieldAccess { base, .. } => lemma_self_call_refused(*base, name),
        Expr::Lambda { body, .. } => lemma_self_call_refused(*body, name),
        Expr::Bin { lhs, rhs, .. } => {
            lemma_split_contains(calls_in(*lhs), calls_in(*rhs), name);
            if calls_in(*lhs).contains(name) {
                lemma_self_call_refused(*lhs, name);
            } else {
                lemma_self_call_refused(*rhs, name);
            }
        },
        Expr::Index { base, index, .. } => {
            lemma_split_contains(calls_in(*base), calls_in(*index), name);
            if calls_in(*base).contains(name) {
                lemma_self_call_refused(*base, name);
            } else {
                lemma_self_call_refused(*index, name);
            }
        },
        Expr::If { cond, then_br, else_br, .. } => {
            lemma_split_contains(calls_in(*cond) + calls_in(*then_br), calls_in(*else_br), name);
            if (calls_in(*cond) + calls_in(*then_br)).contains(name) {
                lemma_split_contains(calls_in(*cond), calls_in(*then_br), name);
                if calls_in(*cond).contains(name) {
                    lemma_self_call_refused(*cond, name);
                } else {
                    lemma_self_call_refused(*then_br, name);
                }
            } else {
                lemma_self_call_refused(*else_br, name);
            }
        },
        Expr::Match { scrutinee, arms, .. } => {
            lemma_split_contains(calls_in(*scrutinee), calls_arms(arms@), name);
            if calls_in(*scrutinee).contains(name) {
                lemma_self_call_refused(*scrutinee, name);
            } else {
                lemma_self_call_refused_arms(arms@, name);
            }
        },
        Expr::ArrayLit { elems, .. } => lemma_self_call_refused_list(elems@, name),
        Expr::TupleLit { elems, .. } => lemma_self_call_refused_list(elems@, name),
        Expr::StructLit { fields, .. } => lemma_self_call_refused_fields(fields@, name),
        Expr::Block { block } => lemma_self_call_refused_block(*block, name),
        Expr::Call { callee, args, .. } => {
            if callee@ != name {
                lemma_split_contains(seq![callee@], calls_list(args@), name);
                if seq![callee@].contains(name) {
                    assert(seq![callee@][0] == name);
                }
                lemma_self_call_refused_list(args@, name);
            }
        },
    }
}

proof fn lemma_self_call_refused_list(es: Seq<Expr>, name: Seq<char>)
    requires
        calls_list(es).contains(name),
    ensures
        totality_list(es, name) is Some,
    decreases es, 0nat,
{
    if es.len() > 0 {
        lemma_split_contains(calls_in(es[0]), calls_list(es.drop_first()), name);
        if calls_in(es[0]).contains(name) {
            lemma_self_call_refused(es[0], name);
        } else {
            lemma_self_call_refused_list(es.drop_first(), name);
        }
    }
}

proof fn lemma_self_call_refused_fields(fs: Seq<FieldInit>, name: Seq<char>)
    requires
        calls_fields(fs).contains(name),
    ensures
        totality_fields(fs, name) is Some,
    decreases fs, 0nat,
{
    if fs.len() > 0 {
        lemma_split_contains(calls_in(fs[0].expr), calls_fields(fs.drop_first()), name);
        if calls_in(fs[0].expr).contains(name) {
            lemma_self_call_refused(fs[0].expr, name);
        } else {
            lemma_self_call_refused_fields(fs.drop_first(), name);
        }
    }
}

proof fn lemma_self_call_refused_arms(arms: Seq<MatchArm>, name: Seq<char>)
    requires
        calls_arms(arms).contains(name),
    ensures
        totality_arms(arms, name) is Some,
    decreases arms, 0nat,
{
    if arms.len() > 0 {
        lemma_split_contains(calls_in(arms[0].expr), calls_arms(arms.drop_first()), name);
        if calls_in(arms[0].expr).contains(name) {
            lemma_self_call_refused(arms[0].expr, name);
        } else {
            lemma_self_call_refused_arms(arms.drop_first(), name);
        }
    }
}

proof fn lemma_self_call_refused_stmts(ss: Seq<Stmt>, name: Seq<char>)
    requires
        calls_stmts(ss).contains(name),
    ensures
        totality_stmts(ss, name) is Some,
    decreases ss, 1nat,
{
    if ss.len() > 0 {
        let here = match ss[0] {
            Stmt::Let { expr, .. } => calls_in(*expr),
            Stmt::Expr { expr, .. } => calls_in(*expr),
            Stmt::While { cond, loop_invariant, variant, body, .. } => calls_in(*cond) + calls_in(*loop_invariant)
                + (match variant {
                    Some(v) => calls_in(*v),
                    None => Seq::empty(),
                }) + calls_block(*body),
        };
        lemma_split_contains(here, calls_stmts(ss.drop_first()), name);
        if here.contains(name) {
            match ss[0] {
                Stmt::Let { expr, .. } => lemma_self_call_refused(*expr, name),
                Stmt::Expr { expr, .. } => lemma_self_call_refused(*expr, name),
                Stmt::While { cond, loop_invariant, variant, body, .. } => {
                    if let Some(v) = variant {
                        let vc = calls_in(*v);
                        lemma_split_contains(calls_in(*cond) + calls_in(*loop_invariant) + vc, calls_block(*body), name);
                        if (calls_in(*cond) + calls_in(*loop_invariant) + vc).contains(name) {
                            lemma_split_contains(calls_in(*cond) + calls_in(*loop_invariant), vc, name);
                            if (calls_in(*cond) + calls_in(*loop_invariant)).contains(name) {
                                lemma_split_contains(calls_in(*cond), calls_in(*loop_invariant), name);
                                if calls_in(*cond).contains(name) {
                                    lemma_self_call_refused(*cond, name);
                                } else {
                                    lemma_self_call_refused(*loop_invariant, name);
                                }
                            } else {
                                lemma_self_call_refused(*v, name);
                            }
                        } else {
                            match *v {
                                Expr::Int(..) => {},
                                _ => lemma_self_call_refused_block(*body, name),
                            }
                        }
                    }
                },
            }
            assert(totality_stmt(ss[0], name) is Some);
        } else {
            lemma_self_call_refused_stmts(ss.drop_first(), name);
        }
    }
}

proof fn lemma_self_call_refused_block(b: Block, name: Seq<char>)
    requires
        calls_block(b).contains(name),
    ensures
        totality_block(b, name) is Some,
    decreases b, 2nat,
{
    let tail = match b.tail {
        Some(t) => calls_in(*t),
        None => Seq::empty(),
    };
    lemma_split_contains(calls_stmts(b.statements@), tail, name);
    if calls_stmts(b.statements@).contains(name) {
        lemma_self_call_refused_stmts(b.statements@, name);
    } else {
        match b.tail {
            Some(t) => lemma_self_call_refused(*t, name),
            None => {},
        }
    }
}

} // verus!
