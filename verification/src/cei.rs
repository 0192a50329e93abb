use vstd::prelude::*;
use crate::ast::{Block, Expr, FieldInit, MatchArm, Stmt};
use crate::text::{chars_of, has_prefix, starts_with, str_eq, string_of_range};
use crate::names::NameSet;
use crate::ty::Span;

verus! {

/// Where control may be, relative to outbound external calls, when an
/// expression finishes: on a path that has made no such call yet, or on a
/// path that has.
#[derive(Clone, Copy, Debug, PartialEq, Eq, Structural)]
pub struct ExternalCallFlow {
    pub can_continue_before_call: bool,
    pub can_continue_after_call: bool,
}

/// The flow at the start of a function body.
pub open spec fn entry_flow() -> ExternalCallFlow {
    ExternalCallFlow { can_continue_before_call: true, can_continue_after_call: false }
}

/// The flow after one of two alternatives.
pub open spec fn merge_flow(a: ExternalCallFlow, b: ExternalCallFlow) -> ExternalCallFlow {
    ExternalCallFlow {
        can_continue_before_call: a.can_continue_before_call || b.can_continue_before_call,
        can_continue_after_call: a.can_continue_after_call || b.can_continue_after_call,
    }
}

/// A state access, state write or event at `span`: refused once an
/// external call may have happened.
pub open spec fn interaction_flow(f: ExternalCallFlow, span: Span) -> Result<ExternalCallFlow, Span> {
    if f.can_continue_after_call {
        Err(span)
    } else {
        Ok(f)
    }
}

/// An outbound external call at `span`: refused after another one; afterwards
/// control can only be past a call.
pub open spec fn outbound_flow(f: ExternalCallFlow, span: Span) -> Result<ExternalCallFlow, Span> {
    if f.can_continue_after_call {
        Err(span)
    } else {
        Ok(ExternalCallFlow { can_continue_before_call: false, can_continue_after_call: f.can_continue_before_call })
    }
}

/// Whether `e` is the variable `state`.
pub open spec fn is_state_var(e: Expr) -> bool {
    e matches Expr::Var(name, _) && name@ == "state"@
}

/// Checks-effects-interactions order of an expression: the flow after it, or
/// the span of the first state access, state write or event that may follow
/// an outbound external call.
pub open spec fn cei(e: Expr, f: ExternalCallFlow) -> Result<ExternalCallFlow, Span>
    decreases e, 1nat,
{
    match e {
        Expr::Int(..) | Expr::Bool(..) | Expr::String(..) | Expr::Var(..) => Ok(f),
        Expr::Return { expr, .. } => cei(*expr, f),
        Expr::Try { expr, .. } => cei(*expr, f),
        Expr::Unary { expr, .. } => cei(*expr, f),
        Expr::ArrayLit { elems, .. } => cei_list(elems@, f),
        Expr::TupleLit { elems, .. } => cei_list(elems@, f),
        Expr::StructLit { fields, .. } => cei_fields(fields@, f),
        Expr::FieldAccess { base, span, .. } => match cei(*base, f) {
            Err(x) => Err(x),
            Ok(g) => if is_state_var(*base) {
                interaction_flow(g, span)
            } else {
                Ok(g)
            },
        },
        Expr::Index { base, index, .. } => match cei(*base, f) {
            Err(x) => Err(x),
            Ok(g) => cei(*index, g),
        },
        Expr::Bin { lhs, rhs, .. } => match cei(*lhs, f) {
            Err(x) => Err(x),
            Ok(g) => cei(*rhs, g),
        },
        Expr::Call { callee, args, span } => match cei_list(args@, f) {
            Err(x) => Err(x),
            Ok(g) => if has_prefix(callee@, "__clg_state_write$"@) || has_prefix(callee@, "__clg_event_emit$"@) {
                interaction_flow(g, span)
            } else if has_prefix(callee@, "__clg_external_call$"@) {
                outbound_flow(g, span)
            } else {
                Ok(g)
            },
        },
        Expr::Block { block } => cei_block(*block, f),
        Expr::If { cond, then_br, else_br, .. } => match cei(*cond, f) {
            Err(x) => Err(x),
            Ok(g) => match cei(*then_br, g) {
                Err(x) => Err(x),
                Ok(t) => match cei(*else_br, g) {
                    Err(x) => Err(x),
                    Ok(el) => Ok(merge_flow(t, el)),
                },
            },
        },
        Expr::Match { scrutinee, arms, .. } => match cei(*scrutinee, f) {
            Err(x) => Err(x),
            Ok(g) => cei_arms(
                arms@,
                g,
                ExternalCallFlow { can_continue_before_call: false, can_continue_after_call: false },
            ),
        },
        Expr::Lambda { body, .. } => match cei(*body, entry_flow()) {
            Err(x) => Err(x),
            Ok(_) => Ok(f),
        },
    }
}

/// `es` evaluated left to right.
pub open spec fn cei_list(es: Seq<Expr>, f: ExternalCallFlow) -> Result<ExternalCallFlow, Span>
    decreases es, 0nat,
{
    if es.len() == 0 {
        Ok(f)
    } else {
        match cei(es[0], f) {
            Err(x) => Err(x),
            Ok(g) => cei_list(es.drop_first(), g),
        }
    }
}

pub open spec fn cei_fields(fs: Seq<FieldInit>, f: ExternalCallFlow) -> Result<ExternalCallFlow, Span>
    decreases fs, 0nat,
{
    if fs.len() == 0 {
        Ok(f)
    } else {
        match cei(fs[0].expr, f) {
            Err(x) => Err(x),
            Ok(g) => cei_fields(fs.drop_first(), g),
        }
    }
}

/// Every arm starts from the scrutinee's flow; their outcomes are merged onto `acc`.
pub open spec fn cei_arms(arms: Seq<MatchArm>, start: ExternalCallFlow, acc: ExternalCallFlow) -> Result<ExternalCallFlow, Span>
    decreases arms, 0nat,
{
    if arms.len() == 0 {
        Ok(acc)
    } else {
        match cei(arms[0].expr, start) {
            Err(x) => Err(x),
            Ok(a) => cei_arms(arms.drop_first(), start, merge_flow(acc, a)),
        }
    }
}

/// A loop body may not end past an external call; the loop leaves the flow
/// its header had.
pub open spec fn cei_stmts(ss: Seq<Stmt>, f: ExternalCallFlow) -> Result<ExternalCallFlow, Span>
    decreases ss, 0nat,
{
    if ss.len() == 0 {
        Ok(f)
    } else {
        match ss[0] {
            Stmt::Let { expr, .. } => match cei(*expr, f) {
                Err(x) => Err(x),
                Ok(g) => cei_stmts(ss.drop_first(), g),
            },
            Stmt::Expr { expr, .. } => match cei(*expr, f) {
                Err(x) => Err(x),
                Ok(g) => cei_stmts(ss.drop_first(), g),
            },
            Stmt::While { cond, loop_invariant, variant, body, span } => match cei(*cond, f) {
                Err(x) => Err(x),
                Ok(g1) => match cei(*loop_invariant, g1) {
                    Err(x) => Err(x),
                    Ok(g2) => {
                        let g3 = match variant {
                            Some(v) => cei(*v, g2),
                            None => Ok(g2),
                        };
                        match g3 {
                            Err(x) => Err(x),
                            Ok(h) => match cei_block(*body, h) {
                                Err(x) => Err(x),
                                Ok(b) => if b.can_continue_after_call {
                                    Err(span)
                                } else {
                                    cei_stmts(ss.drop_first(), h)
                                },
                            },
                        }
                    },
                },
            },
        }
    }
}

pub open spec fn cei_block(b: Block, f: ExternalCallFlow) -> Result<ExternalCallFlow, Span>
    decreases b, 0nat,
{
    match cei_stmts(b.statements@, f) {
        Err(x) => Err(x),
        Ok(g) => match b.tail {
            None => Ok(g),
            Some(t) => cei(*t, g),
        },
    }
}

impl ExternalCallFlow {
    pub fn entry() -> (f: Self)
        ensures
            f == entry_flow(),
    {
        ExternalCallFlow { can_continue_before_call: true, can_continue_after_call: false }
    }

    pub fn merge(self, other: Self) -> (f: Self)
        ensures
            f == merge_flow(self, other),
    {
        ExternalCallFlow {
            can_continue_before_call: self.can_continue_before_call || other.can_continue_before_call,
            can_continue_after_call: self.can_continue_after_call || other.can_continue_after_call,
        }
    }

    pub fn interaction(self, span: Span) -> (r: Result<Self, Span>)
        ensures
            r == interaction_flow(self, span),
    {
        if self.can_continue_after_call {
            return Err(span);
        }
        Ok(self)
    }

    pub fn outbound_call(self, span: Span) -> (r: Result<Self, Span>)
        ensures
            r == outbound_flow(self, span),
    {
        if self.can_continue_after_call {
            return Err(span);
        }
        Ok(ExternalCallFlow { can_continue_before_call: false, can_continue_after_call: self.can_continue_before_call })
    }
}

/// Checks that a mutating contract function touches state and emits events
/// only before its outbound external calls; the error is the span of the
/// first operation out of order.
pub fn enforce_external_call_cei(body: &Expr) -> (r: Result<(), Span>)
    ensures
        match cei(*body, entry_flow()) {
            Ok(_) => r is Ok,
            Err(s) => r == Err::<(), Span>(s),
        },
{
    analyze_external_call_cei(body, ExternalCallFlow::entry())?;
    Ok(())
}

fn cei_list_exec(es: &Vec<Expr>, flow: ExternalCallFlow) -> (r: Result<ExternalCallFlow, Span>)
    ensures
        r == cei_list(es@, flow),
    decreases es, 0nat,
{
    let mut f = flow;
    let mut i: usize = 0;
    assert(es@.subrange(0, es@.len() as int) =~= es@);
    while i < es.len()
        invariant
            i <= es@.len(),
            cei_list(es@, flow) == cei_list(es@.subrange(i as int, es@.len() as int), f),
        decreases es.len() - i,
    {
        assert(decreases_to!(es => es@[i as int]));
        let ghost rest = es@.subrange(i as int, es@.len() as int);
        assert(rest.drop_first() =~= es@.subrange(i as int + 1, es@.len() as int));
        assert(rest[0] == es@[i as int]);
        f = analyze_external_call_cei(&es[i], f)?;
        i = i + 1;
    }
    assert(es@.subrange(es@.len() as int, es@.len() as int) =~= Seq::<Expr>::empty());
    Ok(f)
}

fn cei_fields_exec(fs: &Vec<FieldInit>, flow: ExternalCallFlow) -> (r: Result<ExternalCallFlow, Span>)
    ensures
        r == cei_fields(fs@, flow),
    decreases fs, 0nat,
{
    let mut f = flow;
    let mut i: usize = 0;
    assert(fs@.subrange(0, fs@.len() as int) =~= fs@);
    while i < fs.len()
        invariant
            i <= fs@.len(),
            cei_fields(fs@, flow) == cei_fields(fs@.subrange(i as int, fs@.len() as int), f),
        decreases fs.len() - i,
    {
        assert(decreases_to!(fs => fs@[i as int]));
        let ghost rest = fs@.subrange(i as int, fs@.len() as int);
        assert(rest.drop_first() =~= fs@.subrange(i as int + 1, fs@.len() as int));
        assert(rest[0] == fs@[i as int]);
        f = analyze_external_call_cei(&fs[i].expr, f)?;
        i = i + 1;
    }
    assert(fs@.subrange(fs@.len() as int, fs@.len() as int) =~= Seq::<FieldInit>::empty());
    Ok(f)
}

fn cei_arms_exec(arms: &Vec<MatchArm>, start: ExternalCallFlow) -> (r: Result<ExternalCallFlow, Span>)
    ensures
        r == cei_arms(arms@, start, (ExternalCallFlow { can_continue_before_call: false, can_continue_after_call: false })),
    decreases arms, 0nat,
{
    let ghost init = ExternalCallFlow { can_continue_before_call: false, can_continue_after_call: false };
    let mut merged = ExternalCallFlow { can_continue_before_call: false, can_continue_after_call: false };
    let mut i: usize = 0;
    assert(arms@.subrange(0, arms@.len() as int) =~= arms@);
    while i < arms.len()
        invariant
            i <= arms@.len(),
            init == (ExternalCallFlow { can_continue_before_call: false, can_continue_after_call: false }),
            cei_arms(arms@, start, init) == cei_arms(arms@.subrange(i as int, arms@.len() as int), start, merged),
        decreases arms.len() - i,
    {
        assert(decreases_to!(arms => arms@[i as int]));
        let ghost rest = arms@.subrange(i as int, arms@.len() as int);
        assert(rest.drop_first() =~= arms@.subrange(i as int + 1, arms@.len() as int));
        assert(rest[0] == arms@[i as int]);
        let a = analyze_external_call_cei(&arms[i].expr, start)?;
        merged = merged.merge(a);
        i = i + 1;
    }
    assert(arms@.subrange(arms@.len() as int, arms@.len() as int) =~= Seq::<MatchArm>::empty());
    Ok(merged)
}

/// The flow after `expr`, started at `flow`, or the first out-of-order span.
pub fn analyze_external_call_cei(expr: &Expr, flow: ExternalCallFlow) -> (r: Result<ExternalCallFlow, Span>)
    ensures
        r == cei(*expr, flow),
    decreases expr, 1nat,
{
    match expr {
        Expr::Int(..) | Expr::Bool(..) | Expr::String(..) | Expr::Var(..) => Ok(flow),
        Expr::Return { expr: inner, .. } | Expr::Try { expr: inner, .. } | Expr::Unary { expr: inner, .. } => {
            analyze_external_call_cei(inner, flow)
        },
        Expr::ArrayLit { elems, .. } | Expr::TupleLit { elems, .. } => cei_list_exec(elems, flow),
        Expr::StructLit { fields, .. } => cei_fields_exec(fields, flow),
        Expr::FieldAccess { base, span, .. } => {
            let g = analyze_external_call_cei(base, flow)?;
            let on_state = match &**base {
                Expr::Var(name, _) => str_eq(name.as_str(), "state"),
                _ => false,
            };
            proof {
                reveal_strlit("state");
            }
            if on_state {
                g.interaction(*span)
            } else {
                Ok(g)
            }
        },
        Expr::Index { base, index, .. } => {
            let g = analyze_external_call_cei(base, flow)?;
            analyze_external_call_cei(index, g)
        },
        Expr::Bin { lhs, rhs, .. } => {
            let g = analyze_external_call_cei(lhs, flow)?;
            analyze_external_call_cei(rhs, g)
        },
        Expr::Call { callee, args, span } => {
            let g = cei_list_exec(args, flow)?;
            if starts_with(callee.as_str(), "__clg_state_write$") || starts_with(callee.as_str(), "__clg_event_emit$") {
                g.interaction(*span)
            } else if starts_with(callee.as_str(), "__clg_external_call$") {
                g.outbound_call(*span)
            } else {
                Ok(g)
            }
        },
        Expr::Block { block } => analyze_external_call_cei_block(block, flow),
        Expr::If { cond, then_br, else_br, .. } => {
            let g = analyze_external_call_cei(cond, flow)?;
            let t = analyze_external_call_cei(then_br, g)?;
            let el = analyze_external_call_cei(else_br, g)?;
            Ok(t.merge(el))
        },
        Expr::Match { scrutinee, arms, .. } => {
            let g = analyze_external_call_cei(scrutinee, flow)?;
            cei_arms_exec(arms, g)
        },
        Expr::Lambda { body, .. } => {
            analyze_external_call_cei(body, ExternalCallFlow::entry())?;
            Ok(flow)
        },
    }
}

/// The flow after a block, started at `flow`, or the first out-of-order span.
pub fn analyze_external_call_cei_block(block: &Block, flow: ExternalCallFlow) -> (r: Result<ExternalCallFlow, Span>)
    ensures
        r == cei_block(*block, flow),
    decreases block, 0nat,
{
    let ghost ss = block.statements@;
    let mut f = flow;
    let mut i: usize = 0;
    assert(ss.subrange(0, ss.len() as int) =~= ss);
    while i < block.statements.len()
        invariant
            i <= ss.len(),
            ss == block.statements@,
            cei_stmts(ss, flow) == cei_stmts(ss.subrange(i as int, ss.len() as int), f),
        decreases ss.len() - i,
    {
        assert(decreases_to!(block => block.statements));
        assert(decreases_to!(block.statements => block.statements@[i as int]));
        let ghost rest = ss.subrange(i as int, ss.len() as int);
        assert(rest.drop_first() =~= ss.subrange(i as int + 1, ss.len() as int));
        assert(rest[0] == ss[i as int]);
        match &block.statements[i] {
            Stmt::Let { expr, .. } | Stmt::Expr { expr, .. } => {
                f = analyze_external_call_cei(expr, f)?;
            },
            Stmt::While { cond, loop_invariant, variant, body, span } => {
                let g1 = analyze_external_call_cei(cond, f)?;
                let g2 = analyze_external_call_cei(loop_invariant, g1)?;
                let h = match variant {
                    Some(v) => analyze_external_call_cei(v, g2)?,
                    None => g2,
                };
                let b = analyze_external_call_cei_block(body, h)?;
                if b.can_continue_after_call {
                    return Err(*span);
                }
                f = h;
            },
        }
        i = i + 1;
    }
    assert(ss.subrange(ss.len() as int, ss.len() as int) =~= Seq::<Stmt>::empty());
    match &block.tail {
        None => Ok(f),
        Some(t) => {
            assert(decreases_to!(block => block.tail));
            analyze_external_call_cei(t, f)
        },
    }
}

/// Merging flows is a join: order and repetition do not matter.
pub proof fn lemma_merge_is_join(a: ExternalCallFlow, b: ExternalCallFlow, c: ExternalCallFlow)
    ensures
        merge_flow(a, b) == merge_flow(b, a),
        merge_flow(merge_flow(a, b), c) == merge_flow(a, merge_flow(b, c)),
        merge_flow(a, a) == a,
{
}

/// No outbound external call occurs anywhere in `e`, lambdas included.
pub open spec fn no_outbound(e: Expr) -> bool
    decreases e, 1nat,
{
    match e {
        Expr::Int(..) | Expr::Bool(..) | Expr::String(..) | Expr::Var(..) => true,
        Expr::Return { expr, .. } => no_outbound(*expr),
        Expr::Try { expr, .. } => no_outbound(*expr),
        Expr::Unary { expr, .. } => no_outbound(*expr),
        Expr::ArrayLit { elems, .. } => no_outbound_list(elems@),
        Expr::TupleLit { elems, .. } => no_outbound_list(elems@),
        Expr::StructLit { fields, .. } => no_outbound_fields(fields@),
        Expr::FieldAccess { base, .. } => no_outbound(*base),
        Expr::Index { base, index, .. } => no_outbound(*base) && no_outbound(*index),
        Expr::Bin { lhs, rhs, .. } => no_outbound(*lhs) && no_outbound(*rhs),
        Expr::Call { callee, args, .. } => !has_prefix(callee@, "__clg_external_call$"@) && no_outbound_list(args@),
        Expr::Block { block } => no_outbound_block(*block),
        Expr::If { cond, then_br, else_br, .. } => no_outbound(*cond) && no_outbound(*then_br) && no_outbound(*else_br),
        Expr::Match { scrutinee, arms, .. } => no_outbound(*scrutinee) && no_outbound_arms(arms@),
        Expr::Lambda { body, .. } => no_outbound(*body),
    }
}

pub open spec fn no_outbound_list(es: Seq<Expr>) -> bool
    decreases es, 0nat,
{
    es.len() == 0 || (no_outbound(es[0]) && no_outbound_list(es.drop_first()))
}

pub open spec fn no_outbound_fields(fs: Seq<FieldInit>) -> bool
    decreases fs, 0nat,
{
    fs.len() == 0 || (no_outbound(fs[0].expr) && no_outbound_fields(fs.drop_first()))
}

pub open spec fn no_outbound_arms(arms: Seq<MatchArm>) -> bool
    decreases arms, 0nat,
{
    arms.len() == 0 || (no_outbound(arms[0].expr) && no_outbound_arms(arms.drop_first()))
}

pub open spec fn no_outbound_stmts(ss: Seq<Stmt>) -> bool
    decreases ss, 0nat,
{
    if ss.len() == 0 {
        true
    } else {
        let here = match ss[0] {
            Stmt::Let { expr, .. } => no_outbound(*expr),
            Stmt::Expr { expr, .. } => no_outbound(*expr),
            Stmt::While { cond, loop_invariant, variant, body, .. } => no_outbound(*cond) && no_outbound(*loop_invariant)
                && (match variant {
                Some(v) => no_outbound(*v),
                None => true,
            }) && no_outbound_block(*body),
        };
        here && no_outbound_stmts(ss.drop_first())
    }
}

pub open spec fn no_outbound_block(b: Block) -> bool
    decreases b, 0nat,
{
    no_outbound_stmts(b.statements@) && match b.tail {
        None => true,
        Some(t) => no_outbound(*t),
    }
}

/// Code without outbound external calls always passes the order check and
/// never leaves control past a call.
pub proof fn lemma_no_outbound_passes(e: Expr, f: ExternalCallFlow)
    requires
        no_outbound(e),
        !f.can_continue_after_call,
    ensures
        cei(e, f) is Ok,
        !cei(e, f)->Ok_0.can_continue_after_call,
    decreases e, 1nat,
{
    match e {
        Expr::Return { expr, .. } => lemma_no_outbound_passes(*expr, f),
        Expr::Try { expr, .. } => lemma_no_outbound_passes(*expr, f),
        Expr::Unary { expr, .. } => lemma_no_outbound_passes(*expr, f),
        Expr::ArrayLit { elems, .. } => lemma_no_outbound_list(elems@, f),
        Expr::TupleLit { elems, .. } => lemma_no_outbound_list(elems@, f),
        Expr::StructLit { fields, .. } => lemma_no_outbound_fields(fields@, f),
        Expr::FieldAccess { base, .. } => lemma_no_outbound_passes(*base, f),
        Expr::Index { base, index, .. } => {
            lemma_no_outbound_passes(*base, f);
            lemma_no_outbound_passes(*index, cei(*base, f)->Ok_0);
        },
        Expr::Bin { lhs, rhs, .. } => {
            lemma_no_outbound_passes(*lhs, f);
            lemma_no_outbound_passes(*rhs, cei(*lhs, f)->Ok_0);
        },
        Expr::Call { args, .. } => lemma_no_outbound_list(args@, f),
        Expr::Block { block } => lemma_no_outbound_block(*block, f),
        Expr::If { cond, then_br, else_br, .. } => {
            lemma_no_outbound_passes(*cond, f);
            let g = cei(*cond, f)->Ok_0;
            lemma_no_outbound_passes(*then_br, g);
            lemma_no_outbound_passes(*else_br, g);
        },
        Expr::Match { scrutinee, arms, .. } => {
            lemma_no_outbound_passes(*scrutinee, f);
            lemma_no_outbound_arms(
                arms@,
                cei(*scrutinee, f)->Ok_0,
                ExternalCallFlow { can_continue_before_call: false, can_continue_after_call: false },
            );
        },
        Expr::Lambda { body, .. } => lemma_no_outbound_passes(*body, entry_flow()),
        _ => {},
    }
}

proof fn lemma_no_outbound_list(es: Seq<Expr>, f: ExternalCallFlow)
    requires
        no_outbound_list(es),
        !f.can_continue_after_call,
    ensures
        cei_list(es, f) is Ok,
        !cei_list(es, f)->Ok_0.can_continue_after_call,
    decreases es, 0nat,
{
    if es.len() > 0 {
        lemma_no_outbound_passes(es[0], f);
        lemma_no_outbound_list(es.drop_first(), cei(es[0], f)->Ok_0);
    }
}

proof fn lemma_no_outbound_fields(fs: Seq<FieldInit>, f: ExternalCallFlow)
    requires
        no_outbound_fields(fs),
        !f.can_continue_after_call,
    ensures
        cei_fields(fs, f) is Ok,
        !cei_fields(fs, f)->Ok_0.can_continue_after_call,
    decreases fs, 0nat,
{
    if fs.len() > 0 {
        lemma_no_outbound_passes(fs[0].expr, f);
        lemma_no_outbound_fields(fs.drop_first(), cei(fs[0].expr, f)->Ok_0);
    }
}

proof fn lemma_no_outbound_arms(arms: Seq<MatchArm>, start: ExternalCallFlow, acc: ExternalCallFlow)
    requires
        no_outbound_arms(arms),
        !start.can_continue_after_call,
        !acc.can_continue_after_call,
    ensures
        cei_arms(arms, start, acc) is Ok,
        !cei_arms(arms, start, acc)->Ok_0.can_continue_after_call,
    decreases arms, 0nat,
{
    if arms.len() > 0 {
        lemma_no_outbound_passes(arms[0].expr, start);
        lemma_no_outbound_arms(arms.drop_first(), start, merge_flow(acc, cei(arms[0].expr, start)->Ok_0));
    }
}

proof fn lemma_no_outbound_stmts(ss: Seq<Stmt>, f: ExternalCallFlow)
    requires
        no_outbound_stmts(ss),
        !f.can_continue_after_call,
    ensures
        cei_stmts(ss, f) is Ok,
        !cei_stmts(ss, f)->Ok_0.can_continue_after_call,
    decreases ss, 0nat,
{
    if ss.len() > 0 {
        match ss[0] {
            Stmt::Let { expr, .. } => {
                lemma_no_outbound_passes(*expr, f);
                lemma_no_outbound_stmts(ss.drop_first(), cei(*expr, f)->Ok_0);
            },
            Stmt::Expr { expr, .. } => {
                lemma_no_outbound_passes(*expr, f);
                lemma_no_outbound_stmts(ss.drop_first(), cei(*expr, f)->Ok_0);
            },
            Stmt::While { cond, loop_invariant, variant, body, .. } => {
                lemma_no_outbound_passes(*cond, f);
                let g1 = cei(*cond, f)->Ok_0;
                lemma_no_outbound_passes(*loop_invariant, g1);
                let g2 = cei(*loop_invariant, g1)->Ok_0;
                let h = match variant {
                    Some(v) => {
                        lemma_no_outbound_passes(*v, g2);
                        cei(*v, g2)->Ok_0
                    },
                    None => g2,
                };
                lemma_no_outbound_block(*body, h);
                lemma_no_outbound_stmts(ss.drop_first(), h);
            },
        }
    }
}

proof fn lemma_no_outbound_block(b: Block, f: ExternalCallFlow)
    requires
        no_outbound_block(b),
        !f.can_continue_after_call,
    ensures
        cei_block(b, f) is Ok,
        !cei_block(b, f)->Ok_0.can_continue_after_call,
    decreases b, 0nat,
{
    lemma_no_outbound_stmts(b.statements@, f);
    match b.tail {
        None => {},
        Some(t) => lemma_no_outbound_passes(*t, cei_stmts(b.statements@, f)->Ok_0),
    }
}

/// After an outbound call on every path, touching state or emitting an event
/// is refused at that operation.
pub proof fn lemma_interaction_after_call_refused(f: ExternalCallFlow, call: Span, access: Span)
    requires
        !f.can_continue_after_call,
        f.can_continue_before_call,
    ensures
        outbound_flow(f, call) is Ok,
        interaction_flow(outbound_flow(f, call)->Ok_0, access) == Err::<ExternalCallFlow, Span>(access),
        outbound_flow(outbound_flow(f, call)->Ok_0, access) == Err::<ExternalCallFlow, Span>(access),
{
}

/// Whether `e` reads contract state: a field of `state`, possibly indexed.
pub open spec fn state_rooted(e: Expr) -> bool
    decreases e,
{
    match e {
        Expr::FieldAccess { base, .. } => is_state_var(*base),
        Expr::Index { base, .. } => state_rooted(*base),
        _ => false,
    }
}

pub fn is_state_rooted(expr: &Expr) -> (r: bool)
    ensures
        r == state_rooted(*expr),
    decreases expr,
{
    match expr {
        Expr::FieldAccess { base, .. } => {
            proof {
                reveal_strlit("state");
            }
            match &**base {
                Expr::Var(name, _) => str_eq(name.as_str(), "state"),
                _ => false,
            }
        },
        Expr::Index { base, .. } => is_state_rooted(base),
        _ => false,
    }
}

/// The prefix of the calls that write a state field.
pub open spec fn state_write_prefix() -> Seq<char> {
    "__clg_state_write$"@
}

/// The state fields that the statements of an initializer's top-level
/// block write directly, as expression statements.
pub open spec fn init_writes(body: Expr) -> Set<Seq<char>> {
    match body {
        Expr::Block { block } => Set::new(|k: Seq<char>| exists|i: int| 0 <= i < block.statements@.len()
            && #[trigger] written_by(block.statements@[i], k)),
        _ => Set::empty(),
    }
}

/// Statement `s` is `__clg_state_write$field(..);` for `field == k`.
pub open spec fn written_by(s: Stmt, k: Seq<char>) -> bool {
    s matches Stmt::Expr { expr, .. } && *expr matches Expr::Call { callee, .. }
        && has_prefix(callee@, state_write_prefix()) && k == callee@.subrange(state_write_prefix().len() as int, callee@.len() as int)
}

pub fn direct_init_writes(body: &Expr) -> (s: NameSet)
    ensures
        s@ == init_writes(*body),
{
    let mut out = NameSet::new();
    match body {
        Expr::Block { block } => {
            let ghost ss = block.statements@;
            let mut i: usize = 0;
            while i < block.statements.len()
                invariant
                    i <= ss.len(),
                    ss == block.statements@,
                    forall|k: Seq<char>| #[trigger] out@.contains(k) <==> exists|j: int| 0 <= j < i && #[trigger] written_by(ss[j], k),
                decreases ss.len() - i,
            {
                let ghost prev = out@;
                if let Stmt::Expr { expr, .. } = &block.statements[i] {
                    if let Expr::Call { callee, .. } = &**expr {
                        if starts_with(callee.as_str(), "__clg_state_write$") {
                            let cs = chars_of(callee.as_str());
                            proof {
                                reveal_strlit("__clg_state_write$");
                                assert(state_write_prefix().len() == 18);
                            }
                            let field = string_of_range(&cs, 18, cs.len());
                            proof {
                                reveal_strlit("__clg_state_write$");
                                assert(written_by(ss[i as int], field@));
                            }
                            out.insert(field);
                        }
                    }
                }
                proof {
                    reveal_strlit("__clg_state_write$");
                    assert forall|k: Seq<char>| #[trigger] out@.contains(k) <==> exists|j: int| 0 <= j < i + 1 && #[trigger] written_by(ss[j], k) by {
                        if exists|j: int| 0 <= j < i + 1 && #[trigger] written_by(ss[j], k) {
                            let j = choose|j: int| 0 <= j < i + 1 && #[trigger] written_by(ss[j], k);
                            if j == i {
                            }
                        }
                        if prev.contains(k) {
                        }
                    }
                }
                i = i + 1;
            }
            assert(out@ =~= init_writes(*body));
        },
        _ => {
            assert(out@ =~= init_writes(*body));
        },
    }
    out
}

} // verus!
