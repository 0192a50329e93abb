use vstd::prelude::*;
use crate::ast::{Block, Expr, FieldInit, MatchArm, Stmt};
use crate::closures::{bound_in, calls_view, lemma_scopes_view_push, param_scope, param_set, pat_set, pattern_scope, scopes_view};
use crate::names::{name_is_bound, NameMap, NameSet};
use crate::text::{contains_sep, has_sep};
use crate::ty::{Param, Span};

verus! {

/// The uses in `e`, in evaluation order, of names that no scope of `sc` (or
/// of `e` itself) binds: variables, and callees without a `::` path.
pub open spec fn fv(e: Expr, sc: Seq<Set<Seq<char>>>) -> Seq<(Seq<char>, Span)>
    decreases e, 1nat,
{
    match e {
        Expr::Int(..) | Expr::Bool(..) | Expr::String(..) => Seq::empty(),
        Expr::Var(name, span) => if !bound_in(sc, name@) {
            seq![(name@, span)]
        } else {
            Seq::empty()
        },
        Expr::Call { callee, args, span } => (if !has_sep(callee@) && !bound_in(sc, callee@) {
            seq![(callee@, span)]
        } else {
            Seq::empty()
        }) + fv_list(args@, sc),
        Expr::ArrayLit { elems, .. } => fv_list(elems@, sc),
        Expr::TupleLit { elems, .. } => fv_list(elems@, sc),
        Expr::StructLit { fields, .. } => fv_fields(fields@, sc),
        Expr::FieldAccess { base, .. } => fv(*base, sc),
        Expr::Index { base, index, .. } => fv(*base, sc) + fv(*index, sc),
        Expr::Block { block } => fv_block(*block, sc),
        Expr::Bin { lhs, rhs, .. } => fv(*lhs, sc) + fv(*rhs, sc),
        Expr::Return { expr, .. } => fv(*expr, sc),
        Expr::Unary { expr, .. } => fv(*expr, sc),
        Expr::Try { expr, .. } => fv(*expr, sc),
        Expr::If { cond, then_br, else_br, .. } => fv(*cond, sc) + fv(*then_br, sc) + fv(*else_br, sc),
        Expr::Match { scrutinee, arms, .. } => fv(*scrutinee, sc) + fv_arms(arms@, sc),
        Expr::Lambda { params, body, .. } => fv(*body, sc.push(param_set(params@))),
    }
}

pub open spec fn fv_list(es: Seq<Expr>, sc: Seq<Set<Seq<char>>>) -> Seq<(Seq<char>, Span)>
    decreases es, 0nat,
{
    if es.len() == 0 {
        Seq::empty()
    } else {
        fv(es[0], sc) + fv_list(es.drop_first(), sc)
    }
}

pub open spec fn fv_fields(fs: Seq<FieldInit>, sc: Seq<Set<Seq<char>>>) -> Seq<(Seq<char>, Span)>
    decreases fs, 0nat,
{
    if fs.len() == 0 {
        Seq::empty()
    } else {
        fv(fs[0].expr, sc) + fv_fields(fs.drop_first(), sc)
    }
}

pub open spec fn fv_arms(arms: Seq<MatchArm>, sc: Seq<Set<Seq<char>>>) -> Seq<(Seq<char>, Span)>
    decreases arms, 0nat,
{
    if arms.len() == 0 {
        Seq::empty()
    } else {
        fv(arms[0].expr, sc.push(pat_set(arms[0].pat))) + fv_arms(arms.drop_first(), sc)
    }
}

/// The uses in the statements `ss`, whose `let` bindings go into the last
/// scope of `sc` once their initializer is done; with the scopes they leave.
pub open spec fn fv_stmts(ss: Seq<Stmt>, sc: Seq<Set<Seq<char>>>) -> (Seq<(Seq<char>, Span)>, Seq<Set<Seq<char>>>)
    decreases ss, 0nat,
{
    if ss.len() == 0 {
        (Seq::empty(), sc)
    } else {
        let (here, next) = match ss[0] {
            Stmt::Let { name, expr, .. } => (fv(*expr, sc), sc.update(sc.len() - 1, sc[sc.len() - 1].insert(name@))),
            Stmt::Expr { expr, .. } => (fv(*expr, sc), sc),
            Stmt::While { cond, loop_invariant, variant, body, .. } => (
                fv(*cond, sc) + fv(*loop_invariant, sc) + (match variant {
                    Some(v) => fv(*v, sc),
                    None => Seq::empty(),
                }) + fv_block(*body, sc),
                sc,
            ),
        };
        let (rest, last) = fv_stmts(ss.drop_first(), next);
        (here + rest, last)
    }
}

pub open spec fn fv_block(b: Block, sc: Seq<Set<Seq<char>>>) -> Seq<(Seq<char>, Span)>
    decreases b, 0nat,
{
    let (uses, after) = fv_stmts(b.statements@, sc.push(Set::empty()));
    uses + match b.tail {
        Some(t) => fv(*t, after),
        None => Seq::empty(),
    }
}

/// `m` with each use of `s` recorded, in order, under its name unless the
/// name is already there: every name keeps its first span.
pub open spec fn record_uses(m: Map<Seq<char>, Span>, s: Seq<(Seq<char>, Span)>) -> Map<Seq<char>, Span>
    decreases s.len(),
{
    if s.len() == 0 {
        m
    } else {
        let prev = record_uses(m, s.drop_last());
        if prev.contains_key(s.last().0) {
            prev
        } else {
            prev.insert(s.last().0, s.last().1)
        }
    }
}

fn fv_list_exec(es: &Vec<Expr>, scopes: &mut Vec<NameSet>, out: &mut Vec<(String, Span)>)
    ensures
        final(scopes)@ == old(scopes)@,
        calls_view(final(out)@) == calls_view(old(out)@) + fv_list(es@, scopes_view(old(scopes)@)),
    decreases es, 0nat,
{
    let ghost sc = scopes_view(scopes@);
    let ghost start = calls_view(out@);
    let mut i: usize = 0;
    assert(es@.subrange(0, es@.len() as int) =~= es@);
    while i < es.len()
        invariant
            i <= es@.len(),
            scopes@ == old(scopes)@,
            sc == scopes_view(scopes@),
            start + fv_list(es@, sc) == calls_view(out@) + fv_list(es@.subrange(i as int, es@.len() as int), sc),
        decreases es.len() - i,
    {
        assert(decreases_to!(es => es@[i as int]));
        let ghost rest = es@.subrange(i as int, es@.len() as int);
        assert(rest.drop_first() =~= es@.subrange(i as int + 1, es@.len() as int));
        assert(rest[0] == es@[i as int]);
        let ghost before = calls_view(out@);
        fv_expr(&es[i], scopes, out);
        assert(before + fv_list(rest, sc) =~= calls_view(out@) + fv_list(rest.drop_first(), sc));
        i = i + 1;
    }
    assert(es@.subrange(es@.len() as int, es@.len() as int) =~= Seq::<Expr>::empty());
    assert(calls_view(out@) + Seq::<(Seq<char>, Span)>::empty() =~= calls_view(out@));
}

fn fv_fields_exec(fs: &Vec<FieldInit>, scopes: &mut Vec<NameSet>, out: &mut Vec<(String, Span)>)
    ensures
        final(scopes)@ == old(scopes)@,
        calls_view(final(out)@) == calls_view(old(out)@) + fv_fields(fs@, scopes_view(old(scopes)@)),
    decreases fs, 0nat,
{
    let ghost sc = scopes_view(scopes@);
    let ghost start = calls_view(out@);
    let mut i: usize = 0;
    assert(fs@.subrange(0, fs@.len() as int) =~= fs@);
    while i < fs.len()
        invariant
            i <= fs@.len(),
            scopes@ == old(scopes)@,
            sc == scopes_view(scopes@),
            start + fv_fields(fs@, sc) == calls_view(out@) + fv_fields(fs@.subrange(i as int, fs@.len() as int), sc),
        decreases fs.len() - i,
    {
        assert(decreases_to!(fs => fs@[i as int]));
        let ghost rest = fs@.subrange(i as int, fs@.len() as int);
        assert(rest.drop_first() =~= fs@.subrange(i as int + 1, fs@.len() as int));
        assert(rest[0] == fs@[i as int]);
        let ghost before = calls_view(out@);
        fv_expr(&fs[i].expr, scopes, out);
        assert(before + fv_fields(rest, sc) =~= calls_view(out@) + fv_fields(rest.drop_first(), sc));
        i = i + 1;
    }
    assert(fs@.subrange(fs@.len() as int, fs@.len() as int) =~= Seq::<FieldInit>::empty());
    assert(calls_view(out@) + Seq::<(Seq<char>, Span)>::empty() =~= calls_view(out@));
}

fn fv_arms_exec(arms: &Vec<MatchArm>, scopes: &mut Vec<NameSet>, out: &mut Vec<(String, Span)>)
    ensures
        final(scopes)@ == old(scopes)@,
        calls_view(final(out)@) == calls_view(old(out)@) + fv_arms(arms@, scopes_view(old(scopes)@)),
    decreases arms, 0nat,
{
    let ghost sc = scopes_view(scopes@);
    let ghost start = calls_view(out@);
    let mut i: usize = 0;
    assert(arms@.subrange(0, arms@.len() as int) =~= arms@);
    while i < arms.len()
        invariant
            i <= arms@.len(),
            scopes@ == old(scopes)@,
            sc == scopes_view(scopes@),
            start + fv_arms(arms@, sc) == calls_view(out@) + fv_arms(arms@.subrange(i as int, arms@.len() as int), sc),
        decreases arms.len() - i,
    {
        assert(decreases_to!(arms => arms@[i as int]));
        let ghost rest = arms@.subrange(i as int, arms@.len() as int);
        assert(rest.drop_first() =~= arms@.subrange(i as int + 1, arms@.len() as int));
        assert(rest[0] == arms@[i as int]);
        let ghost before = calls_view(out@);
        let ghost outer = scopes@;
        let scope = pattern_scope(&arms[i].pat);
        proof {
            lemma_scopes_view_push(outer, scope);
        }
        scopes.push(scope);
        fv_expr(&arms[i].expr, scopes, out);
        let _ = scopes.pop();
        assert(scopes@ =~= outer);
        assert(before + fv_arms(rest, sc) =~= calls_view(out@) + fv_arms(rest.drop_first(), sc));
        i = i + 1;
    }
    assert(arms@.subrange(arms@.len() as int, arms@.len() as int) =~= Seq::<MatchArm>::empty());
    assert(calls_view(out@) + Seq::<(Seq<char>, Span)>::empty() =~= calls_view(out@));
}

proof fn lemma_push_view(v: Seq<(String, Span)>, c: (String, Span))
    ensures
        calls_view(v.push(c)) == calls_view(v).push((c.0@, c.1)),
{
    assert(calls_view(v.push(c)) =~= calls_view(v).push((c.0@, c.1)));
}

/// Whether `name` is bound by a scope, stated over the scopes' model.
fn bound_here(name: &str, scopes: &Vec<NameSet>) -> (r: bool)
    ensures
        r == bound_in(scopes_view(scopes@), name@),
{
    let ghost sc = scopes_view(scopes@);
    let r = name_is_bound(name, scopes);
    proof {
        if r {
            let i = choose|i: int| 0 <= i < scopes@.len() && (#[trigger] scopes@[i])@.contains(name@);
            assert(sc[i] == scopes@[i]@);
        }
        if bound_in(sc, name@) {
            let i = choose|i: int| 0 <= i < sc.len() && #[trigger] sc[i].contains(name@);
            assert(sc[i] == scopes@[i]@);
        }
    }
    r
}

fn fv_expr(expr: &Expr, scopes: &mut Vec<NameSet>, out: &mut Vec<(String, Span)>)
    ensures
        final(scopes)@ == old(scopes)@,
        calls_view(final(out)@) == calls_view(old(out)@) + fv(*expr, scopes_view(old(scopes)@)),
    decreases expr, 1nat,
{
    let ghost sc = scopes_view(scopes@);
    let ghost start = calls_view(out@);
    match expr {
        Expr::Int(..) | Expr::Bool(..) | Expr::String(..) => {
            assert(start + Seq::<(Seq<char>, Span)>::empty() =~= start);
        },
        Expr::Var(name, span) => {
            if !bound_here(name.as_str(), scopes) {
                let ghost before = out@;
                let entry = (name.clone(), *span);
                let ghost e = entry;
                out.push(entry);
                proof {
                    lemma_push_view(before, e);
                }
            } else {
                assert(start + Seq::<(Seq<char>, Span)>::empty() =~= start);
            }
        },
        Expr::Call { callee, args, span } => {
            let n = callee.as_str();
            if !contains_sep(n) && !bound_here(n, scopes) {
                let ghost before = out@;
                let entry = (callee.clone(), *span);
                let ghost e = entry;
                out.push(entry);
                proof {
                    lemma_push_view(before, e);
                }
            } else {
                assert(calls_view(out@) + Seq::<(Seq<char>, Span)>::empty() =~= calls_view(out@));
            }
            fv_list_exec(args, scopes, out);
            assert(start + fv(*expr, sc) =~= calls_view(out@));
        },
        Expr::ArrayLit { elems, .. } | Expr::TupleLit { elems, .. } => fv_list_exec(elems, scopes, out),
        Expr::StructLit { fields, .. } => fv_fields_exec(fields, scopes, out),
        Expr::FieldAccess { base, .. } => fv_expr(base, scopes, out),
        Expr::Index { base, index, .. } => {
            fv_expr(base, scopes, out);
            fv_expr(index, scopes, out);
            assert(start + fv(*expr, sc) =~= calls_view(out@));
        },
        Expr::Block { block } => fv_block_exec(block, scopes, out),
        Expr::Bin { lhs, rhs, .. } => {
            fv_expr(lhs, scopes, out);
            fv_expr(rhs, scopes, out);
            assert(start + fv(*expr, sc) =~= calls_view(out@));
        },
        Expr::Return { expr: inner, .. } | Expr::Unary { expr: inner, .. } | Expr::Try { expr: inner, .. } => {
            fv_expr(inner, scopes, out)
        },
        Expr::If { cond, then_br, else_br, .. } => {
            fv_expr(cond, scopes, out);
            fv_expr(then_br, scopes, out);
            fv_expr(else_br, scopes, out);
            assert(start + fv(*expr, sc) =~= calls_view(out@));
        },
        Expr::Match { scrutinee, arms, .. } => {
            fv_expr(scrutinee, scopes, out);
            fv_arms_exec(arms, scopes, out);
            assert(start + fv(*expr, sc) =~= calls_view(out@));
        },
        Expr::Lambda { params, body, .. } => {
            let ghost outer = scopes@;
            let scope = param_scope(params);
            proof {
                lemma_scopes_view_push(outer, scope);
            }
            scopes.push(scope);
            fv_expr(body, scopes, out);
            let _ = scopes.pop();
            assert(scopes@ =~= outer);
        },
    }
}

fn fv_block_exec(block: &Block, scopes: &mut Vec<NameSet>, out: &mut Vec<(String, Span)>)
    ensures
        final(scopes)@ == old(scopes)@,
        calls_view(final(out)@) == calls_view(old(out)@) + fv_block(*block, scopes_view(old(scopes)@)),
    decreases block, 0nat,
{
    let ghost outer = scopes@;
    let ghost sc0 = scopes_view(outer);
    let ghost start = calls_view(out@);
    let ghost ss = block.statements@;
    let fresh = NameSet::new();
    proof {
        lemma_scopes_view_push(outer, fresh);
    }
    scopes.push(fresh);
    let ghost sc1 = scopes_view(scopes@);
    assert(sc1 == sc0.push(Set::<Seq<char>>::empty()));
    let mut i: usize = 0;
    assert(ss.subrange(0, ss.len() as int) =~= ss);
    while i < block.statements.len()
        invariant
            i <= ss.len(),
            ss == block.statements@,
            scopes@.len() == outer.len() + 1,
            scopes@.subrange(0, outer.len() as int) == outer,
            start + fv_stmts(ss, sc1).0 == calls_view(out@) + fv_stmts(ss.subrange(i as int, ss.len() as int), scopes_view(scopes@)).0,
            fv_stmts(ss, sc1).1 == fv_stmts(ss.subrange(i as int, ss.len() as int), scopes_view(scopes@)).1,
        decreases ss.len() - i,
    {
        assert(decreases_to!(block => block.statements));
        assert(decreases_to!(block.statements => block.statements@[i as int]));
        let ghost rest = ss.subrange(i as int, ss.len() as int);
        assert(rest.drop_first() =~= ss.subrange(i as int + 1, ss.len() as int));
        assert(rest[0] == ss[i as int]);
        let ghost sc = scopes_view(scopes@);
        let ghost before = calls_view(out@);
        match &block.statements[i] {
            Stmt::Let { name, expr, .. } => {
                fv_expr(expr, scopes, out);
                let ghost with = scopes@;
                let mut top = scopes.pop().unwrap();
                top.insert(name.clone());
                scopes.push(top);
                proof {
                    assert(scopes_view(scopes@) =~= sc.update(sc.len() - 1, sc[sc.len() - 1].insert(name@)));
                    assert(scopes@.subrange(0, outer.len() as int) =~= with.subrange(0, outer.len() as int));
                }
            },
            Stmt::Expr { expr, .. } => {
                fv_expr(expr, scopes, out);
            },
            Stmt::While { cond, loop_invariant, variant, body, .. } => {
                fv_expr(cond, scopes, out);
                fv_expr(loop_invariant, scopes, out);
                match variant {
                    Some(v) => fv_expr(v, scopes, out),
                    None => {},
                }
                fv_block_exec(body, scopes, out);
            },
        }
        assert(before + fv_stmts(rest, sc).0 =~= calls_view(out@) + fv_stmts(rest.drop_first(), scopes_view(scopes@)).0);
        i = i + 1;
    }
    assert(ss.subrange(ss.len() as int, ss.len() as int) =~= Seq::<Stmt>::empty());
    assert(calls_view(out@) + Seq::<(Seq<char>, Span)>::empty() =~= calls_view(out@));
    match &block.tail {
        Some(t) => {
            assert(decreases_to!(block => block.tail));
            fv_expr(t, scopes, out);
        },
        None => {},
    }
    let _ = scopes.pop();
    assert(scopes@ =~= outer);
    assert(start + fv_block(*block, sc0) =~= calls_view(out@));
}

/// Records each use under its name, keeping the first span of each name.
fn record_all(uses: &Vec<(String, Span)>, captures: &mut NameMap<Span>)
    ensures
        final(captures)@ == record_uses(old(captures)@, calls_view(uses@)),
{
    let ghost s = calls_view(uses@);
    let mut i: usize = 0;
    assert(s.take(0) =~= Seq::<(Seq<char>, Span)>::empty());
    while i < uses.len()
        invariant
            i <= uses@.len(),
            s == calls_view(uses@),
            captures@ == record_uses(old(captures)@, s.take(i as int)),
        decreases uses.len() - i,
    {
        assert(s.take(i as int + 1).drop_last() =~= s.take(i as int));
        let name = &uses[i].0;
        if !captures.contains_key(name.as_str()) {
            captures.insert(name.clone(), uses[i].1);
        }
        i = i + 1;
    }
    assert(s.take(uses@.len() as int) =~= s);
}

/// Records in `captures` the names that `expr` uses without binding them,
/// each with the span of its first use.
pub fn collect_lambda_captures_expr(expr: &Expr, scopes: &mut Vec<NameSet>, captures: &mut NameMap<Span>)
    ensures
        final(scopes)@ == old(scopes)@,
        final(captures)@ == record_uses(old(captures)@, fv(*expr, scopes_view(old(scopes)@))),
{
    let mut uses: Vec<(String, Span)> = Vec::new();
    fv_expr(expr, scopes, &mut uses);
    assert(calls_view(uses@) =~= Seq::<(Seq<char>, Span)>::empty() + fv(*expr, scopes_view(old(scopes)@)));
    record_all(&uses, captures);
}

/// Records in `captures` the names that `block` uses without binding them.
pub fn collect_lambda_captures_block(block: &Block, scopes: &mut Vec<NameSet>, captures: &mut NameMap<Span>)
    ensures
        final(scopes)@ == old(scopes)@,
        final(captures)@ == record_uses(old(captures)@, fv_block(*block, scopes_view(old(scopes)@))),
{
    let mut uses: Vec<(String, Span)> = Vec::new();
    fv_block_exec(block, scopes, &mut uses);
    assert(calls_view(uses@) =~= Seq::<(Seq<char>, Span)>::empty() + fv_block(*block, scopes_view(old(scopes)@)));
    record_all(&uses, captures);
}

/// The locals of `env` that a lambda with these parameters and body uses,
/// each with the span of its first use.
pub fn collect_lambda_captures(params: &Vec<Param>, body: &Expr, env: &NameSet) -> (r: NameMap<Span>)
    ensures
        r@ == record_uses(Map::empty(), fv(*body, seq![param_set(params@)])).restrict(env@),
{
    let mut scopes: Vec<NameSet> = Vec::new();
    let scope = param_scope(params);
    let ghost empty: Seq<NameSet> = scopes@;
    proof {
        lemma_scopes_view_push(empty, scope);
        assert(scopes_view(empty) =~= Seq::<Set<Seq<char>>>::empty());
    }
    scopes.push(scope);
    assert(scopes_view(scopes@) =~= seq![param_set(params@)]);
    let mut captures: NameMap<Span> = NameMap::new();
    collect_lambda_captures_expr(body, &mut scopes, &mut captures);
    let ghost all = captures@;
    let keys = captures.keys();
    let mut i: usize = 0;
    while i < keys.len()
        invariant
            i <= keys@.len(),
            forall|k: Seq<char>| all.contains_key(k) <==> exists|j: int| 0 <= j < keys@.len() && (#[trigger] keys@[j])@ == k,
            forall|k: Seq<char>| #[trigger] captures@.contains_key(k) <==> (all.contains_key(k)
                && (env@.contains(k) || !(exists|j: int| 0 <= j < i && (#[trigger] keys@[j])@ == k))),
            forall|k: Seq<char>| #[trigger] captures@.contains_key(k) ==> captures@[k] == all[k],
        decreases keys.len() - i,
    {
        let name = &keys[i];
        let ghost prev = captures@;
        if !env.contains(name.as_str()) {
            captures.remove(name.as_str());
            proof {
                assert(captures@ == prev.remove(name@));
            }
        }
        proof {
            assert forall|k: Seq<char>| #[trigger] captures@.contains_key(k) implies captures@[k] == all[k] by {
                assert(prev.contains_key(k));
            }
            assert forall|k: Seq<char>| #[trigger] captures@.contains_key(k) <==> (all.contains_key(k)
                && (env@.contains(k) || !(exists|j: int| 0 <= j < i + 1 && (#[trigger] keys@[j])@ == k))) by {
                if k != keys@[i as int]@ {
                    if exists|j: int| 0 <= j < i + 1 && (#[trigger] keys@[j])@ == k {
                        let j = choose|j: int| 0 <= j < i + 1 && (#[trigger] keys@[j])@ == k;
                        assert(j < i);
                    }
                }
            }
        }
        i = i + 1;
    }
    proof {
        assert forall|k: Seq<char>| #[trigger] captures@.contains_key(k) <==> all.restrict(env@).contains_key(k) by {
            if all.contains_key(k) {
                let j = choose|j: int| 0 <= j < keys@.len() && (#[trigger] keys@[j])@ == k;
            }
        }
        assert(captures@ =~= all.restrict(env@));
    }
    captures
}

/// No use in `s` names something bound in `sc`.
pub open spec fn all_unbound(s: Seq<(Seq<char>, Span)>, sc: Seq<Set<Seq<char>>>) -> bool {
    forall|x: int| 0 <= x < s.len() ==> !bound_in(sc, (#[trigger] s[x]).0)
}

/// Scopes `b` bind at least what scopes `a` bind.
pub open spec fn scopes_extend(a: Seq<Set<Seq<char>>>, b: Seq<Set<Seq<char>>>) -> bool {
    forall|n: Seq<char>| bound_in(a, n) ==> #[trigger] bound_in(b, n)
}

proof fn lemma_all_unbound_add(a: Seq<(Seq<char>, Span)>, b: Seq<(Seq<char>, Span)>, sc: Seq<Set<Seq<char>>>)
    requires
        all_unbound(a, sc),
        all_unbound(b, sc),
    ensures
        all_unbound(a + b, sc),
{
    assert forall|x: int| 0 <= x < (a + b).len() implies !bound_in(sc, (#[trigger] (a + b)[x]).0) by {
        if x < a.len() {
            assert((a + b)[x] == a[x]);
        } else {
            assert((a + b)[x] == b[x - a.len()]);
        }
    }
}

proof fn lemma_all_unbound_weaken(s: Seq<(Seq<char>, Span)>, a: Seq<Set<Seq<char>>>, b: Seq<Set<Seq<char>>>)
    requires
        all_unbound(s, b),
        scopes_extend(a, b),
    ensures
        all_unbound(s, a),
{
    assert forall|x: int| 0 <= x < s.len() implies !bound_in(a, (#[trigger] s[x]).0) by {
        if bound_in(a, s[x].0) {
            assert(bound_in(b, s[x].0));
        }
    }
}

proof fn lemma_push_extends(sc: Seq<Set<Seq<char>>>, top: Set<Seq<char>>)
    ensures
        scopes_extend(sc, sc.push(top)),
{
    assert forall|n: Seq<char>| bound_in(sc, n) implies #[trigger] bound_in(sc.push(top), n) by {
        let i = choose|i: int| 0 <= i < sc.len() && #[trigger] sc[i].contains(n);
        assert(sc.push(top)[i] == sc[i]);
    }
}

proof fn lemma_bind_extends(sc: Seq<Set<Seq<char>>>, name: Seq<char>)
    requires
        sc.len() > 0,
    ensures
        scopes_extend(sc, sc.update(sc.len() - 1, sc[sc.len() - 1].insert(name))),
{
    let next = sc.update(sc.len() - 1, sc[sc.len() - 1].insert(name));
    assert forall|n: Seq<char>| bound_in(sc, n) implies #[trigger] bound_in(next, n) by {
        let i = choose|i: int| 0 <= i < sc.len() && #[trigger] sc[i].contains(n);
        assert(next[i].contains(n));
    }
}

proof fn lemma_extend_trans(a: Seq<Set<Seq<char>>>, b: Seq<Set<Seq<char>>>, c: Seq<Set<Seq<char>>>)
    requires
        scopes_extend(a, b),
        scopes_extend(b, c),
    ensures
        scopes_extend(a, c),
{
}

/// Every use that `fv` reports is unbound in the scopes it starts from.
pub proof fn lemma_fv_unbound(e: Expr, sc: Seq<Set<Seq<char>>>)
    ensures
        all_unbound(fv(e, sc), sc),
    decreases e, 1nat,
{
    match e {
        Expr::Call { callee, args, span } => {
            lemma_fv_list_unbound(args@, sc);
            let head: Seq<(Seq<char>, Span)> = if !has_sep(callee@) && !bound_in(sc, callee@) {
                seq![(callee@, span)]
            } else {
                Seq::empty()
            };
            lemma_all_unbound_add(head, fv_list(args@, sc), sc);
        },
        Expr::ArrayLit { elems, .. } => lemma_fv_list_unbound(elems@, sc),
        Expr::TupleLit { elems, .. } => lemma_fv_list_unbound(elems@, sc),
        Expr::StructLit { fields, .. } => lemma_fv_fields_unbound(fields@, sc),
        Expr::FieldAccess { base, .. } => lemma_fv_unbound(*base, sc),
        Expr::Index { base, index, .. } => {
            lemma_fv_unbound(*base, sc);
            lemma_fv_unbound(*index, sc);
            lemma_all_unbound_add(fv(*base, sc), fv(*index, sc), sc);
        },
        Expr::Block { block } => lemma_fv_block_unbound(*block, sc),
        Expr::Bin { lhs, rhs, .. } => {
            lemma_fv_unbound(*lhs, sc);
            lemma_fv_unbound(*rhs, sc);
            lemma_all_unbound_add(fv(*lhs, sc), fv(*rhs, sc), sc);
        },
        Expr::Return { expr, .. } => lemma_fv_unbound(*expr, sc),
        Expr::Unary { expr, .. } => lemma_fv_unbound(*expr, sc),
        Expr::Try { expr, .. } => lemma_fv_unbound(*expr, sc),
        Expr::If { cond, then_br, else_br, .. } => {
            lemma_fv_unbound(*cond, sc);
            lemma_fv_unbound(*then_br, sc);
            lemma_fv_unbound(*else_br, sc);
            lemma_all_unbound_add(fv(*cond, sc), fv(*then_br, sc), sc);
            lemma_all_unbound_add(fv(*cond, sc) + fv(*then_br, sc), fv(*else_br, sc), sc);
        },
        Expr::Match { scrutinee, arms, .. } => {
            lemma_fv_unbound(*scrutinee, sc);
            lemma_fv_arms_unbound(arms@, sc);
            lemma_all_unbound_add(fv(*scrutinee, sc), fv_arms(arms@, sc), sc);
        },
        Expr::Lambda { params, body, .. } => {
            let inner = sc.push(param_set(params@));
            lemma_fv_unbound(*body, inner);
            lemma_push_extends(sc, param_set(params@));
            lemma_all_unbound_weaken(fv(*body, inner), sc, inner);
        },
        _ => {},
    }
}

proof fn lemma_fv_list_unbound(es: Seq<Expr>, sc: Seq<Set<Seq<char>>>)
    ensures
        all_unbound(fv_list(es, sc), sc),
    decreases es, 0nat,
{
    if es.len() > 0 {
        lemma_fv_unbound(es[0], sc);
        lemma_fv_list_unbound(es.drop_first(), sc);
        lemma_all_unbound_add(fv(es[0], sc), fv_list(es.drop_first(), sc), sc);
    }
}

proof fn lemma_fv_fields_unbound(fs: Seq<FieldInit>, sc: Seq<Set<Seq<char>>>)
    ensures
        all_unbound(fv_fields(fs, sc), sc),
    decreases fs, 0nat,
{
    if fs.len() > 0 {
        lemma_fv_unbound(fs[0].expr, sc);
        lemma_fv_fields_unbound(fs.drop_first(), sc);
        lemma_all_unbound_add(fv(fs[0].expr, sc), fv_fields(fs.drop_first(), sc), sc);
    }
}

proof fn lemma_fv_arms_unbound(arms: Seq<MatchArm>, sc: Seq<Set<Seq<char>>>)
    ensures
        all_unbound(fv_arms(arms, sc), sc),
    decreases arms, 0nat,
{
    if arms.len() > 0 {
        let inner = sc.push(pat_set(arms[0].pat));
        lemma_fv_unbound(arms[0].expr, inner);
        lemma_push_extends(sc, pat_set(arms[0].pat));
        lemma_all_unbound_weaken(fv(arms[0].expr, inner), sc, inner);
        lemma_fv_arms_unbound(arms.drop_first(), sc);
        lemma_all_unbound_add(fv(arms[0].expr, inner), fv_arms(arms.drop_first(), sc), sc);
    }
}

proof fn lemma_fv_stmts_unbound(ss: Seq<Stmt>, sc: Seq<Set<Seq<char>>>)
    requires
        sc.len() > 0,
    ensures
        all_unbound(fv_stmts(ss, sc).0, sc),
        scopes_extend(sc, fv_stmts(ss, sc).1),
    decreases ss, 0nat,
{
    if ss.len() == 0 {
    } else {
        match ss[0] {
            Stmt::Let { name, expr, .. } => {
                let next = sc.update(sc.len() - 1, sc[sc.len() - 1].insert(name@));
                lemma_fv_unbound(*expr, sc);
                lemma_fv_stmts_unbound(ss.drop_first(), next);
                lemma_bind_extends(sc, name@);
                lemma_all_unbound_weaken(fv_stmts(ss.drop_first(), next).0, sc, next);
                lemma_all_unbound_add(fv(*expr, sc), fv_stmts(ss.drop_first(), next).0, sc);
                lemma_extend_trans(sc, next, fv_stmts(ss.drop_first(), next).1);
            },
            Stmt::Expr { expr, .. } => {
                lemma_fv_unbound(*expr, sc);
                lemma_fv_stmts_unbound(ss.drop_first(), sc);
                lemma_all_unbound_add(fv(*expr, sc), fv_stmts(ss.drop_first(), sc).0, sc);
            },
            Stmt::While { cond, loop_invariant, variant, body, .. } => {
                lemma_fv_unbound(*cond, sc);
                lemma_fv_unbound(*loop_invariant, sc);
                let vc: Seq<(Seq<char>, Span)> = match variant {
                    Some(v) => fv(*v, sc),
                    None => Seq::empty(),
                };
                match variant {
                    Some(v) => lemma_fv_unbound(*v, sc),
                    None => {},
                }
                lemma_fv_block_unbound(*body, sc);
                lemma_fv_stmts_unbound(ss.drop_first(), sc);
                lemma_all_unbound_add(fv(*cond, sc), fv(*loop_invariant, sc), sc);
                lemma_all_unbound_add(fv(*cond, sc) + fv(*loop_invariant, sc), vc, sc);
                lemma_all_unbound_add(fv(*cond, sc) + fv(*loop_invariant, sc) + vc, fv_block(*body, sc), sc);
                lemma_all_unbound_add(
                    fv(*cond, sc) + fv(*loop_invariant, sc) + vc + fv_block(*body, sc),
                    fv_stmts(ss.drop_first(), sc).0,
                    sc,
                );
            },
        }
    }
}

proof fn lemma_fv_block_unbound(b: Block, sc: Seq<Set<Seq<char>>>)
    ensures
        all_unbound(fv_block(b, sc), sc),
    decreases b, 0nat,
{
    let sc1 = sc.push(Set::<Seq<char>>::empty());
    lemma_fv_stmts_unbound(b.statements@, sc1);
    lemma_push_extends(sc, Set::<Seq<char>>::empty());
    let (uses, after) = fv_stmts(b.statements@, sc1);
    lemma_all_unbound_weaken(uses, sc, sc1);
    match b.tail {
        Some(t) => {
            lemma_fv_unbound(*t, after);
            lemma_extend_trans(sc, sc1, after);
            lemma_all_unbound_weaken(fv(*t, after), sc, after);
            lemma_all_unbound_add(uses, fv(*t, after), sc);
        },
        None => {
            lemma_all_unbound_add(uses, Seq::empty(), sc);
        },
    }
}

/// The names `record_uses` adds are those of the uses.
proof fn lemma_record_uses_keys(m: Map<Seq<char>, Span>, s: Seq<(Seq<char>, Span)>, k: Seq<char>)
    requires
        record_uses(m, s).contains_key(k),
        !m.contains_key(k),
    ensures
        exists|x: int| 0 <= x < s.len() && (#[trigger] s[x]).0 == k,
    decreases s.len(),
{
    if s.len() > 0 {
        let prev = record_uses(m, s.drop_last());
        if prev.contains_key(k) {
            lemma_record_uses_keys(m, s.drop_last(), k);
            let x = choose|x: int| 0 <= x < s.drop_last().len() && (#[trigger] s.drop_last()[x]).0 == k;
            assert(s[x] == s.drop_last()[x]);
        } else {
            assert(s[s.len() - 1].0 == k);
        }
    }
}

/// A lambda never captures its own parameters.
pub proof fn lemma_parameters_not_captured(params: Seq<Param>, body: Expr, env: Set<Seq<char>>, k: Seq<char>)
    requires
        record_uses(Map::empty(), fv(body, seq![param_set(params)])).restrict(env).contains_key(k),
    ensures
        !param_set(params).contains(k),
{
    let sc = seq![param_set(params)];
    let uses = fv(body, sc);
    lemma_fv_unbound(body, sc);
    lemma_record_uses_keys(Map::empty(), uses, k);
    let x = choose|x: int| 0 <= x < uses.len() && (#[trigger] uses[x]).0 == k;
    assert(!bound_in(sc, uses[x].0));
    if param_set(params).contains(k) {
        assert(sc[0].contains(k));
    }
}

} // verus!
