use vstd::prelude::*;
use crate::ast::{Block, Expr, FieldInit, MatchArm, MatchPat, Stmt};
use crate::names::{name_is_bound, NameMap, NameSet};
use crate::text::{contains_sep, has_sep};
use crate::ty::{Param, Span};

verus! {

/// The names bound by nested scopes, innermost last.
pub open spec fn scopes_view(v: Seq<NameSet>) -> Seq<Set<Seq<char>>> {
    v.map_values(|s: NameSet| s@)
}

/// A collected call: the closure's name and the call's span.
pub open spec fn calls_view(v: Seq<(String, Span)>) -> Seq<(Seq<char>, Span)> {
    v.map_values(|c: (String, Span)| (c.0@, c.1))
}

/// `n` is bound in one of the scopes.
pub open spec fn bound_in(sc: Seq<Set<Seq<char>>>, n: Seq<char>) -> bool {
    exists|i: int| 0 <= i < sc.len() && #[trigger] sc[i].contains(n)
}

/// The names a lambda binds.
pub open spec fn param_set(params: Seq<Param>) -> Set<Seq<char>> {
    Set::new(|k: Seq<char>| exists|i: int| 0 <= i < params.len() && (#[trigger] params[i]).name@ == k)
}

/// The names a `match` pattern binds.
pub open spec fn pat_set(p: MatchPat) -> Set<Seq<char>> {
    match p {
        MatchPat::SomeBind(n) => set![n@],
        MatchPat::OkBind(n) => set![n@],
        MatchPat::ErrBind(n) => set![n@],
        MatchPat::EnumVariant { binders, .. } => Set::new(
            |k: Seq<char>| exists|i: int| 0 <= i < binders@.len() && (#[trigger] binders@[i])@ == k,
        ),
        MatchPat::NoneCase | MatchPat::Wildcard => Set::empty(),
    }
}

/// The calls in `e`, in evaluation order, of closures named in `cn` that no
/// enclosing scope of `sc` (or of `e` itself) shadows; qualified callees
/// (with `::`) are never closures.
pub open spec fn cc(e: Expr, cn: Set<Seq<char>>, sc: Seq<Set<Seq<char>>>) -> Seq<(Seq<char>, Span)>
    decreases e, 1nat,
{
    match e {
        Expr::Int(..) | Expr::Bool(..) | Expr::String(..) | Expr::Var(..) => Seq::empty(),
        Expr::Call { callee, args, span } => (if !has_sep(callee@) && cn.contains(callee@) && !bound_in(sc, callee@) {
            seq![(callee@, span)]
        } else {
            Seq::empty()
        }) + cc_list(args@, cn, sc),
        Expr::ArrayLit { elems, .. } => cc_list(elems@, cn, sc),
        Expr::TupleLit { elems, .. } => cc_list(elems@, cn, sc),
        Expr::StructLit { fields, .. } => cc_fields(fields@, cn, sc),
        Expr::FieldAccess { base, .. } => cc(*base, cn, sc),
        Expr::Index { base, index, .. } => cc(*base, cn, sc) + cc(*index, cn, sc),
        Expr::Block { block } => cc_block(*block, cn, sc),
        Expr::Bin { lhs, rhs, .. } => cc(*lhs, cn, sc) + cc(*rhs, cn, sc),
        Expr::Return { expr, .. } => cc(*expr, cn, sc),
        Expr::Unary { expr, .. } => cc(*expr, cn, sc),
        Expr::Try { expr, .. } => cc(*expr, cn, sc),
        Expr::If { cond, then_br, else_br, .. } => cc(*cond, cn, sc) + cc(*then_br, cn, sc) + cc(*else_br, cn, sc),
        Expr::Match { scrutinee, arms, .. } => cc(*scrutinee, cn, sc) + cc_arms(arms@, cn, sc),
        Expr::Lambda { params, body, .. } => cc(*body, cn, sc.push(param_set(params@))),
    }
}

pub open spec fn cc_list(es: Seq<Expr>, cn: Set<Seq<char>>, sc: Seq<Set<Seq<char>>>) -> Seq<(Seq<char>, Span)>
    decreases es, 0nat,
{
    if es.len() == 0 {
        Seq::empty()
    } else {
        cc(es[0], cn, sc) + cc_list(es.drop_first(), cn, sc)
    }
}

pub open spec fn cc_fields(fs: Seq<FieldInit>, cn: Set<Seq<char>>, sc: Seq<Set<Seq<char>>>) -> Seq<(Seq<char>, Span)>
    decreases fs, 0nat,
{
    if fs.len() == 0 {
        Seq::empty()
    } else {
        cc(fs[0].expr, cn, sc) + cc_fields(fs.drop_first(), cn, sc)
    }
}

pub open spec fn cc_arms(arms: Seq<MatchArm>, cn: Set<Seq<char>>, sc: Seq<Set<Seq<char>>>) -> Seq<(Seq<char>, Span)>
    decreases arms, 0nat,
{
    if arms.len() == 0 {
        Seq::empty()
    } else {
        cc(arms[0].expr, cn, sc.push(pat_set(arms[0].pat))) + cc_arms(arms.drop_first(), cn, sc)
    }
}

/// The calls in the statements `ss`, whose `let` bindings go into the last
/// scope of `sc`; with the scopes they leave.
pub open spec fn cc_stmts(ss: Seq<Stmt>, cn: Set<Seq<char>>, sc: Seq<Set<Seq<char>>>) -> (Seq<(Seq<char>, Span)>, Seq<Set<Seq<char>>>)
    decreases ss, 0nat,
{
    if ss.len() == 0 {
        (Seq::empty(), sc)
    } else {
        let (here, next) = match ss[0] {
            Stmt::Let { name, expr, .. } => (
                cc(*expr, cn, sc),
                sc.update(sc.len() - 1, sc[sc.len() - 1].insert(name@)),
            ),
            Stmt::Expr { expr, .. } => (cc(*expr, cn, sc), sc),
            Stmt::While { cond, loop_invariant, variant, body, .. } => (
                cc(*cond, cn, sc) + cc(*loop_invariant, cn, sc) + (match variant {
                    Some(v) => cc(*v, cn, sc),
                    None => Seq::empty(),
                }) + cc_block(*body, cn, sc),
                sc,
            ),
        };
        let (rest, last) = cc_stmts(ss.drop_first(), cn, next);
        (here + rest, last)
    }
}

pub open spec fn cc_block(b: Block, cn: Set<Seq<char>>, sc: Seq<Set<Seq<char>>>) -> Seq<(Seq<char>, Span)>
    decreases b, 0nat,
{
    let (calls, after) = cc_stmts(b.statements@, cn, sc.push(Set::empty()));
    calls + match b.tail {
        Some(t) => cc(*t, cn, after),
        None => Seq::empty(),
    }
}

proof fn lemma_calls_view_push(v: Seq<(String, Span)>, c: (String, Span))
    ensures
        calls_view(v.push(c)) == calls_view(v).push((c.0@, c.1)),
{
    assert(calls_view(v.push(c)) =~= calls_view(v).push((c.0@, c.1)));
}

pub(crate) proof fn lemma_scopes_view_push(v: Seq<NameSet>, s: NameSet)
    ensures
        scopes_view(v.push(s)) == scopes_view(v).push(s@),
{
    assert(scopes_view(v.push(s)) =~= scopes_view(v).push(s@));
}

fn cc_list_exec(es: &Vec<Expr>, names: &NameSet, scopes: &mut Vec<NameSet>, out: &mut Vec<(String, Span)>)
    ensures
        final(scopes)@ == old(scopes)@,
        calls_view(final(out)@) == calls_view(old(out)@) + cc_list(es@, names@, scopes_view(old(scopes)@)),
    decreases es, 0nat,
{
    let ghost sc = scopes_view(scopes@);
    let ghost start = calls_view(out@);
    let mut i: usize = 0;
    assert(es@.subrange(0, es@.len() as int) =~= es@);
    assert(start + Seq::<(Seq<char>, Span)>::empty() =~= start);
    while i < es.len()
        invariant
            i <= es@.len(),
            scopes@ == old(scopes)@,
            sc == scopes_view(scopes@),
            start + cc_list(es@, names@, sc) == calls_view(out@) + cc_list(es@.subrange(i as int, es@.len() as int), names@, sc),
        decreases es.len() - i,
    {
        assert(decreases_to!(es => es@[i as int]));
        let ghost rest = es@.subrange(i as int, es@.len() as int);
        assert(rest.drop_first() =~= es@.subrange(i as int + 1, es@.len() as int));
        assert(rest[0] == es@[i as int]);
        let ghost before = calls_view(out@);
        cc_expr(&es[i], names, scopes, out);
        assert(before + cc_list(rest, names@, sc) =~= calls_view(out@) + cc_list(rest.drop_first(), names@, sc));
        i = i + 1;
    }
    assert(es@.subrange(es@.len() as int, es@.len() as int) =~= Seq::<Expr>::empty());
    assert(calls_view(out@) + Seq::<(Seq<char>, Span)>::empty() =~= calls_view(out@));
}

fn cc_fields_exec(fs: &Vec<FieldInit>, names: &NameSet, scopes: &mut Vec<NameSet>, out: &mut Vec<(String, Span)>)
    ensures
        final(scopes)@ == old(scopes)@,
        calls_view(final(out)@) == calls_view(old(out)@) + cc_fields(fs@, names@, scopes_view(old(scopes)@)),
    decreases fs, 0nat,
{
    let ghost sc = scopes_view(scopes@);
    let ghost start = calls_view(out@);
    let mut i: usize = 0;
    assert(fs@.subrange(0, fs@.len() as int) =~= fs@);
    while i < fs.len()
        invariant
            i <= fs@.len(),
            scopes@ == old(scopes)@,
            sc == scopes_view(scopes@),
            start + cc_fields(fs@, names@, sc) == calls_view(out@) + cc_fields(fs@.subrange(i as int, fs@.len() as int), names@, sc),
        decreases fs.len() - i,
    {
        assert(decreases_to!(fs => fs@[i as int]));
        let ghost rest = fs@.subrange(i as int, fs@.len() as int);
        assert(rest.drop_first() =~= fs@.subrange(i as int + 1, fs@.len() as int));
        assert(rest[0] == fs@[i as int]);
        let ghost before = calls_view(out@);
        cc_expr(&fs[i].expr, names, scopes, out);
        assert(before + cc_fields(rest, names@, sc) =~= calls_view(out@) + cc_fields(rest.drop_first(), names@, sc));
        i = i + 1;
    }
    assert(fs@.subrange(fs@.len() as int, fs@.len() as int) =~= Seq::<FieldInit>::empty());
    assert(calls_view(out@) + Seq::<(Seq<char>, Span)>::empty() =~= calls_view(out@));
}

pub(crate) fn param_scope(params: &Vec<Param>) -> (s: NameSet)
    ensures
        s@ == param_set(params@),
{
    let mut s = NameSet::new();
    let mut i: usize = 0;
    while i < params.len()
        invariant
            i <= params@.len(),
            forall|k: Seq<char>| #[trigger] s@.contains(k) <==> exists|j: int| 0 <= j < i && (#[trigger] params@[j]).name@ == k,
        decreases params.len() - i,
    {
        s.insert(params[i].name.clone());
        i = i + 1;
    }
    assert(s@ =~= param_set(params@));
    s
}

pub(crate) fn pattern_scope(pat: &MatchPat) -> (s: NameSet)
    ensures
        s@ == pat_set(*pat),
{
    let mut s = NameSet::new();
    match pat {
        MatchPat::SomeBind(n) | MatchPat::OkBind(n) | MatchPat::ErrBind(n) => {
            s.insert(n.clone());
            assert(s@ =~= pat_set(*pat));
        },
        MatchPat::EnumVariant { binders, .. } => {
            let mut i: usize = 0;
            while i < binders.len()
                invariant
                    i <= binders@.len(),
                    forall|k: Seq<char>| #[trigger] s@.contains(k) <==> exists|j: int| 0 <= j < i && (#[trigger] binders@[j])@ == k,
                decreases binders.len() - i,
            {
                s.insert(binders[i].clone());
                i = i + 1;
            }
            assert(s@ =~= pat_set(*pat));
        },
        MatchPat::NoneCase | MatchPat::Wildcard => {
            assert(s@ =~= pat_set(*pat));
        },
    }
    s
}

fn cc_arms_exec(arms: &Vec<MatchArm>, names: &NameSet, scopes: &mut Vec<NameSet>, out: &mut Vec<(String, Span)>)
    ensures
        final(scopes)@ == old(scopes)@,
        calls_view(final(out)@) == calls_view(old(out)@) + cc_arms(arms@, names@, scopes_view(old(scopes)@)),
    decreases arms, 0nat,
{
    let ghost sc = scopes_view(scopes@);
    let ghost start = calls_view(out@);
    let mut i: usize = 0;
    assert(arms@.subrange(0, arms@.len() as int) =~= arms@);
    while i < arms.len()
        invariant
            i <= arms@.len(),
            scopes@ == old(scopes)@,
            sc == scopes_view(scopes@),
            start + cc_arms(arms@, names@, sc) == calls_view(out@) + cc_arms(arms@.subrange(i as int, arms@.len() as int), names@, sc),
        decreases arms.len() - i,
    {
        assert(decreases_to!(arms => arms@[i as int]));
        let ghost rest = arms@.subrange(i as int, arms@.len() as int);
        assert(rest.drop_first() =~= arms@.subrange(i as int + 1, arms@.len() as int));
        assert(rest[0] == arms@[i as int]);
        let ghost before = calls_view(out@);
        let ghost outer = scopes@;
        let scope = pattern_scope(&arms[i].pat);
        proof {
            lemma_scopes_view_push(outer, scope);
        }
        scopes.push(scope);
        cc_expr(&arms[i].expr, names, scopes, out);
        let _ = scopes.pop();
        assert(scopes@ =~= outer);
        assert(before + cc_arms(rest, names@, sc) =~= calls_view(out@) + cc_arms(rest.drop_first(), names@, sc));
        i = i + 1;
    }
    assert(arms@.subrange(arms@.len() as int, arms@.len() as int) =~= Seq::<MatchArm>::empty());
    assert(calls_view(out@) + Seq::<(Seq<char>, Span)>::empty() =~= calls_view(out@));
}

/// Collects the calls of `expr` to the closures named in `names` that no
/// scope shadows.
pub fn collect_closure_calls_expr(expr: &Expr, names: &NameSet, scopes: &mut Vec<NameSet>, out: &mut Vec<(String, Span)>)
    ensures
        final(scopes)@ == old(scopes)@,
        calls_view(final(out)@) == calls_view(old(out)@) + cc(*expr, names@, scopes_view(old(scopes)@)),
{
    cc_expr(expr, names, scopes, out)
}

fn cc_expr(expr: &Expr, names: &NameSet, scopes: &mut Vec<NameSet>, out: &mut Vec<(String, Span)>)
    ensures
        final(scopes)@ == old(scopes)@,
        calls_view(final(out)@) == calls_view(old(out)@) + cc(*expr, names@, scopes_view(old(scopes)@)),
    decreases expr, 1nat,
{
    let ghost sc = scopes_view(scopes@);
    let ghost start = calls_view(out@);
    match expr {
        Expr::Int(..) | Expr::Bool(..) | Expr::String(..) | Expr::Var(..) => {
            assert(start + Seq::<(Seq<char>, Span)>::empty() =~= start);
        },
        Expr::Call { callee, args, span } => {
            let n = callee.as_str();
            let bound = name_is_bound(n, scopes);
            proof {
                assert(bound == bound_in(sc, callee@)) by {
                    if bound {
                        let i = choose|i: int| 0 <= i < scopes@.len() && (#[trigger] scopes@[i])@.contains(n@);
                        assert(sc[i] == scopes@[i]@);
                    }
                    if bound_in(sc, callee@) {
                        let i = choose|i: int| 0 <= i < sc.len() && #[trigger] sc[i].contains(callee@);
                        assert(sc[i] == scopes@[i]@);
                    }
                }
            }
            if !contains_sep(n) && names.contains(n) && !bound {
                let ghost before = out@;
                let entry = (callee.clone(), *span);
                let ghost e = entry;
                out.push(entry);
                proof {
                    lemma_calls_view_push(before, e);
                }
            } else {
                assert(calls_view(out@) + Seq::<(Seq<char>, Span)>::empty() =~= calls_view(out@));
            }
            let ghost mid = calls_view(out@);
            cc_list_exec(args, names, scopes, out);
            assert(start + cc(*expr, names@, sc) =~= calls_view(out@));
        },
        Expr::ArrayLit { elems, .. } | Expr::TupleLit { elems, .. } => cc_list_exec(elems, names, scopes, out),
        Expr::StructLit { fields, .. } => cc_fields_exec(fields, names, scopes, out),
        Expr::FieldAccess { base, .. } => cc_expr(base, names, scopes, out),
        Expr::Index { base, index, .. } => {
            cc_expr(base, names, scopes, out);
            cc_expr(index, names, scopes, out);
            assert(start + cc(*expr, names@, sc) =~= calls_view(out@));
        },
        Expr::Block { block } => cc_block_exec(block, names, scopes, out),
        Expr::Bin { lhs, rhs, .. } => {
            cc_expr(lhs, names, scopes, out);
            cc_expr(rhs, names, scopes, out);
            assert(start + cc(*expr, names@, sc) =~= calls_view(out@));
        },
        Expr::Return { expr: inner, .. } | Expr::Unary { expr: inner, .. } | Expr::Try { expr: inner, .. } => {
            cc_expr(inner, names, scopes, out)
        },
        Expr::If { cond, then_br, else_br, .. } => {
            cc_expr(cond, names, scopes, out);
            cc_expr(then_br, names, scopes, out);
            cc_expr(else_br, names, scopes, out);
            assert(start + cc(*expr, names@, sc) =~= calls_view(out@));
        },
        Expr::Match { scrutinee, arms, .. } => {
            cc_expr(scrutinee, names, scopes, out);
            cc_arms_exec(arms, names, scopes, out);
            assert(start + cc(*expr, names@, sc) =~= calls_view(out@));
        },
        Expr::Lambda { params, body, .. } => {
            let ghost outer = scopes@;
            let scope = param_scope(params);
            proof {
                lemma_scopes_view_push(outer, scope);
            }
            scopes.push(scope);
            cc_expr(body, names, scopes, out);
            let _ = scopes.pop();
            assert(scopes@ =~= outer);
        },
    }
}

/// Collects the calls of a block; its `let` bindings shadow later calls.
pub fn collect_closure_calls_block(block: &Block, names: &NameSet, scopes: &mut Vec<NameSet>, out: &mut Vec<(String, Span)>)
    ensures
        final(scopes)@ == old(scopes)@,
        calls_view(final(out)@) == calls_view(old(out)@) + cc_block(*block, names@, scopes_view(old(scopes)@)),
{
    cc_block_exec(block, names, scopes, out)
}

fn cc_block_exec(block: &Block, names: &NameSet, scopes: &mut Vec<NameSet>, out: &mut Vec<(String, Span)>)
    ensures
        final(scopes)@ == old(scopes)@,
        calls_view(final(out)@) == calls_view(old(out)@) + cc_block(*block, names@, scopes_view(old(scopes)@)),
    decreases block, 0nat,
{
    let ghost outer = scopes@;
    let ghost sc0 = scopes_view(outer);
    let ghost start = calls_view(out@);
    let ghost ss = block.statements@;
    let fresh = NameSet::new();
    proof {
        lemma_scopes_view_push(outer, fresh);
    }
    scopes.push(fresh);
    let ghost sc1 = scopes_view(scopes@);
    assert(sc1 == sc0.push(Set::<Seq<char>>::empty()));
    let mut i: usize = 0;
    assert(ss.subrange(0, ss.len() as int) =~= ss);
    while i < block.statements.len()
        invariant
            i <= ss.len(),
            ss == block.statements@,
            scopes@.len() == outer.len() + 1,
            scopes@.subrange(0, outer.len() as int) == outer,
            start + cc_stmts(ss, names@, sc1).0 == calls_view(out@) + cc_stmts(ss.subrange(i as int, ss.len() as int), names@, scopes_view(scopes@)).0,
            cc_stmts(ss, names@, sc1).1 == cc_stmts(ss.subrange(i as int, ss.len() as int), names@, scopes_view(scopes@)).1,
        decreases ss.len() - i,
    {
        assert(decreases_to!(block => block.statements));
        assert(decreases_to!(block.statements => block.statements@[i as int]));
        let ghost rest = ss.subrange(i as int, ss.len() as int);
        assert(rest.drop_first() =~= ss.subrange(i as int + 1, ss.len() as int));
        assert(rest[0] == ss[i as int]);
        let ghost sc = scopes_view(scopes@);
        let ghost before = calls_view(out@);
        match &block.statements[i] {
            Stmt::Let { name, expr, .. } => {
                cc_expr(expr, names, scopes, out);
                let ghost with = scopes@;
                let mut top = scopes.pop().unwrap();
                top.insert(name.clone());
                scopes.push(top);
                proof {
                    assert(scopes_view(scopes@) =~= sc.update(sc.len() - 1, sc[sc.len() - 1].insert(name@)));
                    assert(scopes@.subrange(0, outer.len() as int) =~= with.subrange(0, outer.len() as int));
                }
            },
            Stmt::Expr { expr, .. } => {
                cc_expr(expr, names, scopes, out);
            },
            Stmt::While { cond, loop_invariant, variant, body, .. } => {
                cc_expr(cond, names, scopes, out);
                cc_expr(loop_invariant, names, scopes, out);
                match variant {
                    Some(v) => cc_expr(v, names, scopes, out),
                    None => {},
                }
                cc_block_exec(body, names, scopes, out);
            },
        }
        assert(before + cc_stmts(rest, names@, sc).0 =~= calls_view(out@) + cc_stmts(rest.drop_first(), names@, scopes_view(scopes@)).0);
        i = i + 1;
    }
    assert(ss.subrange(ss.len() as int, ss.len() as int) =~= Seq::<Stmt>::empty());
    let ghost after = scopes_view(scopes@);
    assert(calls_view(out@) + Seq::<(Seq<char>, Span)>::empty() =~= calls_view(out@));
    match &block.tail {
        Some(t) => {
            assert(decreases_to!(block => block.tail));
            cc_expr(t, names, scopes, out);
        },
        None => {},
    }
    let _ = scopes.pop();
    assert(scopes@ =~= outer);
    assert(start + cc_block(*block, names@, sc0) =~= calls_view(out@));
}

// ---------------------------------------------------------------------------
// Reachability in the closure call graph

/// `edges[u]` holds an edge to `v`.
pub open spec fn has_edge(edges: Seq<Seq<(usize, Span)>>, u: int, v: int) -> bool {
    0 <= u < edges.len() && exists|k: int| 0 <= k < edges[u].len() && #[trigger] edges[u][k].0 == v
}

/// `p` is a path: consecutive nodes are joined by edges.
pub open spec fn is_path(edges: Seq<Seq<(usize, Span)>>, p: Seq<int>) -> bool {
    p.len() >= 1 && forall|i: int| 0 <= i < p.len() - 1 ==> #[trigger] has_edge(edges, p[i], p[i + 1])
}

/// `t` can be reached from `s`, every node before `t` lying outside `blocked`.
pub open spec fn reaches_avoiding(edges: Seq<Seq<(usize, Span)>>, s: int, t: int, blocked: Seq<bool>) -> bool {
    exists|p: Seq<int>| #[trigger] is_path(edges, p) && p[0] == s && p.last() == t
        && forall|i: int| 0 <= i < p.len() - 1 ==> !blocked[p[i]]
}

/// `t` can be reached from `s`.
pub open spec fn reaches(edges: Seq<Seq<(usize, Span)>>, s: int, t: int) -> bool {
    exists|p: Seq<int>| #[trigger] is_path(edges, p) && p[0] == s && p.last() == t
}

/// Every edge of the graph leads to a node of it.
pub open spec fn graph_ok(edges: Seq<Seq<(usize, Span)>>) -> bool {
    forall|u: int, k: int| 0 <= u < edges.len() && 0 <= k < edges[u].len() ==> (#[trigger] edges[u][k]).0 < edges.len()
}

pub open spec fn edges_view(e: Seq<Vec<(usize, Span)>>) -> Seq<Seq<(usize, Span)>> {
    e.map_values(|v: Vec<(usize, Span)>| v@)
}

pub open spec fn count_unvisited(v: Seq<bool>) -> nat
    decreases v.len(),
{
    if v.len() == 0 { 0 } else { count_unvisited(v.drop_last()) + if v.last() { 0nat } else { 1nat } }
}

proof fn lemma_count_mono(a: Seq<bool>, b: Seq<bool>)
    requires
        a.len() == b.len(),
        forall|i: int| 0 <= i < a.len() && a[i] ==> b[i],
    ensures
        count_unvisited(b) <= count_unvisited(a),
    decreases a.len(),
{
    if a.len() > 0 {
        lemma_count_mono(a.drop_last(), b.drop_last());
    }
}

proof fn lemma_count_mark(a: Seq<bool>, i: int)
    requires
        0 <= i < a.len(),
        !a[i],
    ensures
        count_unvisited(a.update(i, true)) + 1 == count_unvisited(a),
    decreases a.len(),
{
    if i < a.len() - 1 {
        assert(a.update(i, true).drop_last() =~= a.drop_last().update(i, true));
        lemma_count_mark(a.drop_last(), i);
    } else {
        assert(a.update(i, true).drop_last() =~= a.drop_last());
    }
}

/// A failed search leaves a closed set: the nodes it marked only lead to
/// marked nodes other than the target, so no path avoiding the nodes marked
/// before reaches the target.
proof fn lemma_closed_blocks(edges: Seq<Seq<(usize, Span)>>, t: int, v0: Seq<bool>, v1: Seq<bool>, p: Seq<int>, i: int)
    requires
        v0.len() == v1.len() == edges.len(),
        graph_ok(edges),
        forall|u: int| 0 <= u < edges.len() && v1[u] && !v0[u] ==> forall|k: int| 0 <= k < edges[u].len()
            ==> v1[(#[trigger] edges[u][k]).0 as int] && edges[u][k].0 != t,
        is_path(edges, p),
        0 <= i < p.len(),
        i < p.len() - 1 ==> 0 <= p[i] < edges.len() && v1[p[i]] && !v0[p[i]],
        i == p.len() - 1 ==> p[i] != t,
        forall|j: int| 0 <= j < p.len() - 1 ==> !v0[p[j]],
    ensures
        p.last() != t,
    decreases p.len() - i,
{
    if i < p.len() - 1 {
        assert(has_edge(edges, p[i], p[i + 1]));
        let k = choose|k: int| 0 <= k < edges[p[i]].len() && #[trigger] edges[p[i]][k].0 == p[i + 1];
        assert(v1[edges[p[i]][k].0 as int] && edges[p[i]][k].0 != t);
        if i + 1 < p.len() - 1 {
            assert(!v0[p[i + 1]]);
        }
        lemma_closed_blocks(edges, t, v0, v1, p, i + 1);
    }
}

/// Whether `target` can be reached from `start`, not passing through nodes
/// already marked in `visited`; marks the nodes it explores.
pub fn has_path(start: usize, target: usize, edges: &Vec<Vec<(usize, Span)>>, visited: &mut Vec<bool>) -> (r: bool)
    requires
        start < edges@.len(),
        target < edges@.len(),
        old(visited)@.len() == edges@.len(),
        graph_ok(edges_view(edges@)),
    ensures
        final(visited)@.len() == edges@.len(),
        forall|i: int| 0 <= i < edges@.len() && old(visited)@[i] ==> final(visited)@[i],
        r ==> reaches(edges_view(edges@), start as int, target as int),
        !r ==> !reaches_avoiding(edges_view(edges@), start as int, target as int, old(visited)@),
        !r ==> start != target && final(visited)@[start as int] && !(final(visited)@[target as int] && !old(visited)@[target as int])
            && forall|u: int| 0 <= u < edges@.len() && final(visited)@[u] && !old(visited)@[u] ==> forall|k: int|
                0 <= k < edges@[u]@.len() ==> final(visited)@[(#[trigger] edges@[u]@[k]).0 as int] && edges@[u]@[k].0 != target,
    decreases count_unvisited(old(visited)@),
{
    let ghost g = edges_view(edges@);
    let ghost v0 = visited@;
    if start == target {
        proof {
            let p = seq![start as int];
            assert(is_path(g, p));
        }
        return true;
    }
    if visited[start] {
        proof {
            assert forall|p: Seq<int>| #[trigger] is_path(g, p) && p[0] == start && p.last() == target implies
                !(forall|i: int| 0 <= i < p.len() - 1 ==> !v0[p[i]]) by {
                assert(p.len() > 1);
            }
        }
        return false;
    }
    visited.set(start, true);
    proof {
        lemma_count_mark(v0, start as int);
    }
    let ghost v_start = visited@;
    let n_edges = edges[start].len();
    let mut k: usize = 0;
    while k < n_edges
        invariant
            n_edges == edges@[start as int]@.len(),
            start < edges@.len(),
            target < edges@.len(),
            start != target,
            g == edges_view(edges@),
            graph_ok(g),
            v0 == old(visited)@,
            visited@.len() == edges@.len(),
            v0.len() == edges@.len(),
            v_start == v0.update(start as int, true),
            count_unvisited(v_start) < count_unvisited(v0),
            forall|i: int| 0 <= i < edges@.len() && v_start[i] ==> visited@[i],
            visited@[start as int],
            !(visited@[target as int] && !v0[target as int]),
            forall|u: int| 0 <= u < edges@.len() && visited@[u] && !v0[u] && u != start ==> forall|kk: int|
                0 <= kk < edges@[u]@.len() ==> visited@[(#[trigger] edges@[u]@[kk]).0 as int] && edges@[u]@[kk].0 != target,
            forall|j: int| 0 <= j < k ==> visited@[(#[trigger] edges@[start as int]@[j]).0 as int]
                && edges@[start as int]@[j].0 != target,
        decreases n_edges - k,
    {
        let next = edges[start][k].0;
        proof {
            assert(g[start as int] == edges@[start as int]@);
            assert(g[start as int][k as int] == edges@[start as int]@[k as int]);
            lemma_count_mono(v_start, visited@);
        }
        let ghost vb = visited@;
        let found = has_path(next, target, edges, visited);
        if found {
            proof {
                let q = choose|q: Seq<int>| #[trigger] is_path(g, q) && q[0] == next && q.last() == target;
                let p = seq![start as int] + q;
                assert(has_edge(g, start as int, next as int)) by {
                    assert(g[start as int][k as int].0 == next);
                }
                assert forall|i: int| 0 <= i < p.len() - 1 implies #[trigger] has_edge(g, p[i], p[i + 1]) by {
                    if i > 0 {
                        assert(p[i] == q[i - 1] && p[i + 1] == q[i]);
                        assert(has_edge(g, q[i - 1], q[(i - 1) + 1]));
                    }
                }
                assert(is_path(g, p));
                assert(p.last() == q.last());
                assert forall|i: int| 0 <= i < edges@.len() && v0[i] implies visited@[i] by {
                    assert(v_start[i]);
                    assert(vb[i]);
                }
            }
            return true;
        }
        proof {
            assert forall|u: int| 0 <= u < edges@.len() && visited@[u] && !v0[u] && u != start implies forall|kk: int|
                0 <= kk < edges@[u]@.len() ==> visited@[(#[trigger] edges@[u]@[kk]).0 as int] && edges@[u]@[kk].0 != target by {
                if vb[u] {
                    assert forall|kk: int| 0 <= kk < edges@[u]@.len() implies visited@[(#[trigger] edges@[u]@[kk]).0 as int] by {
                        assert(g[u][kk] == edges@[u]@[kk]);
                        assert(vb[edges@[u]@[kk].0 as int]);
                    }
                }
            }
        }
        k = k + 1;
    }
    proof {
        assert forall|p: Seq<int>| #[trigger] is_path(g, p) && p[0] == start && p.last() == target implies
            !(forall|i: int| 0 <= i < p.len() - 1 ==> !v0[p[i]]) by {
            if forall|i: int| 0 <= i < p.len() - 1 ==> !v0[p[i]] {
                assert forall|u: int| 0 <= u < g.len() && visited@[u] && !v0[u] implies forall|kk: int| 0 <= kk < g[u].len()
                    ==> visited@[(#[trigger] g[u][kk]).0 as int] && g[u][kk].0 != target by {
                    assert forall|kk: int| 0 <= kk < g[u].len() implies visited@[(#[trigger] g[u][kk]).0 as int] && g[u][kk].0 != target by {
                        assert(g[u][kk] == edges@[u]@[kk]);
                    }
                }
                lemma_closed_blocks(g, target as int, v0, visited@, p, 0);
            }
        }
        assert forall|i: int| 0 <= i < edges@.len() && v0[i] implies visited@[i] by {
            assert(v_start[i]);
        }
    }
    false
}

// ---------------------------------------------------------------------------
// Recursive closure values

/// The closures a block binds with `let`, in order: name, binding span and
/// the lambda.
pub open spec fn closure_lets(ss: Seq<Stmt>) -> Seq<(Seq<char>, Span, Expr)>
    decreases ss.len(),
{
    if ss.len() == 0 {
        Seq::empty()
    } else {
        let prev = closure_lets(ss.drop_last());
        match ss.last() {
            Stmt::Let { name, expr, span } => if *expr is Lambda { prev.push((name@, span, *expr)) } else { prev },
            _ => prev,
        }
    }
}

/// The names of the bound closures.
pub open spec fn closure_names(bs: Seq<(Seq<char>, Span, Expr)>) -> Set<Seq<char>> {
    Set::new(|k: Seq<char>| exists|j: int| 0 <= j < bs.len() && (#[trigger] bs[j]).0 == k)
}

/// The last binding of `k`, or -1.
pub open spec fn last_index(bs: Seq<(Seq<char>, Span, Expr)>, k: Seq<char>) -> int
    decreases bs.len(),
{
    if bs.len() == 0 {
        -1
    } else if bs.last().0 == k {
        bs.len() - 1
    } else {
        last_index(bs.drop_last(), k)
    }
}

/// The calls a lambda's body makes to the bound closures.
pub open spec fn lambda_calls(e: Expr, cn: Set<Seq<char>>) -> Seq<(Seq<char>, Span)> {
    match e {
        Expr::Lambda { params, body, .. } => cc(*body, cn, seq![param_set(params@)]),
        _ => Seq::empty(),
    }
}

/// The call graph of the bound closures: an edge from each closure to the
/// (last) binding of every closure its body calls, with the call's span.
pub open spec fn closure_edges(bs: Seq<(Seq<char>, Span, Expr)>) -> Seq<Seq<(usize, Span)>> {
    Seq::new(bs.len(), |u: int| lambda_calls(bs[u].2, closure_names(bs)).map_values(
        |c: (Seq<char>, Span)| (last_index(bs, c.0) as usize, c.1),
    ))
}

/// A closure value that calls itself, directly or through others.
#[derive(Debug)]
pub enum RecursiveClosure {
    SelfReferential { name: String, span: Span },
    Mutual { from: String, to: String, span: Span },
}

/// Edge `k` of closure `u` leads back to `u`.
pub open spec fn self_loop(g: Seq<Seq<(usize, Span)>>, u: int, k: int) -> bool {
    0 <= u < g.len() && 0 <= k < g[u].len() && g[u][k].0 == u
}

/// Edge `k` of closure `u` leads to a closure from which `u` can be reached.
pub open spec fn on_cycle(g: Seq<Seq<(usize, Span)>>, u: int, k: int) -> bool {
    0 <= u < g.len() && 0 <= k < g[u].len() && reaches(g, g[u][k].0 as int, u)
}

proof fn lemma_last_index(bs: Seq<(Seq<char>, Span, Expr)>, k: Seq<char>)
    ensures
        closure_names(bs).contains(k) ==> 0 <= last_index(bs, k) < bs.len() && bs[last_index(bs, k)].0 == k,
        !closure_names(bs).contains(k) ==> last_index(bs, k) == -1,
    decreases bs.len(),
{
    if bs.len() > 0 {
        let init = bs.drop_last();
        lemma_last_index(init, k);
        if bs.last().0 != k {
            if closure_names(bs).contains(k) {
                let j = choose|j: int| 0 <= j < bs.len() && (#[trigger] bs[j]).0 == k;
                assert(init[j] == bs[j]);
            }
            if closure_names(init).contains(k) {
                let j = choose|j: int| 0 <= j < init.len() && (#[trigger] init[j]).0 == k;
                assert(init[j] == bs[j]);
            }
        }
    }
}

/// Every collected call names a closure of `cn`.
pub open spec fn all_named(s: Seq<(Seq<char>, Span)>, cn: Set<Seq<char>>) -> bool {
    forall|x: int| 0 <= x < s.len() ==> cn.contains((#[trigger] s[x]).0)
}

proof fn lemma_all_named_add(a: Seq<(Seq<char>, Span)>, b: Seq<(Seq<char>, Span)>, cn: Set<Seq<char>>)
    requires
        all_named(a, cn),
        all_named(b, cn),
    ensures
        all_named(a + b, cn),
{
    assert forall|x: int| 0 <= x < (a + b).len() implies cn.contains((#[trigger] (a + b)[x]).0) by {
        if x < a.len() {
            assert((a + b)[x] == a[x]);
        } else {
            assert((a + b)[x] == b[x - a.len()]);
        }
    }
}

/// Only closures of `cn` are collected.
proof fn lemma_cc_names(e: Expr, cn: Set<Seq<char>>, sc: Seq<Set<Seq<char>>>)
    ensures
        all_named(cc(e, cn, sc), cn),
    decreases e, 1nat,
{
    match e {
        Expr::Call { callee, args, span } => {
            lemma_cc_list_names(args@, cn, sc);
            let head: Seq<(Seq<char>, Span)> = if !has_sep(callee@) && cn.contains(callee@) && !bound_in(sc, callee@) {
                seq![(callee@, span)]
            } else {
                Seq::empty()
            };
            lemma_all_named_add(head, cc_list(args@, cn, sc), cn);
        },
        Expr::ArrayLit { elems, .. } => lemma_cc_list_names(elems@, cn, sc),
        Expr::TupleLit { elems, .. } => lemma_cc_list_names(elems@, cn, sc),
        Expr::StructLit { fields, .. } => lemma_cc_fields_names(fields@, cn, sc),
        Expr::FieldAccess { base, .. } => lemma_cc_names(*base, cn, sc),
        Expr::Index { base, index, .. } => {
            lemma_cc_names(*base, cn, sc);
            lemma_cc_names(*index, cn, sc);
            lemma_all_named_add(cc(*base, cn, sc), cc(*index, cn, sc), cn);
        },
        Expr::Block { block } => lemma_cc_block_names(*block, cn, sc),
        Expr::Bin { lhs, rhs, .. } => {
            lemma_cc_names(*lhs, cn, sc);
            lemma_cc_names(*rhs, cn, sc);
            lemma_all_named_add(cc(*lhs, cn, sc), cc(*rhs, cn, sc), cn);
        },
        Expr::Return { expr, .. } => lemma_cc_names(*expr, cn, sc),
        Expr::Unary { expr, .. } => lemma_cc_names(*expr, cn, sc),
        Expr::Try { expr, .. } => lemma_cc_names(*expr, cn, sc),
        Expr::If { cond, then_br, else_br, .. } => {
            lemma_cc_names(*cond, cn, sc);
            lemma_cc_names(*then_br, cn, sc);
            lemma_cc_names(*else_br, cn, sc);
            lemma_all_named_add(cc(*cond, cn, sc), cc(*then_br, cn, sc), cn);
            lemma_all_named_add(cc(*cond, cn, sc) + cc(*then_br, cn, sc), cc(*else_br, cn, sc), cn);
        },
        Expr::Match { scrutinee, arms, .. } => {
            lemma_cc_names(*scrutinee, cn, sc);
            lemma_cc_arms_names(arms@, cn, sc);
            lemma_all_named_add(cc(*scrutinee, cn, sc), cc_arms(arms@, cn, sc), cn);
        },
        Expr::Lambda { params, body, .. } => lemma_cc_names(*body, cn, sc.push(param_set(params@))),
        _ => {},
    }
}

proof fn lemma_cc_list_names(es: Seq<Expr>, cn: Set<Seq<char>>, sc: Seq<Set<Seq<char>>>)
    ensures
        all_named(cc_list(es, cn, sc), cn),
    decreases es, 0nat,
{
    if es.len() > 0 {
        lemma_cc_names(es[0], cn, sc);
        lemma_cc_list_names(es.drop_first(), cn, sc);
        lemma_all_named_add(cc(es[0], cn, sc), cc_list(es.drop_first(), cn, sc), cn);
    }
}

proof fn lemma_cc_fields_names(fs: Seq<FieldInit>, cn: Set<Seq<char>>, sc: Seq<Set<Seq<char>>>)
    ensures
        all_named(cc_fields(fs, cn, sc), cn),
    decreases fs, 0nat,
{
    if fs.len() > 0 {
        lemma_cc_names(fs[0].expr, cn, sc);
        lemma_cc_fields_names(fs.drop_first(), cn, sc);
        lemma_all_named_add(cc(fs[0].expr, cn, sc), cc_fields(fs.drop_first(), cn, sc), cn);
    }
}

proof fn lemma_cc_arms_names(arms: Seq<MatchArm>, cn: Set<Seq<char>>, sc: Seq<Set<Seq<char>>>)
    ensures
        all_named(cc_arms(arms, cn, sc), cn),
    decreases arms, 0nat,
{
    if arms.len() > 0 {
        lemma_cc_names(arms[0].expr, cn, sc.push(pat_set(arms[0].pat)));
        lemma_cc_arms_names(arms.drop_first(), cn, sc);
        lemma_all_named_add(cc(arms[0].expr, cn, sc.push(pat_set(arms[0].pat))), cc_arms(arms.drop_first(), cn, sc), cn);
    }
}

proof fn lemma_cc_stmts_names(ss: Seq<Stmt>, cn: Set<Seq<char>>, sc: Seq<Set<Seq<char>>>)
    ensures
        all_named(cc_stmts(ss, cn, sc).0, cn),
    decreases ss, 0nat,
{
    if ss.len() > 0 {
        match ss[0] {
            Stmt::Let { name, expr, .. } => {
                let next = sc.update(sc.len() - 1, sc[sc.len() - 1].insert(name@));
                lemma_cc_names(*expr, cn, sc);
                lemma_cc_stmts_names(ss.drop_first(), cn, next);
                lemma_all_named_add(cc(*expr, cn, sc), cc_stmts(ss.drop_first(), cn, next).0, cn);
            },
            Stmt::Expr { expr, .. } => {
                lemma_cc_names(*expr, cn, sc);
                lemma_cc_stmts_names(ss.drop_first(), cn, sc);
                lemma_all_named_add(cc(*expr, cn, sc), cc_stmts(ss.drop_first(), cn, sc).0, cn);
            },
            Stmt::While { cond, loop_invariant, variant, body, .. } => {
                lemma_cc_names(*cond, cn, sc);
                lemma_cc_names(*loop_invariant, cn, sc);
                let vc: Seq<(Seq<char>, Span)> = match variant {
                    Some(v) => cc(*v, cn, sc),
                    None => Seq::empty(),
                };
                match variant {
                    Some(v) => lemma_cc_names(*v, cn, sc),
                    None => {},
                }
                lemma_cc_block_names(*body, cn, sc);
                lemma_cc_stmts_names(ss.drop_first(), cn, sc);
                lemma_all_named_add(cc(*cond, cn, sc), cc(*loop_invariant, cn, sc), cn);
                lemma_all_named_add(cc(*cond, cn, sc) + cc(*loop_invariant, cn, sc), vc, cn);
                lemma_all_named_add(cc(*cond, cn, sc) + cc(*loop_invariant, cn, sc) + vc, cc_block(*body, cn, sc), cn);
                lemma_all_named_add(
                    cc(*cond, cn, sc) + cc(*loop_invariant, cn, sc) + vc + cc_block(*body, cn, sc),
                    cc_stmts(ss.drop_first(), cn, sc).0,
                    cn,
                );
            },
        }
    }
}

proof fn lemma_cc_block_names(b: Block, cn: Set<Seq<char>>, sc: Seq<Set<Seq<char>>>)
    ensures
        all_named(cc_block(b, cn, sc), cn),
    decreases b, 0nat,
{
    let sc1 = sc.push(Set::<Seq<char>>::empty());
    lemma_cc_stmts_names(b.statements@, cn, sc1);
    let after = cc_stmts(b.statements@, cn, sc1).1;
    match b.tail {
        Some(t) => {
            lemma_cc_names(*t, cn, after);
            lemma_all_named_add(cc_stmts(b.statements@, cn, sc1).0, cc(*t, cn, after), cn);
        },
        None => {
            lemma_all_named_add(cc_stmts(b.statements@, cn, sc1).0, Seq::empty(), cn);
        },
    }
}

/// Refuses closure values that call themselves, directly or through other
/// closures bound in the same block.
pub fn reject_recursive_closure_values(block: &Block) -> (r: Result<(), RecursiveClosure>)
    ensures
        ({
            let bs = closure_lets(block.statements@);
            let g = closure_edges(bs);
            match r {
                Ok(_) => forall|u: int, k: int| !#[trigger] on_cycle(g, u, k),
                Err(RecursiveClosure::SelfReferential { name, span }) => exists|u: int, k: int| #[trigger] self_loop(g, u, k)
                    && name@ == bs[u].0 && span == g[u][k].1,
                Err(RecursiveClosure::Mutual { from, to, span }) => (forall|u: int, k: int| !#[trigger] self_loop(g, u, k))
                    && exists|u: int, k: int| #[trigger] on_cycle(g, u, k) && from@ == bs[u].0
                    && to@ == bs[g[u][k].0 as int].0 && span == g[u][k].1,
            }
        }),
{
    let ghost ss = block.statements@;
    // the closure bindings, by statement
    let mut stmt_of: Vec<usize> = Vec::new();
    let mut bound_names: Vec<String> = Vec::new();
    let mut index: NameMap<usize> = NameMap::new();
    let mut names = NameSet::new();
    let mut i: usize = 0;
    while i < block.statements.len()
        invariant
            i <= ss.len(),
            ss == block.statements@,
            stmt_of@.len() == closure_lets(ss.subrange(0, i as int)).len(),
            bound_names@.len() == stmt_of@.len(),
            forall|j: int| 0 <= j < stmt_of@.len() ==> {
                let b = closure_lets(ss.subrange(0, i as int))[j];
                &&& (#[trigger] stmt_of@[j]) < i
                &&& ss[stmt_of@[j] as int] matches Stmt::Let { name, expr, span } && name@ == b.0 && span == b.1 && *expr == b.2
                &&& bound_names@[j]@ == b.0
                &&& b.2 is Lambda
            },
            names@ == closure_names(closure_lets(ss.subrange(0, i as int))),
            forall|k: Seq<char>| #[trigger] index@.contains_key(k) <==> names@.contains(k),
            forall|k: Seq<char>| names@.contains(k) ==> index@[k] == last_index(closure_lets(ss.subrange(0, i as int)), k),
        decreases ss.len() - i,
    {
        let ghost before = closure_lets(ss.subrange(0, i as int));
        let ghost next = ss.subrange(0, i as int + 1);
        assert(next.drop_last() =~= ss.subrange(0, i as int));
        assert(next.last() == ss[i as int]);
        if let Stmt::Let { name, expr, .. } = &block.statements[i] {
            if let Expr::Lambda { .. } = &**expr {
                let idx = stmt_of.len();
                stmt_of.push(i);
                bound_names.push(name.clone());
                index.insert(name.clone(), idx);
                names.insert(name.clone());
                proof {
                    let after = closure_lets(next);
                    assert(after == before.push((name@, ss[i as int]->Let_span, **expr)));
                    assert forall|k: Seq<char>| #[trigger] closure_names(after).contains(k) <==> closure_names(before).insert(name@).contains(k) by {
                        if closure_names(after).contains(k) {
                            let j = choose|j: int| 0 <= j < after.len() && (#[trigger] after[j]).0 == k;
                            if j < before.len() {
                                assert(before[j] == after[j]);
                            }
                        }
                        if closure_names(before).contains(k) {
                            let j = choose|j: int| 0 <= j < before.len() && (#[trigger] before[j]).0 == k;
                            assert(before[j] == after[j]);
                        }
                        if k == name@ {
                            assert(after[before.len() as int].0 == k);
                        }
                    }
                    assert(closure_names(after) =~= closure_names(before).insert(name@));
                    assert forall|j: int| 0 <= j < stmt_of@.len() implies {
                        let b = closure_lets(next)[j];
                        &&& (#[trigger] stmt_of@[j]) < i + 1
                        &&& ss[stmt_of@[j] as int] matches Stmt::Let { name, expr, span } && name@ == b.0 && span == b.1 && *expr == b.2
                        &&& bound_names@[j]@ == b.0
                        &&& b.2 is Lambda
                    } by {
                        if j < before.len() {
                            assert(after[j] == before[j]);
                        }
                    }
                    assert forall|k: Seq<char>| closure_names(after).contains(k) implies index@[k] == last_index(after, k) by {
                        assert(after.drop_last() =~= before);
                    }
                }
            } else {
                proof {
                    assert(closure_lets(next) == before);
                }
            }
        } else {
            proof {
                assert(closure_lets(next) == before);
            }
        }
        i = i + 1;
    }
    assert(ss.subrange(0, ss.len() as int) =~= ss);
    let ghost bs = closure_lets(ss);
    let ghost cn = closure_names(bs);
    let ghost g = closure_edges(bs);
    let n = stmt_of.len();
    if n == 0 {
        return Ok(());
    }
    // the call graph
    let mut edges: Vec<Vec<(usize, Span)>> = Vec::new();
    let mut from: usize = 0;
    while from < n
        invariant
            n == stmt_of@.len() == bs.len(),
            from <= n,
            ss == block.statements@,
            bs == closure_lets(ss),
            cn == closure_names(bs),
            g == closure_edges(bs),
            names@ == cn,
            forall|k: Seq<char>| #[trigger] index@.contains_key(k) <==> names@.contains(k),
            forall|k: Seq<char>| names@.contains(k) ==> index@[k] == last_index(bs, k),
            forall|j: int| 0 <= j < stmt_of@.len() ==> {
                let b = bs[j];
                &&& (#[trigger] stmt_of@[j]) < ss.len()
                &&& ss[stmt_of@[j] as int] matches Stmt::Let { name, expr, span } && name@ == b.0 && span == b.1 && *expr == b.2
                &&& bound_names@[j]@ == b.0
                &&& b.2 is Lambda
            },
            edges@.len() == from,
            forall|u: int| 0 <= u < from ==> (#[trigger] edges@[u])@ == g[u],
        decreases n - from,
    {
        let si = stmt_of[from];
        let mut calls: Vec<(String, Span)> = Vec::new();
        match &block.statements[si] {
            Stmt::Let { expr, .. } => match &**expr {
                Expr::Lambda { params, body, .. } => {
                    let mut scopes: Vec<NameSet> = Vec::new();
                    scopes.push(param_scope(params));
                    proof {
                        assert(scopes_view(scopes@) =~= seq![param_set(params@)]);
                        assert(calls_view(calls@) =~= Seq::<(Seq<char>, Span)>::empty());
                    }
                    cc_expr(body, &names, &mut scopes, &mut calls);
                    assert(calls_view(calls@) =~= lambda_calls(bs[from as int].2, cn));
                },
                _ => {
                    assert(false);
                },
            },
            _ => {
                assert(false);
            },
        }
        let ghost lc = lambda_calls(bs[from as int].2, cn);
        proof {
            if let Expr::Lambda { params, body, .. } = bs[from as int].2 {
                lemma_cc_names(*body, cn, seq![param_set(params@)]);
            }
        }
        let mut out: Vec<(usize, Span)> = Vec::new();
        let mut c: usize = 0;
        while c < calls.len()
            invariant
                c <= calls@.len(),
                calls_view(calls@) == lc,
                lc == lambda_calls(bs[from as int].2, cn),
                names@ == cn,
                forall|k: Seq<char>| #[trigger] index@.contains_key(k) <==> names@.contains(k),
                forall|k: Seq<char>| names@.contains(k) ==> index@[k] == last_index(bs, k),
                forall|x: int| 0 <= x < lc.len() ==> cn.contains((#[trigger] lc[x]).0),
                out@ == lc.subrange(0, c as int).map_values(|cl: (Seq<char>, Span)| (last_index(bs, cl.0) as usize, cl.1)),
            decreases calls.len() - c,
        {
            let callee = calls[c].0.as_str();
            assert(lc[c as int] == (calls@[c as int].0@, calls@[c as int].1));
            let to = *index.get(callee).unwrap();
            out.push((to, calls[c].1));
            assert(out@ =~= lc.subrange(0, c as int + 1).map_values(|cl: (Seq<char>, Span)| (last_index(bs, cl.0) as usize, cl.1)));
            c = c + 1;
        }
        assert(lc.subrange(0, lc.len() as int) =~= lc);
        edges.push(out);
        from = from + 1;
    }
    proof {
        assert(edges_view(edges@) =~= g);
        assert forall|u: int, k: int| 0 <= u < g.len() && 0 <= k < g[u].len() implies (#[trigger] g[u][k]).0 < g.len() by {
            let lc = lambda_calls(bs[u].2, cn);
            if let Expr::Lambda { params, body, .. } = bs[u].2 {
                lemma_cc_names(*body, cn, seq![param_set(params@)]);
            }
            assert(cn.contains(lc[k].0));
            lemma_last_index(bs, lc[k].0);
        }
    }
    proof {
        assert forall|j: int| 0 <= j < n implies (#[trigger] bound_names@[j])@ == bs[j].0 by {
            assert(stmt_of@[j] < ss.len());
        }
    }
    // direct self-reference
    let mut u: usize = 0;
    while u < n
        invariant
            u <= n,
            n == edges@.len() == g.len(),
            edges_view(edges@) == g,
            ss == block.statements@,
            bs == closure_lets(ss),
            g == closure_edges(bs),
            graph_ok(g),
            bound_names@.len() == n,
            forall|j: int| 0 <= j < n ==> (#[trigger] bound_names@[j])@ == bs[j].0,
            forall|x: int, k: int| 0 <= x < u ==> !#[trigger] self_loop(g, x, k),
        decreases n - u,
    {
        let mut k: usize = 0;
        while k < edges[u].len()
            invariant
                u < n,
                n == edges@.len() == g.len(),
                edges_view(edges@) == g,
                ss == block.statements@,
                bs == closure_lets(ss),
                g == closure_edges(bs),
            ss == block.statements@,
            bs == closure_lets(ss),
            g == closure_edges(bs),
                bound_names@.len() == n,
                forall|j: int| 0 <= j < n ==> (#[trigger] bound_names@[j])@ == bs[j].0,
                k <= g[u as int].len(),
                forall|kk: int| 0 <= kk < k ==> !#[trigger] self_loop(g, u as int, kk),
            decreases edges@[u as int]@.len() - k,
        {
            assert(g[u as int] == edges@[u as int]@);
            if edges[u][k].0 == u {
                let name = bound_names[u].clone();
                let span = edges[u][k].1;
                proof {
                    assert(g[u as int][k as int] == edges@[u as int]@[k as int]);
                    assert(self_loop(g, u as int, k as int) && name@ == bs[u as int].0 && span == g[u as int][k as int].1);
                }
                return Err(RecursiveClosure::SelfReferential { name, span });
            }
            k = k + 1;
        }
        u = u + 1;
    }
    // cycles through other closures
    let mut u: usize = 0;
    while u < n
        invariant
            u <= n,
            n == edges@.len() == g.len(),
            edges_view(edges@) == g,
            ss == block.statements@,
            bs == closure_lets(ss),
            g == closure_edges(bs),
            graph_ok(g),
            bound_names@.len() == n,
            forall|j: int| 0 <= j < n ==> (#[trigger] bound_names@[j])@ == bs[j].0,
            forall|x: int, k: int| !#[trigger] self_loop(g, x, k),
            forall|x: int, k: int| 0 <= x < u ==> !#[trigger] on_cycle(g, x, k),
        decreases n - u,
    {
        let mut k: usize = 0;
        while k < edges[u].len()
            invariant
                u < n,
                n == edges@.len() == g.len(),
                edges_view(edges@) == g,
                ss == block.statements@,
                bs == closure_lets(ss),
                g == closure_edges(bs),
            ss == block.statements@,
            bs == closure_lets(ss),
            g == closure_edges(bs),
                graph_ok(g),
                bound_names@.len() == n,
                forall|j: int| 0 <= j < n ==> (#[trigger] bound_names@[j])@ == bs[j].0,
                forall|x: int, kk: int| !#[trigger] self_loop(g, x, kk),
                k <= g[u as int].len(),
                forall|kk: int| 0 <= kk < k ==> !#[trigger] on_cycle(g, u as int, kk),
            decreases edges@[u as int]@.len() - k,
        {
            assert(g[u as int] == edges@[u as int]@);
            let next = edges[u][k].0;
            let mut visited: Vec<bool> = Vec::new();
            let mut z: usize = 0;
            while z < n
                invariant
                    z <= n,
                    visited@.len() == z,
                    forall|q: int| 0 <= q < z ==> !visited@[q],
                decreases n - z,
            {
                visited.push(false);
                z = z + 1;
            }
            let ghost blank = visited@;
            let found = has_path(next, u, &edges, &mut visited);
            proof {
                if !found {
                    assert forall|p: Seq<int>| #[trigger] is_path(g, p) && p[0] == next && p.last() == u implies false by {
                        assert forall|i: int| 0 <= i < p.len() - 1 implies !blank[p[i]] by {
                            assert(has_edge(g, p[i], p[i + 1]));
                        }
                    }
                }
            }
            if found {
                let from_name = bound_names[u].clone();
                let to_name = bound_names[next].clone();
                let span = edges[u][k].1;
                proof {
                    assert(g[u as int][k as int] == edges@[u as int]@[k as int]);
                    assert(on_cycle(g, u as int, k as int) && from_name@ == bs[u as int].0
                        && to_name@ == bs[g[u as int][k as int].0 as int].0 && span == g[u as int][k as int].1);
                }
                return Err(RecursiveClosure::Mutual { from: from_name, to: to_name, span });
            }
            k = k + 1;
        }
        u = u + 1;
    }
    Ok(())
}

} // verus!
