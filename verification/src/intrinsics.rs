use vstd::prelude::*;
use crate::ast::{Block, Expr, FieldInit, Func, MatchArm, Program, Stmt};
use crate::names::{names_view, NameSet};
use crate::text::str_eq;

verus! {

/// The callees of the calls in `e`, in evaluation order (a call's callee
/// before the calls in its arguments).
pub open spec fn calls_in(e: Expr) -> Seq<Seq<char>>
    decreases e, 1nat,
{
    match e {
        Expr::Int(..) | Expr::Bool(..) | Expr::String(..) | Expr::Var(..) => Seq::empty(),
        Expr::Return { expr, .. } => calls_in(*expr),
        Expr::Unary { expr, .. } => calls_in(*expr),
        Expr::Try { expr, .. } => calls_in(*expr),
        Expr::Bin { lhs, rhs, .. } => calls_in(*lhs) + calls_in(*rhs),
        Expr::ArrayLit { elems, .. } => calls_list(elems@),
        Expr::TupleLit { elems, .. } => calls_list(elems@),
        Expr::StructLit { fields, .. } => calls_fields(fields@),
        Expr::FieldAccess { base, .. } => calls_in(*base),
        Expr::Index { base, index, .. } => calls_in(*base) + calls_in(*index),
        Expr::If { cond, then_br, else_br, .. } => calls_in(*cond) + calls_in(*then_br) + calls_in(*else_br),
        Expr::Match { scrutinee, arms, .. } => calls_in(*scrutinee) + calls_arms(arms@),
        Expr::Block { block } => calls_block(*block),
        Expr::Lambda { body, .. } => calls_in(*body),
        Expr::Call { callee, args, .. } => seq![callee@] + calls_list(args@),
    }
}

pub open spec fn calls_list(es: Seq<Expr>) -> Seq<Seq<char>>
    decreases es, 0nat,
{
    if es.len() == 0 {
        Seq::empty()
    } else {
        calls_in(es[0]) + calls_list(es.drop_first())
    }
}

pub open spec fn calls_fields(fs: Seq<FieldInit>) -> Seq<Seq<char>>
    decreases fs, 0nat,
{
    if fs.len() == 0 {
        Seq::empty()
    } else {
        calls_in(fs[0].expr) + calls_fields(fs.drop_first())
    }
}

pub open spec fn calls_arms(arms: Seq<MatchArm>) -> Seq<Seq<char>>
    decreases arms, 0nat,
{
    if arms.len() == 0 {
        Seq::empty()
    } else {
        calls_in(arms[0].expr) + calls_arms(arms.drop_first())
    }
}

pub open spec fn calls_stmts(ss: Seq<Stmt>) -> Seq<Seq<char>>
    decreases ss, 0nat,
{
    if ss.len() == 0 {
        Seq::empty()
    } else {
        (match ss[0] {
            Stmt::Let { expr, .. } => calls_in(*expr),
            Stmt::Expr { expr, .. } => calls_in(*expr),
            Stmt::While { cond, loop_invariant, variant, body, .. } => calls_in(*cond) + calls_in(*loop_invariant)
                + (match variant {
                    Some(v) => calls_in(*v),
                    None => Seq::empty(),
                }) + calls_block(*body),
        }) + calls_stmts(ss.drop_first())
    }
}

pub open spec fn calls_block(b: Block) -> Seq<Seq<char>>
    decreases b, 0nat,
{
    calls_stmts(b.statements@) + match b.tail {
        Some(t) => calls_in(*t),
        None => Seq::empty(),
    }
}

/// The callees of a function: those of its `requires`, then its `ensures`,
/// then its body.
pub open spec fn calls_func(f: Func) -> Seq<Seq<char>> {
    calls_list(f.requires@) + calls_list(f.ensures@) + calls_in(f.body)
}

/// The callees of the functions, in order.
pub open spec fn calls_funcs(fs: Seq<Func>) -> Seq<Seq<char>>
    decreases fs.len(),
{
    if fs.len() == 0 {
        Seq::empty()
    } else {
        calls_func(fs[0]) + calls_funcs(fs.drop_first())
    }
}

proof fn lemma_push(v: Seq<String>, s: String)
    ensures
        names_view(v.push(s)) == names_view(v).push(s@),
{
    assert(names_view(v.push(s)) =~= names_view(v).push(s@));
}

fn walk_list(es: &Vec<Expr>, out: &mut Vec<String>)
    ensures
        names_view(final(out)@) == names_view(old(out)@) + calls_list(es@),
    decreases es, 0nat,
{
    let ghost start = names_view(out@);
    let mut i: usize = 0;
    assert(es@.subrange(0, es@.len() as int) =~= es@);
    while i < es.len()
        invariant
            i <= es@.len(),
            start + calls_list(es@) == names_view(out@) + calls_list(es@.subrange(i as int, es@.len() as int)),
        decreases es.len() - i,
    {
        assert(decreases_to!(es => es@[i as int]));
        let ghost rest = es@.subrange(i as int, es@.len() as int);
        assert(rest.drop_first() =~= es@.subrange(i as int + 1, es@.len() as int));
        assert(rest[0] == es@[i as int]);
        let ghost before = names_view(out@);
        walk_expr(&es[i], out);
        assert(before + calls_list(rest) =~= names_view(out@) + calls_list(rest.drop_first()));
        i = i + 1;
    }
    assert(es@.subrange(es@.len() as int, es@.len() as int) =~= Seq::<Expr>::empty());
    assert(names_view(out@) + Seq::<Seq<char>>::empty() =~= names_view(out@));
}

fn walk_fields(fs: &Vec<FieldInit>, out: &mut Vec<String>)
    ensures
        names_view(final(out)@) == names_view(old(out)@) + calls_fields(fs@),
    decreases fs, 0nat,
{
    let ghost start = names_view(out@);
    let mut i: usize = 0;
    assert(fs@.subrange(0, fs@.len() as int) =~= fs@);
    while i < fs.len()
        invariant
            i <= fs@.len(),
            start + calls_fields(fs@) == names_view(out@) + calls_fields(fs@.subrange(i as int, fs@.len() as int)),
        decreases fs.len() - i,
    {
        assert(decreases_to!(fs => fs@[i as int]));
        let ghost rest = fs@.subrange(i as int, fs@.len() as int);
        assert(rest.drop_first() =~= fs@.subrange(i as int + 1, fs@.len() as int));
        assert(rest[0] == fs@[i as int]);
        let ghost before = names_view(out@);
        walk_expr(&fs[i].expr, out);
        assert(before + calls_fields(rest) =~= names_view(out@) + calls_fields(rest.drop_first()));
        i = i + 1;
    }
    assert(fs@.subrange(fs@.len() as int, fs@.len() as int) =~= Seq::<FieldInit>::empty());
    assert(names_view(out@) + Seq::<Seq<char>>::empty() =~= names_view(out@));
}

fn walk_arms(arms: &Vec<MatchArm>, out: &mut Vec<String>)
    ensures
        names_view(final(out)@) == names_view(old(out)@) + calls_arms(arms@),
    decreases arms, 0nat,
{
    let ghost start = names_view(out@);
    let mut i: usize = 0;
    assert(arms@.subrange(0, arms@.len() as int) =~= arms@);
    while i < arms.len()
        invariant
            i <= arms@.len(),
            start + calls_arms(arms@) == names_view(out@) + calls_arms(arms@.subrange(i as int, arms@.len() as int)),
        decreases arms.len() - i,
    {
        assert(decreases_to!(arms => arms@[i as int]));
        let ghost rest = arms@.subrange(i as int, arms@.len() as int);
        assert(rest.drop_first() =~= arms@.subrange(i as int + 1, arms@.len() as int));
        assert(rest[0] == arms@[i as int]);
        let ghost before = names_view(out@);
        walk_expr(&arms[i].expr, out);
        assert(before + calls_arms(rest) =~= names_view(out@) + calls_arms(rest.drop_first()));
        i = i + 1;
    }
    assert(arms@.subrange(arms@.len() as int, arms@.len() as int) =~= Seq::<MatchArm>::empty());
    assert(names_view(out@) + Seq::<Seq<char>>::empty() =~= names_view(out@));
}

fn walk_expr(e: &Expr, out: &mut Vec<String>)
    ensures
        names_view(final(out)@) == names_view(old(out)@) + calls_in(*e),
    decreases e, 1nat,
{
    let ghost start = names_view(out@);
    match e {
        Expr::Int(..) | Expr::Bool(..) | Expr::String(..) | Expr::Var(..) => {
            assert(start + Seq::<Seq<char>>::empty() =~= start);
        },
        Expr::Return { expr, .. } | Expr::Unary { expr, .. } | Expr::Try { expr, .. } => walk_expr(expr, out),
        Expr::Bin { lhs, rhs, .. } => {
            walk_expr(lhs, out);
            walk_expr(rhs, out);
            assert(start + calls_in(*e) =~= names_view(out@));
        },
        Expr::ArrayLit { elems, .. } | Expr::TupleLit { elems, .. } => walk_list(elems, out),
        Expr::StructLit { fields, .. } => walk_fields(fields, out),
        Expr::FieldAccess { base, .. } => walk_expr(base, out),
        Expr::Index { base, index, .. } => {
            walk_expr(base, out);
            walk_expr(index, out);
            assert(start + calls_in(*e) =~= names_view(out@));
        },
        Expr::If { cond, then_br, else_br, .. } => {
            walk_expr(cond, out);
            walk_expr(then_br, out);
            walk_expr(else_br, out);
            assert(start + calls_in(*e) =~= names_view(out@));
        },
        Expr::Match { scrutinee, arms, .. } => {
            walk_expr(scrutinee, out);
            walk_arms(arms, out);
            assert(start + calls_in(*e) =~= names_view(out@));
        },
        Expr::Block { block } => walk_block(block, out),
        Expr::Lambda { body, .. } => walk_expr(body, out),
        Expr::Call { callee, args, .. } => {
            let ghost before = out@;
            out.push(callee.clone());
            proof {
                lemma_push(before, *callee);
            }
            walk_list(args, out);
            assert(start + calls_in(*e) =~= names_view(out@));
        },
    }
}

fn walk_block(block: &Block, out: &mut Vec<String>)
    ensures
        names_view(final(out)@) == names_view(old(out)@) + calls_block(*block),
    decreases block, 0nat,
{
    let ghost start = names_view(out@);
    let ghost ss = block.statements@;
    let mut i: usize = 0;
    assert(ss.subrange(0, ss.len() as int) =~= ss);
    while i < block.statements.len()
        invariant
            i <= ss.len(),
            ss == block.statements@,
            start + calls_stmts(ss) == names_view(out@) + calls_stmts(ss.subrange(i as int, ss.len() as int)),
        decreases ss.len() - i,
    {
        assert(decreases_to!(block => block.statements));
        assert(decreases_to!(block.statements => block.statements@[i as int]));
        let ghost rest = ss.subrange(i as int, ss.len() as int);
        assert(rest.drop_first() =~= ss.subrange(i as int + 1, ss.len() as int));
        assert(rest[0] == ss[i as int]);
        let ghost before = names_view(out@);
        match &block.statements[i] {
            Stmt::Let { expr, .. } | Stmt::Expr { expr, .. } => walk_expr(expr, out),
            Stmt::While { cond, loop_invariant, variant, body, .. } => {
                walk_expr(cond, out);
                walk_expr(loop_invariant, out);
                match variant {
                    Some(v) => walk_expr(v, out),
                    None => {},
                }
                walk_block(body, out);
            },
        }
        assert(before + calls_stmts(rest) =~= names_view(out@) + calls_stmts(rest.drop_first()));
        i = i + 1;
    }
    assert(ss.subrange(ss.len() as int, ss.len() as int) =~= Seq::<Stmt>::empty());
    assert(names_view(out@) + Seq::<Seq<char>>::empty() =~= names_view(out@));
    match &block.tail {
        Some(t) => {
            assert(decreases_to!(block => block.tail));
            walk_expr(t, out);
        },
        None => {},
    }
    assert(start + calls_block(*block) =~= names_view(out@));
}

/// The callees of every call in the program, in order: for each function,
/// those of its `requires`, its `ensures` and its body.
pub fn walk_calls(ast: &Program) -> (r: Vec<String>)
    ensures
        names_view(r@) == calls_funcs(ast.funcs@),
{
    let ghost fs = ast.funcs@;
    let mut out: Vec<String> = Vec::new();
    let mut i: usize = 0;
    assert(fs.subrange(0, fs.len() as int) =~= fs);
    assert(names_view(out@) =~= Seq::<Seq<char>>::empty());
    while i < ast.funcs.len()
        invariant
            i <= fs.len(),
            fs == ast.funcs@,
            calls_funcs(fs) == names_view(out@) + calls_funcs(fs.subrange(i as int, fs.len() as int)),
        decreases fs.len() - i,
    {
        let ghost rest = fs.subrange(i as int, fs.len() as int);
        assert(rest.drop_first() =~= fs.subrange(i as int + 1, fs.len() as int));
        assert(rest[0] == fs[i as int]);
        let ghost before = names_view(out@);
        let f = &ast.funcs[i];
        walk_list(&f.requires, &mut out);
        walk_list(&f.ensures, &mut out);
        walk_expr(&f.body, &mut out);
        assert(before + calls_funcs(rest) =~= names_view(out@) + calls_funcs(rest.drop_first()));
        i = i + 1;
    }
    assert(fs.subrange(fs.len() as int, fs.len() as int) =~= Seq::<Func>::empty());
    assert(names_view(out@) + Seq::<Seq<char>>::empty() =~= names_view(out@));
    out
}

/// The names of every function the program calls.
pub fn collect_called_functions(ast: &Program) -> (r: NameSet)
    ensures
        r@ == calls_funcs(ast.funcs@).to_set(),
{
    let calls = walk_calls(ast);
    let ghost cs = names_view(calls@);
    let mut out = NameSet::new();
    let mut i: usize = 0;
    while i < calls.len()
        invariant
            i <= calls@.len(),
            cs == names_view(calls@),
            out@ == cs.take(i as int).to_set(),
        decreases calls.len() - i,
    {
        out.insert(calls[i].clone());
        proof {
            assert(cs.take(i as int + 1) =~= cs.take(i as int).push(cs[i as int]));
            cs.take(i as int).lemma_push_to_set_commute(cs[i as int]);
        }
        i = i + 1;
    }
    assert(cs.take(calls@.len() as int) =~= cs);
    out
}

/// The runtime intrinsics that a call of `c` (a callee with collection
/// aliases already resolved) needs linked in.
pub open spec fn intrinsic_uses(c: Seq<char>) -> Set<Seq<char>> {
    if c == "std::bytes::len"@ || c == "std::bytes::is_empty"@ {
        set!["std::bytes::len"@]
    } else if c == "std::bytes::eq"@ || c == "std::bytes::equals"@ {
        set!["std::bytes::eq"@]
    } else if c == "std::bytes::eq_ct"@ || c == "std::bytes::equals_ct"@ {
        set!["std::bytes::eq_ct"@]
    } else if c == "std::bytes::concat"@ {
        set!["std::bytes::concat"@]
    } else if c == "std::bytes::from_string"@ || c == "std::str::to_bytes"@ {
        set!["std::bytes::from_string"@]
    } else if c == "std::bytes::to_string"@ {
        set!["std::bytes::to_string"@]
    } else if c == "std::wasi::print"@ {
        set!["std::wasi::print"@]
    } else if c == "std::env::time"@ {
        set!["std::env::time"@]
    } else if c == "std::env::chain_id"@ {
        set!["std::env::chain_id"@]
    } else if c == "std::env::random"@ {
        set!["std::env::random"@]
    } else if c == "std::crypto::hash"@ || c == "std::crypto::sha256"@ {
        set!["std::crypto::hash"@]
    } else if c == "std::crypto::hmac"@ || c == "std::crypto::hmac_sha256"@ {
        set!["std::crypto::hmac"@]
    } else if c == "std::crypto::verify"@ {
        set!["std::crypto::verify"@]
    } else if c == "std::str::len"@ || c == "std::str::is_empty"@ {
        set!["std::str::len"@]
    } else if c == "std::str::eq"@ || c == "std::str::equals"@ {
        set!["std::str::eq"@]
    } else if c == "std::str::concat"@ {
        set!["std::str::concat"@]
    } else if c == "std::str::starts_with"@ {
        set!["std::str::starts_with"@]
    } else if c == "std::str::ends_with"@ {
        set!["std::str::ends_with"@]
    } else if c == "std::str::contains"@ || c == "std::str_pattern::matches"@ {
        set!["std::str::contains"@]
    } else if c == "std::u64::rotl"@ {
        set!["std::u64::rotl"@]
    } else if c == "std::u64::rotr"@ {
        set!["std::u64::rotr"@]
    } else if c == "std::u64::to_bytes_le"@ {
        set!["std::u64::to_bytes_le"@]
    } else if c == "std::u64::to_bytes_be"@ {
        set!["std::u64::to_bytes_be"@]
    } else if c == "std::u64::from_bytes_le"@ {
        set!["std::u64::from_bytes_le"@]
    } else if c == "std::u64::from_bytes_be"@ {
        set!["std::u64::from_bytes_be"@]
    } else if c == "std::map::contains"@ || c == "std::map::get"@ || c == "std::map::insert"@ || c == "std::map::remove"@ || c == "std::map::insert_take"@ || c == "std::map::remove_take"@ {
        set!["std::str::eq"@, "std::bytes::eq"@]
    } else {
        Set::empty()
    }
}

/// The intrinsics needed by the calls of `cs`.
pub open spec fn intrinsics_of(cs: Seq<Seq<char>>) -> Set<Seq<char>>
    decreases cs.len(),
{
    if cs.len() == 0 {
        Set::empty()
    } else {
        intrinsics_of(cs.drop_last()).union(intrinsic_uses(cs.last()))
    }
}

/// Adds to `set` the intrinsics that a call of `callee` needs.
pub fn record_intrinsics(callee: &str, set: &mut NameSet)
    ensures
        final(set)@ == old(set)@.union(intrinsic_uses(callee@)),
{
    let ghost before = set@;
    if str_eq(callee, "std::bytes::len") || str_eq(callee, "std::bytes::is_empty") {
        set.insert("std::bytes::len".to_string());
    } else if str_eq(callee, "std::bytes::eq") || str_eq(callee, "std::bytes::equals") {
        set.insert("std::bytes::eq".to_string());
    } else if str_eq(callee, "std::bytes::eq_ct") || str_eq(callee, "std::bytes::equals_ct") {
        set.insert("std::bytes::eq_ct".to_string());
    } else if str_eq(callee, "std::bytes::concat") {
        set.insert("std::bytes::concat".to_string());
    } else if str_eq(callee, "std::bytes::from_string") || str_eq(callee, "std::str::to_bytes") {
        set.insert("std::bytes::from_string".to_string());
    } else if str_eq(callee, "std::bytes::to_string") {
        set.insert("std::bytes::to_string".to_string());
    } else if str_eq(callee, "std::wasi::print") {
        set.insert("std::wasi::print".to_string());
    } else if str_eq(callee, "std::env::time") {
        set.insert("std::env::time".to_string());
    } else if str_eq(callee, "std::env::chain_id") {
        set.insert("std::env::chain_id".to_string());
    } else if str_eq(callee, "std::env::random") {
        set.insert("std::env::random".to_string());
    } else if str_eq(callee, "std::crypto::hash") || str_eq(callee, "std::crypto::sha256") {
        set.insert("std::crypto::hash".to_string());
    } else if str_eq(callee, "std::crypto::hmac") || str_eq(callee, "std::crypto::hmac_sha256") {
        set.insert("std::crypto::hmac".to_string());
    } else if str_eq(callee, "std::crypto::verify") {
        set.insert("std::crypto::verify".to_string());
    } else if str_eq(callee, "std::str::len") || str_eq(callee, "std::str::is_empty") {
        set.insert("std::str::len".to_string());
    } else if str_eq(callee, "std::str::eq") || str_eq(callee, "std::str::equals") {
        set.insert("std::str::eq".to_string());
    } else if str_eq(callee, "std::str::concat") {
        set.insert("std::str::concat".to_string());
    } else if str_eq(callee, "std::str::starts_with") {
        set.insert("std::str::starts_with".to_string());
    } else if str_eq(callee, "std::str::ends_with") {
        set.insert("std::str::ends_with".to_string());
    } else if str_eq(callee, "std::str::contains") || str_eq(callee, "std::str_pattern::matches") {
        set.insert("std::str::contains".to_string());
    } else if str_eq(callee, "std::u64::rotl") {
        set.insert("std::u64::rotl".to_string());
    } else if str_eq(callee, "std::u64::rotr") {
        set.insert("std::u64::rotr".to_string());
    } else if str_eq(callee, "std::u64::to_bytes_le") {
        set.insert("std::u64::to_bytes_le".to_string());
    } else if str_eq(callee, "std::u64::to_bytes_be") {
        set.insert("std::u64::to_bytes_be".to_string());
    } else if str_eq(callee, "std::u64::from_bytes_le") {
        set.insert("std::u64::from_bytes_le".to_string());
    } else if str_eq(callee, "std::u64::from_bytes_be") {
        set.insert("std::u64::from_bytes_be".to_string());
    } else if str_eq(callee, "std::map::contains") || str_eq(callee, "std::map::get") || str_eq(callee, "std::map::insert") || str_eq(callee, "std::map::remove") || str_eq(callee, "std::map::insert_take") || str_eq(callee, "std::map::remove_take") {
        set.insert("std::str::eq".to_string());
        set.insert("std::bytes::eq".to_string());
    }
    assert(set@ =~= before.union(intrinsic_uses(callee@)));
}

/// The intrinsics needed by a sequence of callees whose collection aliases
/// are already resolved.
pub fn used_intrinsics(callees: &Vec<String>) -> (r: NameSet)
    ensures
        r@ == intrinsics_of(names_view(callees@)),
{
    let ghost cs = names_view(callees@);
    let mut set = NameSet::new();
    let mut i: usize = 0;
    assert(cs.take(0) =~= Seq::<Seq<char>>::empty());
    assert(set@ =~= Set::<Seq<char>>::empty());
    while i < callees.len()
        invariant
            i <= callees@.len(),
            cs == names_view(callees@),
            set@ == intrinsics_of(cs.take(i as int)),
        decreases callees.len() - i,
    {
        assert(cs.take(i as int + 1).drop_last() =~= cs.take(i as int));
        record_intrinsics(callees[i].as_str(), &mut set);
        i = i + 1;
    }
    assert(cs.take(callees@.len() as int) =~= cs);
    set
}

} // verus!
