use vstd::prelude::*;
use crate::ast::{Block, Expr, FieldInit, MatchArm, MatchPat, Stmt};
use crate::effects::{
    builtin_effect, builtin_effect_spec, effect_label, effect_label_spec, join_spec, level_from_effect, level_of,
    rank, EffectLevel,
};
use crate::env::{FnSig, FnSigV, TraitEnv, TraitMethodV};
use crate::errors::{at_span, TyperError};
use crate::names::NameMap;
use crate::text::{contains_sep, has_prefix, has_sep, last_sep, rsplit_once_sep, starts_with, str_eq};
use crate::ty::{Effect, Param, Span, Type};
use crate::builtin_table::bytes_env_sigs;

verus! {

/// The effects of the closures bound to local names: `None` for a closure
/// parameter, whose effect is unknown.
pub type FnValueEffects = NameMap<Option<EffectLevel>>;

/// What the effect of a call depends on besides the local closures.
pub struct CallEnv {
    pub fns: Map<Seq<char>, FnSigV>,
    pub traits: Map<Seq<char>, Map<Seq<char>, TraitMethodV>>,
}

pub open spec fn call_env(fns: Map<Seq<char>, FnSigV>, trait_env: TraitEnv) -> CallEnv {
    CallEnv { fns, traits: trait_env.traits@ }
}

/// The effect a call of `callee` has: that of a local closure (unknown
/// closures count as `io`), of a builtin, of a trait method, of a declared
/// function, and otherwise `pure` for a path and `io` for a bare name.
pub open spec fn call_effect_spec(callee: Seq<char>, env: CallEnv, locals: Map<Seq<char>, Option<EffectLevel>>) -> EffectLevel {
    if locals.contains_key(callee) {
        match locals[callee] {
            Some(l) => l,
            None => EffectLevel::Io,
        }
    } else if builtin_effect_spec(callee) is Some {
        builtin_effect_spec(callee)->0
    } else if last_sep(callee) is Some
        && env.traits.contains_key(callee.subrange(0, last_sep(callee)->0))
        && env.traits[callee.subrange(0, last_sep(callee)->0)].contains_key(
            callee.subrange(last_sep(callee)->0 + 2, callee.len() as int),
        ) {
        level_of(env.traits[callee.subrange(0, last_sep(callee)->0)][callee.subrange(last_sep(callee)->0 + 2, callee.len() as int)].effect)
    } else if env.fns.contains_key(callee) {
        env.fns[callee].effect
    } else if has_sep(callee) {
        EffectLevel::Pure
    } else {
        EffectLevel::Io
    }
}

/// The effect of calling `callee`.
pub fn call_effect(callee: &str, fns: &NameMap<FnSig>, trait_env: &TraitEnv, fn_locals: &FnValueEffects) -> (r: EffectLevel)
    ensures
        r == call_effect_spec(callee@, call_env(fns@, *trait_env), fn_locals@),
{
    if let Some(effect) = fn_locals.get(callee) {
        return match effect {
            Some(l) => *l,
            None => EffectLevel::Io,
        };
    }
    if let Some(level) = builtin_effect(callee) {
        return level;
    }
    if let Some((trait_name, method_name)) = rsplit_once_sep(callee) {
        if let Some(info) = trait_env.traits.get(trait_name.as_str()) {
            if let Some(method) = info.methods.get(method_name.as_str()) {
                return level_from_effect(method.effect);
            }
        }
    }
    match fns.get(callee) {
        Some(sig) => sig.effect,
        None => if contains_sep(callee) {
            EffectLevel::Pure
        } else {
            EffectLevel::Io
        },
    }
}

/// A call that needs an effect that is not allowed where it stands.
pub struct EffectErr {
    pub what: Seq<char>,
    pub label: Seq<char>,
    pub span: Span,
}

/// The diagnostic for an effect violation.
pub open spec fn is_effect_error(e: TyperError, err: EffectErr) -> bool {
    &&& e.code@ == "T401"@
    &&& e.message@ == at_span(err.span) + "calling `"@ + err.what + "` requires `"@ + err.label + "` effect"@
    &&& e.start == err.span.start
    &&& e.end == err.span.end
}

pub open spec fn is_fn_type(t: Type) -> bool {
    t is Fn
}

/// The closure table inside a lambda: its function-typed parameters are
/// unknown closures, its other parameters shadow closures of the same name.
pub open spec fn lambda_locals(params: Seq<Param>, locals: Map<Seq<char>, Option<EffectLevel>>) -> Map<Seq<char>, Option<EffectLevel>>
    decreases params.len(),
{
    if params.len() == 0 {
        locals
    } else {
        let p = params[0];
        let next = if is_fn_type(p.ty) { locals.insert(p.name@, None) } else { locals.remove(p.name@) };
        lambda_locals(params.drop_first(), next)
    }
}

/// Removes the given names from the closure table.
pub open spec fn remove_names(names: Seq<String>, locals: Map<Seq<char>, Option<EffectLevel>>) -> Map<Seq<char>, Option<EffectLevel>>
    decreases names.len(),
{
    if names.len() == 0 {
        locals
    } else {
        remove_names(names.drop_first(), locals.remove(names[0]@))
    }
}

/// The closure table inside a match arm: its binders shadow closures.
pub open spec fn arm_locals(pat: MatchPat, locals: Map<Seq<char>, Option<EffectLevel>>) -> Map<Seq<char>, Option<EffectLevel>> {
    match pat {
        MatchPat::SomeBind(n) => locals.remove(n@),
        MatchPat::OkBind(n) => locals.remove(n@),
        MatchPat::ErrBind(n) => locals.remove(n@),
        MatchPat::EnumVariant { binders, .. } => remove_names(binders@, locals),
        _ => locals,
    }
}

pub open spec fn effect_err(what: Seq<char>, label: Seq<char>, span: Span) -> EffectErr {
    EffectErr { what, label, span }
}

/// The effect of evaluating `e` where effects up to `allowed` may be
/// performed, or the first call that needs more.
pub open spec fn eff(e: Expr, env: CallEnv, allowed: EffectLevel, locals: Map<Seq<char>, Option<EffectLevel>>) -> Result<EffectLevel, EffectErr>
    decreases e, 1nat,
{
    match e {
        Expr::Block { block } => eff_block(*block, env, allowed, locals),
        Expr::Int(..) | Expr::Bool(..) | Expr::String(..) | Expr::Var(..) => Ok(EffectLevel::Pure),
        Expr::Return { expr, .. } => eff(*expr, env, allowed, locals),
        Expr::Unary { expr, .. } => eff(*expr, env, allowed, locals),
        Expr::Try { expr, .. } => eff(*expr, env, allowed, locals),
        Expr::Bin { lhs, rhs, .. } => match eff(*lhs, env, allowed, locals) {
            Err(x) => Err(x),
            Ok(l) => match eff(*rhs, env, allowed, locals) {
                Err(x) => Err(x),
                Ok(r) => Ok(join_spec(l, r)),
            },
        },
        Expr::ArrayLit { elems, .. } => eff_list(elems@, env, allowed, locals, EffectLevel::Pure),
        Expr::TupleLit { elems, .. } => eff_list(elems@, env, allowed, locals, EffectLevel::Pure),
        Expr::StructLit { fields, .. } => eff_fields(fields@, env, allowed, locals, EffectLevel::Pure),
        Expr::FieldAccess { base, .. } => eff(*base, env, allowed, locals),
        Expr::Index { base, index, .. } => match eff(*base, env, allowed, locals) {
            Err(x) => Err(x),
            Ok(b) => match eff(*index, env, allowed, locals) {
                Err(x) => Err(x),
                Ok(i) => Ok(join_spec(b, i)),
            },
        },
        Expr::If { cond, then_br, else_br, .. } => match eff(*cond, env, allowed, locals) {
            Err(x) => Err(x),
            Ok(c) => match eff(*then_br, env, allowed, locals) {
                Err(x) => Err(x),
                Ok(t) => match eff(*else_br, env, allowed, locals) {
                    Err(x) => Err(x),
                    Ok(f) => Ok(join_spec(join_spec(c, t), f)),
                },
            },
        },
        Expr::Match { scrutinee, arms, .. } => match eff(*scrutinee, env, allowed, locals) {
            Err(x) => Err(x),
            Ok(s) => eff_arms(arms@, env, allowed, locals, s),
        },
        Expr::Lambda { params, body, .. } => eff(*body, env, allowed, lambda_locals(params@, locals)),
        Expr::Call { callee, args, span } => {
            if callee@ == "__clg_old"@ {
                eff_list(args@, env, allowed, locals, EffectLevel::Pure)
            } else if has_prefix(callee@, "__clg_state_write$"@) {
                if rank(allowed) < 1 {
                    Err(effect_err("state write"@, "mut"@, span))
                } else {
                    eff_list(args@, env, allowed, locals, EffectLevel::Mut)
                }
            } else if has_prefix(callee@, "__clg_event_emit$"@) {
                if rank(allowed) < 1 {
                    Err(effect_err("event emission"@, "mut"@, span))
                } else {
                    eff_list(args@, env, allowed, locals, EffectLevel::Mut)
                }
            } else if has_prefix(callee@, "__clg_external_call$"@) {
                if rank(allowed) < 1 {
                    Err(effect_err("external call"@, "mut"@, span))
                } else {
                    eff_list(args@, env, allowed, locals, EffectLevel::Mut)
                }
            } else {
                match eff_list(args@, env, allowed, locals, EffectLevel::Pure) {
                    Err(x) => Err(x),
                    Ok(a) => {
                        let c = call_effect_spec(callee@, env, locals);
                        if rank(c) > rank(allowed) {
                            Err(effect_err(callee@, effect_label_spec(c), span))
                        } else {
                            Ok(join_spec(a, c))
                        }
                    },
                }
            }
        },
    }
}

/// The effects of `es`, left to right, joined onto `acc`.
pub open spec fn eff_list(es: Seq<Expr>, env: CallEnv, allowed: EffectLevel, locals: Map<Seq<char>, Option<EffectLevel>>, acc: EffectLevel) -> Result<EffectLevel, EffectErr>
    decreases es, 0nat,
{
    if es.len() == 0 {
        Ok(acc)
    } else {
        match eff(es[0], env, allowed, locals) {
            Err(x) => Err(x),
            Ok(l) => eff_list(es.drop_first(), env, allowed, locals, join_spec(acc, l)),
        }
    }
}

pub open spec fn eff_fields(fs: Seq<FieldInit>, env: CallEnv, allowed: EffectLevel, locals: Map<Seq<char>, Option<EffectLevel>>, acc: EffectLevel) -> Result<EffectLevel, EffectErr>
    decreases fs, 0nat,
{
    if fs.len() == 0 {
        Ok(acc)
    } else {
        match eff(fs[0].expr, env, allowed, locals) {
            Err(x) => Err(x),
            Ok(l) => eff_fields(fs.drop_first(), env, allowed, locals, join_spec(acc, l)),
        }
    }
}

pub open spec fn eff_arms(arms: Seq<MatchArm>, env: CallEnv, allowed: EffectLevel, locals: Map<Seq<char>, Option<EffectLevel>>, acc: EffectLevel) -> Result<EffectLevel, EffectErr>
    decreases arms, 0nat,
{
    if arms.len() == 0 {
        Ok(acc)
    } else {
        match eff(arms[0].expr, env, allowed, arm_locals(arms[0].pat, locals)) {
            Err(x) => Err(x),
            Ok(l) => eff_arms(arms.drop_first(), env, allowed, locals, join_spec(acc, l)),
        }
    }
}

/// The effect a local binding of `e` gives the bound name when it is called:
/// `Some(Some(l))` for a lambda with effect `l`, the entry of a variable that
/// names a closure, `None` when the name is no closure.
pub open spec fn binding_effect(e: Expr, env: CallEnv, locals: Map<Seq<char>, Option<EffectLevel>>) -> Result<Option<Option<EffectLevel>>, EffectErr>
    decreases e, 2nat,
{
    match e {
        Expr::Lambda { params, body, .. } => match eff(*body, env, EffectLevel::Io, lambda_locals(params@, locals)) {
            Err(x) => Err(x),
            Ok(l) => Ok(Some(Some(l))),
        },
        Expr::Var(name, _) => Ok(if locals.contains_key(name@) { Some(locals[name@]) } else { None }),
        _ => Ok(None),
    }
}

/// The effects of the statements `ss`, joined onto `acc`, with the closure
/// table they leave behind.
pub open spec fn eff_stmts(ss: Seq<Stmt>, env: CallEnv, allowed: EffectLevel, locals: Map<Seq<char>, Option<EffectLevel>>, acc: EffectLevel) -> Result<(EffectLevel, Map<Seq<char>, Option<EffectLevel>>), EffectErr>
    decreases ss, 0nat,
{
    if ss.len() == 0 {
        Ok((acc, locals))
    } else {
        match ss[0] {
            Stmt::Let { name, expr, .. } => match eff(*expr, env, allowed, locals) {
                Err(x) => Err(x),
                Ok(l) => match binding_effect(*expr, env, locals) {
                    Err(x) => Err(x),
                    Ok(b) => {
                        let next = match b {
                            Some(be) => locals.insert(name@, be),
                            None => locals.remove(name@),
                        };
                        eff_stmts(ss.drop_first(), env, allowed, next, join_spec(acc, l))
                    },
                },
            },
            Stmt::Expr { expr, .. } => match eff(*expr, env, allowed, locals) {
                Err(x) => Err(x),
                Ok(l) => eff_stmts(ss.drop_first(), env, allowed, locals, join_spec(acc, l)),
            },
            Stmt::While { cond, loop_invariant, variant, body, .. } => match eff(*cond, env, allowed, locals) {
                Err(x) => Err(x),
                Ok(c) => match eff(*loop_invariant, env, allowed, locals) {
                    Err(x) => Err(x),
                    Ok(i) => {
                        let v = match variant {
                            Some(v) => eff(*v, env, allowed, locals),
                            None => Ok(EffectLevel::Pure),
                        };
                        match v {
                            Err(x) => Err(x),
                            Ok(vl) => match eff_block(*body, env, allowed, locals) {
                                Err(x) => Err(x),
                                Ok(b) => eff_stmts(
                                    ss.drop_first(),
                                    env,
                                    allowed,
                                    locals,
                                    join_spec(join_spec(join_spec(join_spec(acc, c), i), vl), b),
                                ),
                            },
                        }
                    },
                },
            },
        }
    }
}

/// The effect of a block.
pub open spec fn eff_block(b: Block, env: CallEnv, allowed: EffectLevel, locals: Map<Seq<char>, Option<EffectLevel>>) -> Result<EffectLevel, EffectErr>
    decreases b, 0nat,
{
    match eff_stmts(b.statements@, env, allowed, locals, EffectLevel::Pure) {
        Err(x) => Err(x),
        Ok((acc, after)) => match b.tail {
            None => Ok(acc),
            Some(t) => match eff(*t, env, allowed, after) {
                Err(x) => Err(x),
                Ok(l) => Ok(join_spec(acc, l)),
            },
        },
    }
}

/// How an executable outcome of effect checking matches the specified one.
pub open spec fn effect_outcome(r: Result<EffectLevel, TyperError>, s: Result<EffectLevel, EffectErr>) -> bool {
    match r {
        Ok(l) => s == Ok::<EffectLevel, EffectErr>(l),
        Err(e) => s is Err && is_effect_error(e, s->Err_0),
    }
}

fn lambda_locals_exec(params: &Vec<Param>, locals: &FnValueEffects) -> (r: FnValueEffects)
    ensures
        r@ == lambda_locals(params@, locals@),
{
    let mut out = locals.duplicate();
    let mut i: usize = 0;
    assert(params@.subrange(0, params@.len() as int) =~= params@);
    while i < params.len()
        invariant
            i <= params@.len(),
            lambda_locals(params@, locals@) == lambda_locals(params@.subrange(i as int, params@.len() as int), out@),
        decreases params.len() - i,
    {
        let ghost rest = params@.subrange(i as int, params@.len() as int);
        assert(rest.drop_first() =~= params@.subrange(i as int + 1, params@.len() as int));
        assert(rest[0] == params@[i as int]);
        let p = &params[i];
        match &p.ty {
            Type::Fn { .. } => out.insert(p.name.clone(), None),
            _ => out.remove(p.name.as_str()),
        }
        i = i + 1;
    }
    assert(params@.subrange(params@.len() as int, params@.len() as int) =~= Seq::<Param>::empty());
    out
}

fn remove_names_exec(names: &Vec<String>, locals: &mut FnValueEffects)
    ensures
        final(locals)@ == remove_names(names@, old(locals)@),
{
    let mut i: usize = 0;
    assert(names@.subrange(0, names@.len() as int) =~= names@);
    while i < names.len()
        invariant
            i <= names@.len(),
            remove_names(names@, old(locals)@) == remove_names(names@.subrange(i as int, names@.len() as int), locals@),
        decreases names.len() - i,
    {
        let ghost rest = names@.subrange(i as int, names@.len() as int);
        assert(rest.drop_first() =~= names@.subrange(i as int + 1, names@.len() as int));
        assert(rest[0] == names@[i as int]);
        locals.remove(names[i].as_str());
        i = i + 1;
    }
    assert(names@.subrange(names@.len() as int, names@.len() as int) =~= Seq::<String>::empty());
}

fn arm_locals_exec(pat: &MatchPat, locals: &FnValueEffects) -> (r: FnValueEffects)
    ensures
        r@ == arm_locals(*pat, locals@),
{
    let mut out = locals.duplicate();
    match pat {
        MatchPat::SomeBind(n) | MatchPat::OkBind(n) | MatchPat::ErrBind(n) => out.remove(n.as_str()),
        MatchPat::EnumVariant { binders, .. } => remove_names_exec(binders, &mut out),
        _ => {},
    }
    out
}

fn eff_list_exec(
    es: &Vec<Expr>,
    fns: &NameMap<FnSig>,
    trait_env: &TraitEnv,
    allowed: EffectLevel,
    fn_locals: &FnValueEffects,
    start: EffectLevel,
) -> (r: Result<EffectLevel, TyperError>)
    ensures
        effect_outcome(r, eff_list(es@, call_env(fns@, *trait_env), allowed, fn_locals@, start)),
    decreases es, 0nat,
{
    let ghost env = call_env(fns@, *trait_env);
    let mut acc = start;
    let mut i: usize = 0;
    assert(es@.subrange(0, es@.len() as int) =~= es@);
    while i < es.len()
        invariant
            i <= es@.len(),
            env == call_env(fns@, *trait_env),
            eff_list(es@, env, allowed, fn_locals@, start) == eff_list(es@.subrange(i as int, es@.len() as int), env, allowed, fn_locals@, acc),
        decreases es.len() - i,
    {
        assert(decreases_to!(es => es@[i as int]));
        let ghost rest = es@.subrange(i as int, es@.len() as int);
        assert(rest.drop_first() =~= es@.subrange(i as int + 1, es@.len() as int));
        assert(rest[0] == es@[i as int]);
        let l = match max_effect_with_locals(&es[i], fns, trait_env, allowed, fn_locals) {
            Ok(l) => l,
            Err(e) => return Err(e),
        };
        acc = acc.join(l);
        i = i + 1;
    }
    assert(es@.subrange(es@.len() as int, es@.len() as int) =~= Seq::<Expr>::empty());
    Ok(acc)
}

fn eff_fields_exec(
    fs: &Vec<FieldInit>,
    fns: &NameMap<FnSig>,
    trait_env: &TraitEnv,
    allowed: EffectLevel,
    fn_locals: &FnValueEffects,
) -> (r: Result<EffectLevel, TyperError>)
    ensures
        effect_outcome(r, eff_fields(fs@, call_env(fns@, *trait_env), allowed, fn_locals@, EffectLevel::Pure)),
    decreases fs, 0nat,
{
    let ghost env = call_env(fns@, *trait_env);
    let mut acc = EffectLevel::Pure;
    let mut i: usize = 0;
    assert(fs@.subrange(0, fs@.len() as int) =~= fs@);
    while i < fs.len()
        invariant
            i <= fs@.len(),
            env == call_env(fns@, *trait_env),
            eff_fields(fs@, env, allowed, fn_locals@, EffectLevel::Pure) == eff_fields(fs@.subrange(i as int, fs@.len() as int), env, allowed, fn_locals@, acc),
        decreases fs.len() - i,
    {
        assert(decreases_to!(fs => fs@[i as int]));
        let ghost rest = fs@.subrange(i as int, fs@.len() as int);
        assert(rest.drop_first() =~= fs@.subrange(i as int + 1, fs@.len() as int));
        assert(rest[0] == fs@[i as int]);
        let l = match max_effect_with_locals(&fs[i].expr, fns, trait_env, allowed, fn_locals) {
            Ok(l) => l,
            Err(e) => return Err(e),
        };
        acc = acc.join(l);
        i = i + 1;
    }
    assert(fs@.subrange(fs@.len() as int, fs@.len() as int) =~= Seq::<FieldInit>::empty());
    Ok(acc)
}

fn eff_arms_exec(
    arms: &Vec<MatchArm>,
    fns: &NameMap<FnSig>,
    trait_env: &TraitEnv,
    allowed: EffectLevel,
    fn_locals: &FnValueEffects,
    start: EffectLevel,
) -> (r: Result<EffectLevel, TyperError>)
    ensures
        effect_outcome(r, eff_arms(arms@, call_env(fns@, *trait_env), allowed, fn_locals@, start)),
    decreases arms, 0nat,
{
    let ghost env = call_env(fns@, *trait_env);
    let mut acc = start;
    let mut i: usize = 0;
    assert(arms@.subrange(0, arms@.len() as int) =~= arms@);
    while i < arms.len()
        invariant
            i <= arms@.len(),
            env == call_env(fns@, *trait_env),
            eff_arms(arms@, env, allowed, fn_locals@, start) == eff_arms(arms@.subrange(i as int, arms@.len() as int), env, allowed, fn_locals@, acc),
        decreases arms.len() - i,
    {
        assert(decreases_to!(arms => arms@[i as int]));
        let ghost rest = arms@.subrange(i as int, arms@.len() as int);
        assert(rest.drop_first() =~= arms@.subrange(i as int + 1, arms@.len() as int));
        assert(rest[0] == arms@[i as int]);
        let arm_env = arm_locals_exec(&arms[i].pat, fn_locals);
        let l = match max_effect_with_locals(&arms[i].expr, fns, trait_env, allowed, &arm_env) {
            Ok(l) => l,
            Err(e) => return Err(e),
        };
        acc = acc.join(l);
        i = i + 1;
    }
    assert(arms@.subrange(arms@.len() as int, arms@.len() as int) =~= Seq::<MatchArm>::empty());
    Ok(acc)
}

fn infer_fn_binding_effect(
    expr: &Expr,
    fns: &NameMap<FnSig>,
    trait_env: &TraitEnv,
    fn_locals: &FnValueEffects,
) -> (r: Result<Option<Option<EffectLevel>>, TyperError>)
    ensures
        match r {
            Ok(b) => binding_effect(*expr, call_env(fns@, *trait_env), fn_locals@) == Ok::<Option<Option<EffectLevel>>, EffectErr>(b),
            Err(e) => binding_effect(*expr, call_env(fns@, *trait_env), fn_locals@) is Err
                && is_effect_error(e, binding_effect(*expr, call_env(fns@, *trait_env), fn_locals@)->Err_0),
        },
    decreases expr, 2nat,
{
    match expr {
        Expr::Lambda { params, body, .. } => {
            let lambda_env = lambda_locals_exec(params, fn_locals);
            match max_effect_with_locals(body, fns, trait_env, EffectLevel::Io, &lambda_env) {
                Ok(l) => Ok(Some(Some(l))),
                Err(e) => Err(e),
            }
        },
        Expr::Var(name, _) => match fn_locals.get(name.as_str()) {
            Some(v) => Ok(Some(*v)),
            None => Ok(None),
        },
        _ => Ok(None),
    }
}

fn block_effect(
    block: &Block,
    fns: &NameMap<FnSig>,
    trait_env: &TraitEnv,
    allowed: EffectLevel,
    fn_locals: &FnValueEffects,
) -> (r: Result<EffectLevel, TyperError>)
    ensures
        effect_outcome(r, eff_block(*block, call_env(fns@, *trait_env), allowed, fn_locals@)),
    decreases block, 0nat,
{
    let ghost env = call_env(fns@, *trait_env);
    let ghost ss = block.statements@;
    let mut eff = EffectLevel::Pure;
    let mut block_locals = fn_locals.duplicate();
    let mut i: usize = 0;
    assert(ss.subrange(0, ss.len() as int) =~= ss);
    while i < block.statements.len()
        invariant
            i <= ss.len(),
            ss == block.statements@,
            env == call_env(fns@, *trait_env),
            eff_stmts(ss, env, allowed, fn_locals@, EffectLevel::Pure)
                == eff_stmts(ss.subrange(i as int, ss.len() as int), env, allowed, block_locals@, eff),
        decreases ss.len() - i,
    {
        assert(decreases_to!(block => block.statements));
        assert(decreases_to!(block.statements => block.statements@[i as int]));
        let ghost rest = ss.subrange(i as int, ss.len() as int);
        assert(rest.drop_first() =~= ss.subrange(i as int + 1, ss.len() as int));
        assert(rest[0] == ss[i as int]);
        match &block.statements[i] {
            Stmt::Let { name, expr, .. } => {
                let l = match max_effect_with_locals(expr, fns, trait_env, allowed, &block_locals) {
                    Ok(l) => l,
                    Err(e) => return Err(e),
                };
                let b = match infer_fn_binding_effect(expr, fns, trait_env, &block_locals) {
                    Ok(b) => b,
                    Err(e) => return Err(e),
                };
                match b {
                    Some(be) => block_locals.insert(name.clone(), be),
                    None => block_locals.remove(name.as_str()),
                }
                eff = eff.join(l);
            },
            Stmt::Expr { expr, .. } => {
                let l = match max_effect_with_locals(expr, fns, trait_env, allowed, &block_locals) {
                    Ok(l) => l,
                    Err(e) => return Err(e),
                };
                eff = eff.join(l);
            },
            Stmt::While { cond, loop_invariant, variant, body, .. } => {
                let c = match max_effect_with_locals(cond, fns, trait_env, allowed, &block_locals) {
                    Ok(l) => l,
                    Err(e) => return Err(e),
                };
                let inv = match max_effect_with_locals(loop_invariant, fns, trait_env, allowed, &block_locals) {
                    Ok(l) => l,
                    Err(e) => return Err(e),
                };
                let v = match variant {
                    Some(v) => match max_effect_with_locals(v, fns, trait_env, allowed, &block_locals) {
                        Ok(l) => l,
                        Err(e) => return Err(e),
                    },
                    None => EffectLevel::Pure,
                };
                let b = match block_effect(body, fns, trait_env, allowed, &block_locals) {
                    Ok(l) => l,
                    Err(e) => return Err(e),
                };
                eff = eff.join(c).join(inv).join(v).join(b);
            },
        }
        i = i + 1;
    }
    assert(ss.subrange(ss.len() as int, ss.len() as int) =~= Seq::<Stmt>::empty());
    match &block.tail {
        None => Ok(eff),
        Some(tail) => match max_effect_with_locals(tail, fns, trait_env, allowed, &block_locals) {
            Ok(l) => Ok(eff.join(l)),
            Err(e) => Err(e),
        },
    }
}

fn special_call(
    what: &str,
    args: &Vec<Expr>,
    span: Span,
    fns: &NameMap<FnSig>,
    trait_env: &TraitEnv,
    allowed: EffectLevel,
    fn_locals: &FnValueEffects,
) -> (r: Result<EffectLevel, TyperError>)
    ensures
        effect_outcome(r, if rank(allowed) < 1 {
            Err(effect_err(what@, "mut"@, span))
        } else {
            eff_list(args@, call_env(fns@, *trait_env), allowed, fn_locals@, EffectLevel::Mut)
        }),
    decreases args, 1nat,
{
    if allowed.rank() < 1 {
        return Err(TyperError::effect_required(what, "mut", span));
    }
    eff_list_exec(args, fns, trait_env, allowed, fn_locals, EffectLevel::Mut)
}

/// The effect of `e` given the effects of local closures; fails on the
/// first call that needs more than `allowed`.
#[verifier::rlimit(60)]
pub fn max_effect_with_locals(
    e: &Expr,
    fns: &NameMap<FnSig>,
    trait_env: &TraitEnv,
    allowed: EffectLevel,
    fn_locals: &FnValueEffects,
) -> (r: Result<EffectLevel, TyperError>)
    ensures
        effect_outcome(r, eff(*e, call_env(fns@, *trait_env), allowed, fn_locals@)),
    decreases e, 1nat,
{
    match e {
        Expr::Block { block } => block_effect(block, fns, trait_env, allowed, fn_locals),
        Expr::Int(..) | Expr::Bool(..) | Expr::String(..) | Expr::Var(..) => Ok(EffectLevel::Pure),
        Expr::Return { expr, .. } | Expr::Unary { expr, .. } | Expr::Try { expr, .. } => {
            max_effect_with_locals(expr, fns, trait_env, allowed, fn_locals)
        },
        Expr::Bin { lhs, rhs, .. } => {
            let left = match max_effect_with_locals(lhs, fns, trait_env, allowed, fn_locals) {
                Ok(l) => l,
                Err(e) => return Err(e),
            };
            let right = match max_effect_with_locals(rhs, fns, trait_env, allowed, fn_locals) {
                Ok(l) => l,
                Err(e) => return Err(e),
            };
            Ok(left.join(right))
        },
        Expr::ArrayLit { elems, .. } | Expr::TupleLit { elems, .. } => {
            eff_list_exec(elems, fns, trait_env, allowed, fn_locals, EffectLevel::Pure)
        },
        Expr::StructLit { fields, .. } => eff_fields_exec(fields, fns, trait_env, allowed, fn_locals),
        Expr::FieldAccess { base, .. } => max_effect_with_locals(base, fns, trait_env, allowed, fn_locals),
        Expr::Index { base, index, .. } => {
            let base_eff = match max_effect_with_locals(base, fns, trait_env, allowed, fn_locals) {
                Ok(l) => l,
                Err(e) => return Err(e),
            };
            let index_eff = match max_effect_with_locals(index, fns, trait_env, allowed, fn_locals) {
                Ok(l) => l,
                Err(e) => return Err(e),
            };
            Ok(base_eff.join(index_eff))
        },
        Expr::If { cond, then_br, else_br, .. } => {
            let c = match max_effect_with_locals(cond, fns, trait_env, allowed, fn_locals) {
                Ok(l) => l,
                Err(e) => return Err(e),
            };
            let t = match max_effect_with_locals(then_br, fns, trait_env, allowed, fn_locals) {
                Ok(l) => l,
                Err(e) => return Err(e),
            };
            let f = match max_effect_with_locals(else_br, fns, trait_env, allowed, fn_locals) {
                Ok(l) => l,
                Err(e) => return Err(e),
            };
            Ok(c.join(t).join(f))
        },
        Expr::Match { scrutinee, arms, .. } => {
            let s = match max_effect_with_locals(scrutinee, fns, trait_env, allowed, fn_locals) {
                Ok(l) => l,
                Err(e) => return Err(e),
            };
            eff_arms_exec(arms, fns, trait_env, allowed, fn_locals, s)
        },
        Expr::Lambda { params, body, .. } => {
            let lambda_env = lambda_locals_exec(params, fn_locals);
            max_effect_with_locals(body, fns, trait_env, allowed, &lambda_env)
        },
        Expr::Call { callee, args, span } => {
            if str_eq(callee.as_str(), "__clg_old") {
                return eff_list_exec(args, fns, trait_env, allowed, fn_locals, EffectLevel::Pure);
            }
            if starts_with(callee.as_str(), "__clg_state_write$") {
                return special_call("state write", args, *span, fns, trait_env, allowed, fn_locals);
            }
            if starts_with(callee.as_str(), "__clg_event_emit$") {
                return special_call("event emission", args, *span, fns, trait_env, allowed, fn_locals);
            }
            if starts_with(callee.as_str(), "__clg_external_call$") {
                return special_call("external call", args, *span, fns, trait_env, allowed, fn_locals);
            }
            let eff = match eff_list_exec(args, fns, trait_env, allowed, fn_locals, EffectLevel::Pure) {
                Ok(l) => l,
                Err(e) => return Err(e),
            };
            let call_eff = call_effect(callee.as_str(), fns, trait_env, fn_locals);
            if call_eff.rank() > allowed.rank() {
                return Err(TyperError::effect_required(callee.as_str(), effect_label(call_eff), *span));
            }
            Ok(eff.join(call_eff))
        },
    }
}

/// The effect of `e`, which must not exceed `allowed`.
pub fn max_effect(e: &Expr, fns: &NameMap<FnSig>, trait_env: &TraitEnv, allowed: EffectLevel) -> (r: Result<EffectLevel, TyperError>)
    ensures
        effect_outcome(r, eff(*e, call_env(fns@, *trait_env), allowed, Map::empty())),
{
    let fn_locals: FnValueEffects = NameMap::new();
    max_effect_with_locals(e, fns, trait_env, allowed, &fn_locals)
}

// ---------------------------------------------------------------------------
// Laws

/// Effect checking never reports more than it allows, and allowing more
/// changes nothing for an expression that passes: when `e` passes under
/// `a`, its effect is at most `a`, and it passes with the same effect under
/// every `b` at least `a`.
pub proof fn lemma_eff_bounded(e: Expr, env: CallEnv, a: EffectLevel, b: EffectLevel, locals: Map<Seq<char>, Option<EffectLevel>>)
    requires
        eff(e, env, a, locals) is Ok,
        rank(a) <= rank(b),
    ensures
        rank(eff(e, env, a, locals)->Ok_0) <= rank(a),
        eff(e, env, b, locals) == eff(e, env, a, locals),
    decreases e, 1nat,
{
    match e {
        Expr::Block { block } => lemma_block_bounded(*block, env, a, b, locals),
        Expr::Return { expr, .. } => lemma_eff_bounded(*expr, env, a, b, locals),
        Expr::Unary { expr, .. } => lemma_eff_bounded(*expr, env, a, b, locals),
        Expr::Try { expr, .. } => lemma_eff_bounded(*expr, env, a, b, locals),
        Expr::Bin { lhs, rhs, .. } => {
            lemma_eff_bounded(*lhs, env, a, b, locals);
            lemma_eff_bounded(*rhs, env, a, b, locals);
        },
        Expr::ArrayLit { elems, .. } => lemma_list_bounded(elems@, env, a, b, locals, EffectLevel::Pure),
        Expr::TupleLit { elems, .. } => lemma_list_bounded(elems@, env, a, b, locals, EffectLevel::Pure),
        Expr::StructLit { fields, .. } => lemma_fields_bounded(fields@, env, a, b, locals, EffectLevel::Pure),
        Expr::FieldAccess { base, .. } => lemma_eff_bounded(*base, env, a, b, locals),
        Expr::Index { base, index, .. } => {
            lemma_eff_bounded(*base, env, a, b, locals);
            lemma_eff_bounded(*index, env, a, b, locals);
        },
        Expr::If { cond, then_br, else_br, .. } => {
            lemma_eff_bounded(*cond, env, a, b, locals);
            lemma_eff_bounded(*then_br, env, a, b, locals);
            lemma_eff_bounded(*else_br, env, a, b, locals);
        },
        Expr::Match { scrutinee, arms, .. } => {
            lemma_eff_bounded(*scrutinee, env, a, b, locals);
            let s0 = eff(*scrutinee, env, a, locals)->Ok_0;
            lemma_arms_bounded(arms@, env, a, b, locals, s0);
        },
        Expr::Lambda { params, body, .. } => lemma_eff_bounded(*body, env, a, b, lambda_locals(params@, locals)),
        Expr::Call { callee, args, span } => {
            if callee@ == "__clg_old"@ {
                lemma_list_bounded(args@, env, a, b, locals, EffectLevel::Pure);
            } else if has_prefix(callee@, "__clg_state_write$"@) || has_prefix(callee@, "__clg_event_emit$"@)
                || has_prefix(callee@, "__clg_external_call$"@) {
                lemma_list_bounded(args@, env, a, b, locals, EffectLevel::Mut);
            } else {
                lemma_list_bounded(args@, env, a, b, locals, EffectLevel::Pure);
            }
        },
        _ => {},
    }
}

proof fn lemma_list_bounded(es: Seq<Expr>, env: CallEnv, a: EffectLevel, b: EffectLevel, locals: Map<Seq<char>, Option<EffectLevel>>, acc: EffectLevel)
    requires
        eff_list(es, env, a, locals, acc) is Ok,
        rank(acc) <= rank(a),
        rank(a) <= rank(b),
    ensures
        rank(eff_list(es, env, a, locals, acc)->Ok_0) <= rank(a),
        eff_list(es, env, b, locals, acc) == eff_list(es, env, a, locals, acc),
    decreases es, 0nat,
{
    if es.len() > 0 {
        lemma_eff_bounded(es[0], env, a, b, locals);
        let l = eff(es[0], env, a, locals)->Ok_0;
        lemma_list_bounded(es.drop_first(), env, a, b, locals, join_spec(acc, l));
    }
}

proof fn lemma_fields_bounded(fs: Seq<FieldInit>, env: CallEnv, a: EffectLevel, b: EffectLevel, locals: Map<Seq<char>, Option<EffectLevel>>, acc: EffectLevel)
    requires
        eff_fields(fs, env, a, locals, acc) is Ok,
        rank(acc) <= rank(a),
        rank(a) <= rank(b),
    ensures
        rank(eff_fields(fs, env, a, locals, acc)->Ok_0) <= rank(a),
        eff_fields(fs, env, b, locals, acc) == eff_fields(fs, env, a, locals, acc),
    decreases fs, 0nat,
{
    if fs.len() > 0 {
        lemma_eff_bounded(fs[0].expr, env, a, b, locals);
        let l = eff(fs[0].expr, env, a, locals)->Ok_0;
        lemma_fields_bounded(fs.drop_first(), env, a, b, locals, join_spec(acc, l));
    }
}

proof fn lemma_arms_bounded(arms: Seq<MatchArm>, env: CallEnv, a: EffectLevel, b: EffectLevel, locals: Map<Seq<char>, Option<EffectLevel>>, acc: EffectLevel)
    requires
        eff_arms(arms, env, a, locals, acc) is Ok,
        rank(acc) <= rank(a),
        rank(a) <= rank(b),
    ensures
        rank(eff_arms(arms, env, a, locals, acc)->Ok_0) <= rank(a),
        eff_arms(arms, env, b, locals, acc) == eff_arms(arms, env, a, locals, acc),
    decreases arms, 0nat,
{
    if arms.len() > 0 {
        lemma_eff_bounded(arms[0].expr, env, a, b, arm_locals(arms[0].pat, locals));
        let l = eff(arms[0].expr, env, a, arm_locals(arms[0].pat, locals))->Ok_0;
        lemma_arms_bounded(arms.drop_first(), env, a, b, locals, join_spec(acc, l));
    }
}

#[verifier::rlimit(80)]
#[verifier::spinoff_prover]
proof fn lemma_stmts_bounded(ss: Seq<Stmt>, env: CallEnv, a: EffectLevel, b: EffectLevel, locals: Map<Seq<char>, Option<EffectLevel>>, acc: EffectLevel)
    requires
        eff_stmts(ss, env, a, locals, acc) is Ok,
        rank(acc) <= rank(a),
        rank(a) <= rank(b),
    ensures
        rank(eff_stmts(ss, env, a, locals, acc)->Ok_0.0) <= rank(a),
        eff_stmts(ss, env, b, locals, acc) == eff_stmts(ss, env, a, locals, acc),
    decreases ss, 0nat,
{
    if ss.len() > 0 {
        match ss[0] {
            Stmt::Let { name, expr, .. } => {
                lemma_eff_bounded(*expr, env, a, b, locals);
                let l = eff(*expr, env, a, locals)->Ok_0;
                let bnd = binding_effect(*expr, env, locals)->Ok_0;
                let next = match bnd {
                    Some(be) => locals.insert(name@, be),
                    None => locals.remove(name@),
                };
                lemma_stmts_bounded(ss.drop_first(), env, a, b, next, join_spec(acc, l));
            },
            Stmt::Expr { expr, .. } => {
                lemma_eff_bounded(*expr, env, a, b, locals);
                let l = eff(*expr, env, a, locals)->Ok_0;
                lemma_stmts_bounded(ss.drop_first(), env, a, b, locals, join_spec(acc, l));
            },
            Stmt::While { cond, loop_invariant, variant, body, .. } => {
                lemma_eff_bounded(*cond, env, a, b, locals);
                lemma_eff_bounded(*loop_invariant, env, a, b, locals);
                let c = eff(*cond, env, a, locals)->Ok_0;
                let i = eff(*loop_invariant, env, a, locals)->Ok_0;
                let vl = match variant {
                    Some(v) => {
                        lemma_eff_bounded(*v, env, a, b, locals);
                        eff(*v, env, a, locals)->Ok_0
                    },
                    None => EffectLevel::Pure,
                };
                lemma_block_bounded(*body, env, a, b, locals);
                let bd = eff_block(*body, env, a, locals)->Ok_0;
                lemma_stmts_bounded(
                    ss.drop_first(),
                    env,
                    a,
                    b,
                    locals,
                    join_spec(join_spec(join_spec(join_spec(acc, c), i), vl), bd),
                );
            },
        }
    }
}

proof fn lemma_block_bounded(blk: Block, env: CallEnv, a: EffectLevel, b: EffectLevel, locals: Map<Seq<char>, Option<EffectLevel>>)
    requires
        eff_block(blk, env, a, locals) is Ok,
        rank(a) <= rank(b),
    ensures
        rank(eff_block(blk, env, a, locals)->Ok_0) <= rank(a),
        eff_block(blk, env, b, locals) == eff_block(blk, env, a, locals),
    decreases blk, 0nat,
{
    lemma_stmts_bounded(blk.statements@, env, a, b, locals, EffectLevel::Pure);
    let after = eff_stmts(blk.statements@, env, a, locals, EffectLevel::Pure)->Ok_0.1;
    if let Some(t) = blk.tail {
        lemma_eff_bounded(*t, env, a, b, after);
    }
}

/// The console and environment builtins that the builtin table declares
/// with effect `io` are `io` to the effect checker too, whatever functions
/// or traits a program declares.
pub proof fn lemma_env_builtins_are_io(i: int)
    requires
        0 <= i < bytes_env_sigs().len(),
        bytes_env_sigs()[i].3 == Effect::Io,
    ensures
        builtin_effect_spec(bytes_env_sigs()[i].0) == Some(EffectLevel::Io),
{
    reveal_strlit("std::list::push_mut");
    reveal_strlit("std::list::insert_mut");
    reveal_strlit("std::list::remove_mut");
    reveal_strlit("std::list::pop_mut");
    reveal_strlit("std::set::insert_mut");
    reveal_strlit("std::set::remove_mut");
    reveal_strlit("std::map::insert_mut");
    reveal_strlit("std::map::remove_mut");
    reveal_strlit("Some");
    reveal_strlit("None");
    reveal_strlit("Ok");
    reveal_strlit("Err");
    reveal_strlit("U8");
    reveal_strlit("U64");
    reveal_strlit("U128");
    reveal_strlit("U256");
    reveal_strlit("std::list::push");
    reveal_strlit("std::list::insert");
    reveal_strlit("std::list::insert_checked");
    reveal_strlit("std::list::remove_take");
    reveal_strlit("std::list::remove_checked");
    reveal_strlit("std::map::insert_take");
    reveal_strlit("std::map::remove_take");
    reveal_strlit("std::wasi::print");
    reveal_strlit("std::env::time");
    reveal_strlit("std::env::chain_id");
    reveal_strlit("std::env::random");
    if i == 9 {
        assert(bytes_env_sigs()[9].0 == "std::wasi::print"@);
    }
    if i == 10 {
        assert(bytes_env_sigs()[10].0 == "std::env::time"@);
    }
    if i == 11 {
        assert(bytes_env_sigs()[11].0 == "std::env::chain_id"@);
        assert("std::env::chain_id"@ != "std::list::pop_mut"@) by {
            assert("std::env::chain_id"@[5] != "std::list::pop_mut"@[5]);
        }
    }
    if i == 12 {
        assert(bytes_env_sigs()[12].0 == "std::env::random"@);
    }
}

/// A call of one of those builtins where less than `io` is allowed is
/// refused as needing `io`, unless a local closure of that name hides it.
pub proof fn lemma_env_builtin_call_refused(i: int, callee: String, args: Vec<Expr>, span: Span, env: CallEnv, allowed: EffectLevel, locals: Map<Seq<char>, Option<EffectLevel>>)
    requires
        0 <= i < bytes_env_sigs().len(),
        bytes_env_sigs()[i].3 == Effect::Io,
        callee@ == bytes_env_sigs()[i].0,
        !locals.contains_key(callee@),
        rank(allowed) < rank(EffectLevel::Io),
        eff_list(args@, env, allowed, locals, EffectLevel::Pure) is Ok,
    ensures
        eff(Expr::Call { callee, args, span }, env, allowed, locals) == Err::<EffectLevel, EffectErr>(effect_err(callee@, "io"@, span)),
{
    lemma_env_builtins_are_io(i);
    assert(effect_label_spec(EffectLevel::Io) == "io"@);
    reveal_strlit("std::list::push_mut");
    reveal_strlit("std::list::insert_mut");
    reveal_strlit("std::list::remove_mut");
    reveal_strlit("std::list::pop_mut");
    reveal_strlit("std::set::insert_mut");
    reveal_strlit("std::set::remove_mut");
    reveal_strlit("std::map::insert_mut");
    reveal_strlit("std::map::remove_mut");
    reveal_strlit("Some");
    reveal_strlit("None");
    reveal_strlit("Ok");
    reveal_strlit("Err");
    reveal_strlit("U8");
    reveal_strlit("U64");
    reveal_strlit("U128");
    reveal_strlit("U256");
    reveal_strlit("std::list::push");
    reveal_strlit("std::list::insert");
    reveal_strlit("std::list::insert_checked");
    reveal_strlit("std::list::remove_take");
    reveal_strlit("std::list::remove_checked");
    reveal_strlit("std::map::insert_take");
    reveal_strlit("std::map::remove_take");
    reveal_strlit("std::wasi::print");
    reveal_strlit("std::env::time");
    reveal_strlit("std::env::chain_id");
    reveal_strlit("std::env::random");
    reveal_strlit("__clg_old");
    reveal_strlit("__clg_state_write$");
    reveal_strlit("__clg_event_emit$");
    reveal_strlit("__clg_external_call$");
    reveal_strlit("io");
    let c = callee@;
    assert(c[0] == 's') by {
        reveal_strlit("std::wasi::print");
        reveal_strlit("std::env::time");
        reveal_strlit("std::env::chain_id");
        reveal_strlit("std::env::random");
        if i == 9 { assert(c == "std::wasi::print"@); }
        if i == 10 { assert(c == "std::env::time"@); }
        if i == 11 { assert(c == "std::env::chain_id"@); }
        if i == 12 { assert(c == "std::env::random"@); }
    }
    assert(c != "__clg_old"@) by {
        assert("__clg_old"@[0] == '_');
    }
    assert(!has_prefix(c, "__clg_state_write$"@)) by {
        if has_prefix(c, "__clg_state_write$"@) {
            assert(c.subrange(0, "__clg_state_write$"@.len() as int)[0] == c[0]);
            assert("__clg_state_write$"@[0] == '_');
        }
    }
    assert(!has_prefix(c, "__clg_event_emit$"@)) by {
        if has_prefix(c, "__clg_event_emit$"@) {
            assert(c.subrange(0, "__clg_event_emit$"@.len() as int)[0] == c[0]);
            assert("__clg_event_emit$"@[0] == '_');
        }
    }
    assert(!has_prefix(c, "__clg_external_call$"@)) by {
        if has_prefix(c, "__clg_external_call$"@) {
            assert(c.subrange(0, "__clg_external_call$"@.len() as int)[0] == c[0]);
            assert("__clg_external_call$"@[0] == '_');
        }
    }
}

} // verus!
