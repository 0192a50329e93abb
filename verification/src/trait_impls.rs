use vstd::prelude::*;
use crate::display::{show, show_ty};
use crate::ast::Func;
use crate::env::{ImplInfo, TraitBound, TraitEnv, TraitMethod};
use crate::errors::{at_span, candidates_text, candidates_view, TyperError};
use crate::generics::{BoundsMap, param_names, pattern_match, pattern_match_all, type_param_names, type_pattern_matches};
use crate::names::NameSet;
use crate::text::str_eq;
use crate::ty::{copy_type, type_eq, Span, Ty, Type};
use crate::type_params::{subst_ty, substitute_type, type_contains_params, TypeSubst};
use crate::type_resolve::{decided_as, AliasMap, AliasV};

verus! {

/// The number of type constructors in `t`.
pub open spec fn ty_size(t: Ty) -> nat
    decreases t, 1nat,
{
    match t {
        Ty::Named { args, .. } => 1 + tys_size(args),
        Ty::Option(x) => 1 + ty_size(*x),
        Ty::List(x) => 1 + ty_size(*x),
        Ty::SetOf(x) => 1 + ty_size(*x),
        Ty::Slice(x) => 1 + ty_size(*x),
        Ty::Array(x, _) => 1 + ty_size(*x),
        Ty::Result(x, y) => 1 + ty_size(*x) + ty_size(*y),
        Ty::MapOf(x, y) => 1 + ty_size(*x) + ty_size(*y),
        Ty::Tuple(xs) => 1 + tys_size(xs),
        _ => 1,
    }
}

pub open spec fn tys_size(s: Seq<Ty>) -> nat
    decreases s, 0nat,
{
    if s.len() == 0 {
        0
    } else {
        ty_size(s[0]) + tys_size(s.drop_first())
    }
}

/// `v` is `a` or smaller than it.
pub open spec fn within(v: Ty, a: Ty) -> bool {
    v == a || ty_size(v) < ty_size(a)
}

/// Every binding of `m` is one of `s`, or is `within` `a`.
pub open spec fn bindings_within(m: Map<Seq<char>, Ty>, s: Map<Seq<char>, Ty>, a: Ty) -> bool {
    forall|k: Seq<char>| #[trigger] m.contains_key(k) ==> (s.contains_key(k) && m[k] == s[k]) || within(m[k], a)
}

/// Every binding of `m` is one of `s`, or is no larger than the list `xs`.
pub open spec fn bindings_within_list(m: Map<Seq<char>, Ty>, s: Map<Seq<char>, Ty>, xs: Seq<Ty>) -> bool {
    forall|k: Seq<char>| #[trigger] m.contains_key(k) ==> (s.contains_key(k) && m[k] == s[k]) || ty_size(m[k]) <= tys_size(xs)
}

proof fn lemma_elem_size(s: Seq<Ty>, i: int)
    requires
        0 <= i < s.len(),
    ensures
        ty_size(s[i]) <= tys_size(s),
    decreases s.len(),
{
    if i > 0 {
        lemma_elem_size(s.drop_first(), i - 1);
        assert(s.drop_first()[i - 1] == s[i]);
    }
}

proof fn lemma_drop_first_size(s: Seq<Ty>)
    requires
        s.len() > 0,
    ensures
        tys_size(s.drop_first()) <= tys_size(s),
{
}

/// The bindings that matching a pattern adds are parts of the matched type.
pub proof fn lemma_pattern_match_within(p: Ty, a: Ty, params: Set<Seq<char>>, s: Map<Seq<char>, Ty>, al: Map<Seq<char>, AliasV>)
    ensures
        bindings_within(pattern_match(p, a, params, s, al).0, s, a),
    decreases p, 1nat,
{
    let m = pattern_match(p, a, params, s, al).0;
    match p {
        Ty::Named { name, args } => {
            if args.len() == 0 && params.contains(name) {
            } else {
                match a {
                    Ty::Named { name: an, args: aargs } => if name == an && args.len() == aargs.len() {
                        lemma_pattern_match_all_within(args, aargs, params, s, al);
                    },
                    _ => {},
                }
            }
        },
        Ty::Option(x) => match a {
            Ty::Option(y) => lemma_pattern_match_within(*x, *y, params, s, al),
            _ => {},
        },
        Ty::List(x) => match a {
            Ty::List(y) => lemma_pattern_match_within(*x, *y, params, s, al),
            _ => {},
        },
        Ty::SetOf(x) => match a {
            Ty::SetOf(y) => lemma_pattern_match_within(*x, *y, params, s, al),
            _ => {},
        },
        Ty::Slice(x) => match a {
            Ty::Slice(y) => lemma_pattern_match_within(*x, *y, params, s, al),
            _ => {},
        },
        Ty::Array(x, _) => match a {
            Ty::Array(y, _) => lemma_pattern_match_within(*x, *y, params, s, al),
            _ => {},
        },
        Ty::Result(x1, x2) => match a {
            Ty::Result(y1, y2) => {
                lemma_pattern_match_within(*x1, *y1, params, s, al);
                let s1 = pattern_match(*x1, *y1, params, s, al).0;
                lemma_pattern_match_within(*x2, *y2, params, s1, al);
            },
            _ => {},
        },
        Ty::MapOf(x1, x2) => match a {
            Ty::MapOf(y1, y2) => {
                lemma_pattern_match_within(*x1, *y1, params, s, al);
                let s1 = pattern_match(*x1, *y1, params, s, al).0;
                lemma_pattern_match_within(*x2, *y2, params, s1, al);
            },
            _ => {},
        },
        Ty::Tuple(xs) => match a {
            Ty::Tuple(ys) => if xs.len() == ys.len() {
                lemma_pattern_match_all_within(xs, ys, params, s, al);
            },
            _ => {},
        },
        _ => {},
    }
}

pub proof fn lemma_pattern_match_all_within(ps: Seq<Ty>, xs: Seq<Ty>, params: Set<Seq<char>>, s: Map<Seq<char>, Ty>, al: Map<Seq<char>, AliasV>)
    requires
        ps.len() == xs.len(),
    ensures
        bindings_within_list(pattern_match_all(ps, xs, params, s, al).0, s, xs),
    decreases ps, 0nat,
{
    if ps.len() > 0 {
        lemma_pattern_match_within(ps[0], xs[0], params, s, al);
        lemma_elem_size(xs, 0);
        let s1 = pattern_match(ps[0], xs[0], params, s, al).0;
        lemma_pattern_match_all_within(ps.drop_first(), xs.drop_first(), params, s1, al);
        lemma_drop_first_size(xs);
    }
}

/// The trait names that the impls' `where` bounds mention.
pub open spec fn bound_traits(env: Seq<ImplInfo>) -> Set<Seq<char>>
    decreases env.len(),
{
    if env.len() == 0 {
        Set::empty()
    } else {
        bound_traits(env.drop_last()).union(
            env.last().decl.where_bounds@.map_values(|b: TraitBound| b.trait_name@).to_set(),
        )
    }
}

pub proof fn lemma_bound_traits(env: Seq<ImplInfo>)
    ensures
        bound_traits(env).finite(),
        forall|i: int, j: int| 0 <= i < env.len() && 0 <= j < env[i].decl.where_bounds@.len()
            ==> bound_traits(env).contains(#[trigger] env[i].decl.where_bounds@[j].trait_name@),
    decreases env.len(),
{
    if env.len() > 0 {
        let init = env.drop_last();
        lemma_bound_traits(init);
        let last = env.last().decl.where_bounds@.map_values(|b: TraitBound| b.trait_name@);
        assert forall|i: int, j: int| 0 <= i < env.len() && 0 <= j < env[i].decl.where_bounds@.len()
            implies bound_traits(env).contains(#[trigger] env[i].decl.where_bounds@[j].trait_name@) by {
            if i < env.len() - 1 {
                assert(init[i] == env[i]);
            } else {
                assert(last[j] == env[i].decl.where_bounds@[j].trait_name@);
                assert(last.to_set().contains(last[j]));
            }
        }
    }
}

/// The key under which looking for an impl of `t` for `ty` is recorded.
pub open spec fn impl_key(t: Seq<char>, ty: Ty) -> Seq<char> {
    t + "::"@ + show(ty)
}

/// The bound traits not yet being looked for on `ty`.
pub open spec fn open_traits(env: Seq<ImplInfo>, ty: Ty, v: Set<Seq<char>>) -> nat {
    bound_traits(env).filter(|tt: Seq<char>| !v.contains(impl_key(tt, ty))).len()
}

/// How much looking for an impl of `t` for `ty` may still recurse on `ty`
/// itself.
pub open spec fn visit_weight(env: Seq<ImplInfo>, t: Seq<char>, ty: Ty, v: Set<Seq<char>>) -> nat {
    2 * open_traits(env, ty, v) + if bound_traits(env).contains(t) { 0nat } else { 2nat }
}

pub proof fn lemma_key_injective(t1: Seq<char>, t2: Seq<char>, ty: Ty)
    requires
        impl_key(t1, ty) == impl_key(t2, ty),
    ensures
        t1 == t2,
{
    let k1 = impl_key(t1, ty);
    let k2 = impl_key(t2, ty);
    assert(k1.len() == t1.len() + "::"@.len() + show(ty).len());
    assert(k2.len() == t2.len() + "::"@.len() + show(ty).len());
    assert(t1.len() == t2.len());
    assert forall|i: int| 0 <= i < t1.len() implies t1[i] == t2[i] by {
        assert(k1[i] == (t1 + "::"@)[i]);
        assert(k2[i] == (t2 + "::"@)[i]);
    }
    assert(t1 =~= t2);
}

/// Recording the key of `t` on `ty` closes one bound trait, if `t` is one.
pub proof fn lemma_open_traits_step(env: Seq<ImplInfo>, t: Seq<char>, ty: Ty, v: Set<Seq<char>>)
    requires
        !v.contains(impl_key(t, ty)),
    ensures
        bound_traits(env).contains(t) ==> open_traits(env, ty, v.insert(impl_key(t, ty))) + 1 == open_traits(env, ty, v),
        !bound_traits(env).contains(t) ==> open_traits(env, ty, v.insert(impl_key(t, ty))) == open_traits(env, ty, v),
{
    lemma_bound_traits(env);
    let bt = bound_traits(env);
    let before = bt.filter(|tt: Seq<char>| !v.contains(impl_key(tt, ty)));
    let after = bt.filter(|tt: Seq<char>| !v.insert(impl_key(t, ty)).contains(impl_key(tt, ty)));
    assert forall|tt: Seq<char>| after.contains(tt) <==> #[trigger] before.remove(t).contains(tt) by {
        if impl_key(tt, ty) == impl_key(t, ty) {
            lemma_key_injective(tt, t, ty);
        }
    }
    assert(after =~= before.remove(t));
    if bt.contains(t) {
        assert(before.contains(t));
    } else {
        assert(before.remove(t) =~= before);
    }
}

/// Whether an impl of trait `t` exists for `ty`, keys in `v` counting as
/// found (a search already under way): some impl of `t` must match `ty`,
/// bind all its type parameters, and have each `where` bound met by the type
/// bound to its parameter. Every impl is examined, in order, so a failure
/// of alias expansion in any of them is reported.
pub open spec fn impl_exists(t: Seq<char>, ty: Ty, env: Seq<ImplInfo>, al: Map<Seq<char>, AliasV>, v: Set<Seq<char>>) -> Result<bool, Seq<char>>
    decreases ty_size(ty), visit_weight(env, t, ty, v), 2nat, 0int,
{
    if v.contains(impl_key(t, ty)) {
        Ok(true)
    } else {
        proof {
            lemma_open_traits_step(env, t, ty, v);
        }
        impls_match(t, ty, env, al, v.insert(impl_key(t, ty)), 0)
    }
}

/// The impl at `i` is for trait `t` and its pattern matches `ty`.
pub open spec fn impl_applies(t: Seq<char>, ty: Ty, env: Seq<ImplInfo>, al: Map<Seq<char>, AliasV>, i: int) -> Result<bool, Seq<char>> {
    let d = env[i].decl;
    let params = param_names(d.type_params@);
    if d.trait_name@ != t {
        Ok(false)
    } else {
        let (m, o) = pattern_match(d.for_type@, ty, params, Map::empty(), al);
        match o {
            Err(x) => Err(x),
            Ok(false) => Ok(false),
            Ok(true) => Ok(forall|p: Seq<char>| #[trigger] params.contains(p) ==> m.contains_key(p)),
        }
    }
}

/// The substitution that the impl at `i` binds on `ty`.
pub open spec fn impl_binding(ty: Ty, env: Seq<ImplInfo>, al: Map<Seq<char>, AliasV>, i: int) -> Map<Seq<char>, Ty> {
    pattern_match(env[i].decl.for_type@, ty, param_names(env[i].decl.type_params@), Map::empty(), al).0
}

/// Whether one of the impls from `i` on provides `t` for `ty`.
pub open spec fn impls_match(t: Seq<char>, ty: Ty, env: Seq<ImplInfo>, al: Map<Seq<char>, AliasV>, v: Set<Seq<char>>, i: int) -> Result<bool, Seq<char>>
    decreases ty_size(ty), 2 * open_traits(env, ty, v) + 1, 1nat, env.len() - i,
{
    if i < 0 || i >= env.len() {
        Ok(false)
    } else {
        let here = match impl_applies(t, ty, env, al, i) {
            Err(x) => Err(x),
            Ok(false) => Ok(false),
            Ok(true) => bounds_hold(ty, env, al, v, i, 0),
        };
        match here {
            Err(x) => Err(x),
            Ok(b) => match impls_match(t, ty, env, al, v, i + 1) {
                Err(x) => Err(x),
                Ok(c) => Ok(b || c),
            },
        }
    }
}

/// Whether the `where` bounds of the impl at `i`, from the `j`-th on, are
/// met under the substitution it binds on `ty`.
pub open spec fn bounds_hold(ty: Ty, env: Seq<ImplInfo>, al: Map<Seq<char>, AliasV>, v: Set<Seq<char>>, i: int, j: int) -> Result<bool, Seq<char>>
    decreases ty_size(ty), 2 * open_traits(env, ty, v) + 1, 0nat, env[i].decl.where_bounds@.len() - j,
{
    let bs = env[i].decl.where_bounds@;
    let m = impl_binding(ty, env, al, i);
    if i < 0 || i >= env.len() || j < 0 || j >= bs.len() {
        Ok(true)
    } else if !m.contains_key(bs[j].param@) {
        Ok(false)
    } else {
        proof {
            lemma_pattern_match_within(env[i].decl.for_type@, ty, param_names(env[i].decl.type_params@), Map::empty(), al);
            lemma_bound_traits(env);
            assert(bound_traits(env).contains(bs[j].trait_name@));
        }
        match impl_exists(bs[j].trait_name@, m[bs[j].param@], env, al, v) {
            Err(x) => Err(x),
            Ok(false) => Ok(false),
            Ok(true) => bounds_hold(ty, env, al, v, i, j + 1),
        }
    }
}

/// A search result combined with what was already found.
pub open spec fn or_found(found: bool, r: Result<bool, Seq<char>>) -> Result<bool, Seq<char>> {
    match r {
        Err(x) => Err(x),
        Ok(c) => Ok(found || c),
    }
}

fn impl_key_string(trait_name: &str, ty: &Type) -> (r: String)
    ensures
        r@ == impl_key(trait_name@, ty@),
{
    let mut s = String::new();
    s.append(trait_name);
    s.append("::");
    let shown = show_ty(ty);
    s.append(shown.as_str());
    s
}

/// Whether every declared parameter of the impl is bound by `subst`.
fn all_params_bound(imp: &ImplInfo, subst: &TypeSubst) -> (r: bool)
    ensures
        r == forall|p: Seq<char>| #[trigger] param_names(imp.decl.type_params@).contains(p) ==> subst@.contains_key(p),
{
    let ps = &imp.decl.type_params;
    let mut k: usize = 0;
    while k < ps.len()
        invariant
            k <= ps@.len(),
            ps@ == imp.decl.type_params@,
            forall|q: int| 0 <= q < k ==> subst@.contains_key((#[trigger] ps@[q]).name@),
        decreases ps.len() - k,
    {
        if !subst.contains_key(ps[k].name.as_str()) {
            proof {
                let p = ps@[k as int].name@;
                assert(param_names(ps@).contains(p));
                assert(!subst@.contains_key(p));
            }
            return false;
        }
        k = k + 1;
    }
    proof {
        assert forall|p: Seq<char>| #[trigger] param_names(ps@).contains(p) implies subst@.contains_key(p) by {
            let q = choose|q: int| 0 <= q < ps@.len() && (#[trigger] ps@[q]).name@ == p;
        }
    }
    true
}

fn where_bounds_met(ty: &Type, trait_env: &TraitEnv, aliases: &AliasMap, i: usize, subst: &TypeSubst, visiting: &mut NameSet) -> (r: Result<bool, TyperError>)
    requires
        i < trait_env.impls@.len(),
        subst@ == impl_binding(ty@, trait_env.impls@, aliases@, i as int),
    ensures
        decided_as(r, bounds_hold(ty@, trait_env.impls@, aliases@, old(visiting)@, i as int, 0), aliases@),
        r is Ok ==> final(visiting)@ == old(visiting)@,
    decreases ty_size(ty@), 2 * open_traits(trait_env.impls@, ty@, old(visiting)@) + 1, 1nat, 0int,
{
    let ghost env = trait_env.impls@;
    let ghost v = visiting@;
    proof {
        lemma_pattern_match_within(env[i as int].decl.for_type@, ty@, param_names(env[i as int].decl.type_params@), Map::empty(), aliases@);
        lemma_bound_traits(env);
    }
    let bounds = &trait_env.impls[i].decl.where_bounds;
    let mut j: usize = 0;
    while j < bounds.len()
        invariant
            j <= bounds@.len(),
            i < env.len(),
            env == trait_env.impls@,
            bounds@ == env[i as int].decl.where_bounds@,
            visiting@ == v,
            v == old(visiting)@,
            subst@ == impl_binding(ty@, env, aliases@, i as int),
            bindings_within(subst@, Map::empty(), ty@),
            forall|a: int, b: int| 0 <= a < env.len() && 0 <= b < env[a].decl.where_bounds@.len()
                ==> bound_traits(env).contains(#[trigger] env[a].decl.where_bounds@[b].trait_name@),
            bounds_hold(ty@, env, aliases@, v, i as int, 0) == bounds_hold(ty@, env, aliases@, v, i as int, j as int),
        decreases bounds.len() - j,
    {
        let b = &bounds[j];
        match subst.get(b.param.as_str()) {
            None => {
                return Ok(false);
            },
            Some(bound_ty) => {
                proof {
                    assert(within(bound_ty@, ty@));
                    assert(bound_traits(env).contains(env[i as int].decl.where_bounds@[j as int].trait_name@));
                }
                match impl_search(b.trait_name.as_str(), bound_ty, trait_env, aliases, visiting) {
                    Ok(true) => {},
                    other => return other,
                }
            },
        }
        j = j + 1;
    }
    Ok(true)
}

/// Whether the impl at `i` provides `trait_name` for `ty`.
fn impl_provides(trait_name: &str, ty: &Type, trait_env: &TraitEnv, aliases: &AliasMap, i: usize, visiting: &mut NameSet) -> (r: Result<bool, TyperError>)
    requires
        i < trait_env.impls@.len(),
    ensures
        decided_as(r, match impl_applies(trait_name@, ty@, trait_env.impls@, aliases@, i as int) {
            Err(x) => Err(x),
            Ok(false) => Ok(false),
            Ok(true) => bounds_hold(ty@, trait_env.impls@, aliases@, old(visiting)@, i as int, 0),
        }, aliases@),
        r is Ok ==> final(visiting)@ == old(visiting)@,
    decreases ty_size(ty@), 2 * open_traits(trait_env.impls@, ty@, old(visiting)@) + 1, 2nat, 0int,
{
    let imp = &trait_env.impls[i];
    if !str_eq(imp.decl.trait_name.as_str(), trait_name) {
        return Ok(false);
    }
    let impl_params = type_param_names(&imp.decl.type_params);
    let mut subst = TypeSubst::new();
    let matched = match type_pattern_matches(&imp.decl.for_type, ty, &impl_params, &mut subst, aliases) {
        Ok(m) => m,
        Err(e) => return Err(e),
    };
    if !matched {
        return Ok(false);
    }
    if !all_params_bound(imp, &subst) {
        return Ok(false);
    }
    where_bounds_met(ty, trait_env, aliases, i, &subst, visiting)
}

fn impl_search(trait_name: &str, ty: &Type, trait_env: &TraitEnv, aliases: &AliasMap, visiting: &mut NameSet) -> (r: Result<bool, TyperError>)
    ensures
        decided_as(r, impl_exists(trait_name@, ty@, trait_env.impls@, aliases@, old(visiting)@), aliases@),
        r is Ok ==> final(visiting)@ == old(visiting)@,
    decreases ty_size(ty@), visit_weight(trait_env.impls@, trait_name@, ty@, old(visiting)@), 3nat, 0int,
{
    let ghost env = trait_env.impls@;
    let ghost v0 = visiting@;
    let key = impl_key_string(trait_name, ty);
    if visiting.contains(key.as_str()) {
        return Ok(true);
    }
    proof {
        lemma_open_traits_step(env, trait_name@, ty@, v0);
    }
    visiting.insert(key.clone());
    let ghost v1 = visiting@;
    let mut found = false;
    let mut i: usize = 0;
    while i < trait_env.impls.len()
        invariant
            i <= env.len(),
            env == trait_env.impls@,
            v1 == v0.insert(key@),
            key@ == impl_key(trait_name@, ty@),
            !v0.contains(key@),
            visiting@ == v1,
            v0 == old(visiting)@,
            impl_exists(trait_name@, ty@, env, aliases@, v0) == impls_match(trait_name@, ty@, env, aliases@, v1, 0),
            impls_match(trait_name@, ty@, env, aliases@, v1, 0) == or_found(found, impls_match(trait_name@, ty@, env, aliases@, v1, i as int)),
            bound_traits(env).contains(trait_name@) ==> open_traits(env, ty@, v1) + 1 == open_traits(env, ty@, v0),
            !bound_traits(env).contains(trait_name@) ==> open_traits(env, ty@, v1) == open_traits(env, ty@, v0),
        decreases trait_env.impls.len() - i,
    {
        let ghost here_spec = match impl_applies(trait_name@, ty@, env, aliases@, i as int) {
            Err(x) => Err(x),
            Ok(false) => Ok(false),
            Ok(true) => bounds_hold(ty@, env, aliases@, v1, i as int, 0),
        };
        assert(impls_match(trait_name@, ty@, env, aliases@, v1, i as int) == match here_spec {
            Err(x) => Err(x),
            Ok(b) => match impls_match(trait_name@, ty@, env, aliases@, v1, i as int + 1) {
                Err(x) => Err(x),
                Ok(c) => Ok(b || c),
            },
        });
        let here = match impl_provides(trait_name, ty, trait_env, aliases, i, visiting) {
            Ok(h) => h,
            Err(e) => {
                assert(here_spec is Err);
                return Err(e);
            },
        };
        i = i + 1;
        found = found || here;
    }
    visiting.remove(key.as_str());
    assert(visiting@ =~= v0);
    Ok(found)
}

/// Whether an impl of `trait_name` exists for `ty` (see `impl_exists`).
pub fn trait_impl_exists(trait_name: &str, ty: &Type, trait_env: &TraitEnv, aliases: &AliasMap) -> (r: Result<bool, TyperError>)
    ensures
        decided_as(r, impl_exists(trait_name@, ty@, trait_env.impls@, aliases@, Set::empty()), aliases@),
{
    let mut visiting = NameSet::new();
    impl_search(trait_name, ty, trait_env, aliases, &mut visiting)
}

/// Whether the `where` bounds of the impl at `i`, from the `j`-th on, are
/// met under its binding on `ty`, each looked for afresh.
pub open spec fn bounds_hold_fresh(ty: Ty, env: Seq<ImplInfo>, al: Map<Seq<char>, AliasV>, i: int, j: int) -> Result<bool, Seq<char>>
    decreases env[i].decl.where_bounds@.len() - j,
{
    let bs = env[i].decl.where_bounds@;
    let m = impl_binding(ty, env, al, i);
    if i < 0 || i >= env.len() || j < 0 || j >= bs.len() {
        Ok(true)
    } else if !m.contains_key(bs[j].param@) {
        Ok(false)
    } else {
        match impl_exists(bs[j].trait_name@, m[bs[j].param@], env, al, Set::empty()) {
            Err(x) => Err(x),
            Ok(false) => Ok(false),
            Ok(true) => bounds_hold_fresh(ty, env, al, i, j + 1),
        }
    }
}

/// The impls from the `i`-th on that provide `t` for `ty`, in order.
pub open spec fn impl_candidates(t: Seq<char>, ty: Ty, env: Seq<ImplInfo>, al: Map<Seq<char>, AliasV>, i: int) -> Result<Seq<int>, Seq<char>>
    decreases env.len() - i,
{
    if i < 0 || i >= env.len() {
        Ok(Seq::empty())
    } else {
        let here = match impl_applies(t, ty, env, al, i) {
            Err(x) => Err(x),
            Ok(false) => Ok(false),
            Ok(true) => bounds_hold_fresh(ty, env, al, i, 0),
        };
        match here {
            Err(x) => Err(x),
            Ok(b) => match impl_candidates(t, ty, env, al, i + 1) {
                Err(x) => Err(x),
                Ok(cs) => Ok(if b { seq![i].add(cs) } else { cs }),
            },
        }
    }
}

/// The diagnostic for `ty` (as rendered) not meeting the bound `t`.
pub open spec fn missing_bound_error(e: TyperError, shown: Seq<char>, t: Seq<char>, span: Span) -> bool {
    e.code@ == "T237"@ && e.message@ == at_span(span) + "type `"@ + shown + "` does not satisfy trait bound `"@ + t + "`"@
        && e.start == span.start && e.end == span.end
}

/// The diagnostic for several impls of `t` applying to `ty` (as rendered).
pub open spec fn ambiguous_impl_error(e: TyperError, t: Seq<char>, shown: Seq<char>, span: Span, cands: Seq<(Seq<char>, Span)>) -> bool {
    e.code@ == "T248"@ && e.message@ == at_span(span) + "ambiguous implementations of trait `"@ + t + "` for `"@ + shown
        + "`; candidates: "@ + candidates_text(cands) && e.start == span.start && e.end == span.end
}

fn fresh_bounds_met(ty: &Type, trait_env: &TraitEnv, aliases: &AliasMap, i: usize, subst: &TypeSubst) -> (r: Result<bool, TyperError>)
    requires
        i < trait_env.impls@.len(),
        subst@ == impl_binding(ty@, trait_env.impls@, aliases@, i as int),
    ensures
        decided_as(r, bounds_hold_fresh(ty@, trait_env.impls@, aliases@, i as int, 0), aliases@),
{
    let ghost env = trait_env.impls@;
    let bounds = &trait_env.impls[i].decl.where_bounds;
    let mut j: usize = 0;
    while j < bounds.len()
        invariant
            j <= bounds@.len(),
            i < env.len(),
            env == trait_env.impls@,
            bounds@ == env[i as int].decl.where_bounds@,
            subst@ == impl_binding(ty@, env, aliases@, i as int),
            bounds_hold_fresh(ty@, env, aliases@, i as int, 0) == bounds_hold_fresh(ty@, env, aliases@, i as int, j as int),
        decreases bounds.len() - j,
    {
        let b = &bounds[j];
        match subst.get(b.param.as_str()) {
            None => {
                return Ok(false);
            },
            Some(bound_ty) => {
                match trait_impl_exists(b.trait_name.as_str(), bound_ty, trait_env, aliases) {
                    Ok(true) => {},
                    other => return other,
                }
            },
        }
        j = j + 1;
    }
    Ok(true)
}

/// The impl at `i` applies to `ty`; when it does, its binding is returned.
fn impl_fits(trait_name: &str, ty: &Type, trait_env: &TraitEnv, aliases: &AliasMap, i: usize) -> (r: Result<Option<TypeSubst>, TyperError>)
    requires
        i < trait_env.impls@.len(),
    ensures
        ({
            let here = match impl_applies(trait_name@, ty@, trait_env.impls@, aliases@, i as int) {
                Err(x) => Err(x),
                Ok(false) => Ok(false),
                Ok(true) => bounds_hold_fresh(ty@, trait_env.impls@, aliases@, i as int, 0),
            };
            match r {
                Ok(Some(s)) => here == Ok::<bool, Seq<char>>(true) && s@ == impl_binding(ty@, trait_env.impls@, aliases@, i as int),
                Ok(None) => here == Ok::<bool, Seq<char>>(false),
                Err(e) => decided_as(Err(e), here, aliases@),
            }
        }),
{
    let imp = &trait_env.impls[i];
    if !str_eq(imp.decl.trait_name.as_str(), trait_name) {
        return Ok(None);
    }
    let impl_params = type_param_names(&imp.decl.type_params);
    let mut subst = TypeSubst::new();
    let matched = match type_pattern_matches(&imp.decl.for_type, ty, &impl_params, &mut subst, aliases) {
        Ok(m) => m,
        Err(e) => return Err(e),
    };
    if !matched || !all_params_bound(imp, &subst) {
        return Ok(None);
    }
    match fresh_bounds_met(ty, trait_env, aliases, i, &subst) {
        Ok(true) => Ok(Some(subst)),
        Ok(false) => Ok(None),
        Err(e) => Err(e),
    }
}

/// The outcome of choosing an impl of `t` for `ty` among the candidates.
pub open spec fn impl_choice_ok(r: Result<(usize, TypeSubst), TyperError>, t: Seq<char>, ty: Ty, env: Seq<ImplInfo>, al: Map<Seq<char>, AliasV>, span: Span) -> bool {
    match impl_candidates(t, ty, env, al, 0) {
        Err(x) => r matches Err(e) && al.contains_key(x) && crate::type_resolve::is_cyclic_alias_error(e, x, al[x].span),
        Ok(cs) => if cs.len() == 1 {
            r matches Ok((k, s)) && k == cs[0] && s@ == impl_binding(ty, env, al, k as int)
        } else if cs.len() == 0 {
            r matches Err(e) && missing_bound_error(e, show(ty), t, span)
        } else {
            r matches Err(e) && ambiguous_impl_error(e, t, show(ty), span,
                cs.map_values(|k: int| (show(env[k].decl.for_type@), env[k].decl.span)))
        },
    }
}

/// Chooses the one impl of `trait_name` that applies to `self_ty`, with the
/// substitution it binds; refused when none or several apply.
pub fn find_impl(trait_env: &TraitEnv, aliases: &AliasMap, trait_name: &str, self_ty: &Type, span: Span) -> (r: Result<(usize, TypeSubst), TyperError>)
    ensures
        impl_choice_ok(r, trait_name@, self_ty@, trait_env.impls@, aliases@, span),
{
    let ghost env = trait_env.impls@;
    let mut matches: Vec<(usize, TypeSubst)> = Vec::new();
    let mut i: usize = 0;
    assert(Seq::<int>::empty().add(impl_candidates(trait_name@, self_ty@, env, aliases@, 0)->Ok_0) =~= impl_candidates(trait_name@, self_ty@, env, aliases@, 0)->Ok_0);
    while i < trait_env.impls.len()
        invariant
            i <= env.len(),
            env == trait_env.impls@,
            forall|q: int| 0 <= q < matches@.len() ==> (#[trigger] matches@[q]).0 < env.len()
                && matches@[q].1@ == impl_binding(self_ty@, env, aliases@, matches@[q].0 as int),
            match impl_candidates(trait_name@, self_ty@, env, aliases@, 0) {
                Err(x) => impl_candidates(trait_name@, self_ty@, env, aliases@, i as int) == Err::<Seq<int>, Seq<char>>(x),
                Ok(all) => impl_candidates(trait_name@, self_ty@, env, aliases@, i as int) is Ok
                    && all == matches@.map_values(|m: (usize, TypeSubst)| m.0 as int)
                        .add(impl_candidates(trait_name@, self_ty@, env, aliases@, i as int)->Ok_0),
            },
        decreases trait_env.impls.len() - i,
    {
        let ghost before = matches@;
        match impl_fits(trait_name, self_ty, trait_env, aliases, i) {
            Ok(Some(s)) => {
                matches.push((i, s));
                proof {
                    match impl_candidates(trait_name@, self_ty@, env, aliases@, 0) {
                        Ok(all) => {
                            let rest = impl_candidates(trait_name@, self_ty@, env, aliases@, i as int + 1)->Ok_0;
                            assert(matches@.map_values(|m: (usize, TypeSubst)| m.0 as int)
                                =~= before.map_values(|m: (usize, TypeSubst)| m.0 as int).push(i as int));
                            assert(seq![i as int].add(rest) =~= seq![i as int] + rest);
                            assert(before.map_values(|m: (usize, TypeSubst)| m.0 as int).add(seq![i as int].add(rest))
                                =~= before.map_values(|m: (usize, TypeSubst)| m.0 as int).push(i as int).add(rest));
                        },
                        Err(_) => {},
                    }
                }
            },
            Ok(None) => {},
            Err(e) => {
                return Err(e);
            },
        }
        i = i + 1;
    }
    let ghost cs = matches@.map_values(|m: (usize, TypeSubst)| m.0 as int);
    proof {
        assert(cs.add(Seq::<int>::empty()) =~= cs);
    }
    if matches.len() == 1 {
        let (k, s) = matches.pop().unwrap();
        return Ok((k, s));
    }
    let shown = show_ty(self_ty);
    if matches.len() == 0 {
        return Err(TyperError::missing_trait_bound(shown.as_str(), trait_name, span));
    }
    let mut candidates: Vec<(String, Span)> = Vec::new();
    let mut q: usize = 0;
    while q < matches.len()
        invariant
            q <= matches@.len(),
            env == trait_env.impls@,
            forall|w: int| 0 <= w < matches@.len() ==> (#[trigger] matches@[w]).0 < env.len(),
            candidates@.len() == q,
            forall|w: int| 0 <= w < q ==> (#[trigger] candidates@[w]).0@ == show(env[matches@[w].0 as int].decl.for_type@)
                && candidates@[w].1 == env[matches@[w].0 as int].decl.span,
        decreases matches.len() - q,
    {
        let k = matches[q].0;
        let d = &trait_env.impls[k].decl;
        candidates.push((show_ty(&d.for_type), d.span));
        q = q + 1;
    }
    proof {
        assert(candidates_view(candidates@) =~= cs.map_values(|k: int| (show(env[k].decl.for_type@), env[k].decl.span)));
    }
    Err(TyperError::ambiguous_impl(trait_name, shown.as_str(), span, &candidates))
}

/// What checking that `ty` satisfies `trait_name` gives: a type parameter
/// needs a declared bound; a type that mentions a parameter otherwise is
/// refused; any other type needs an impl (see `impl_exists`).
pub open spec fn trait_bound_met(ty: Ty, t: Seq<char>, tp: Set<Seq<char>>, bounds: Set<(Seq<char>, Seq<char>)>, env: Seq<ImplInfo>, al: Map<Seq<char>, AliasV>) -> Result<Option<Seq<char>>, Seq<char>> {
    match ty {
        Ty::Named { name, args } if args.len() == 0 && tp.contains(name) =>
            if bounds.contains((name, t)) { Ok(None) } else { Ok(Some(name)) },
        _ => if crate::type_params::mentions_params(ty, tp) {
            Ok(Some(show(ty)))
        } else {
            match impl_exists(t, ty, env, al, Set::empty()) {
                Err(x) => Err(x),
                Ok(true) => Ok(None),
                Ok(false) => Ok(Some(show(ty))),
            }
        },
    }
}

/// Checks that `ty` satisfies the bound `trait_name` (see `trait_bound_met`);
/// a refusal names the type as written (or the parameter) and the trait.
pub fn ensure_trait_bound(ty: &Type, trait_name: &str, type_params: &NameSet, bounds: &BoundsMap, trait_env: &TraitEnv, aliases: &AliasMap, span: Span) -> (r: Result<(), TyperError>)
    ensures
        match trait_bound_met(ty@, trait_name@, type_params@, bounds@, trait_env.impls@, aliases@) {
            Ok(None) => r is Ok,
            Ok(Some(shown)) => r matches Err(e) && missing_bound_error(e, shown, trait_name@, span),
            Err(x) => r matches Err(e) && aliases@.contains_key(x)
                && crate::type_resolve::is_cyclic_alias_error(e, x, aliases@[x].span),
        },
{
    match ty {
        Type::Named { name, args } => {
            proof {
                assert(crate::ty::types_view(args@).len() == args@.len());
            }
            if args.len() == 0 && type_params.contains(name.as_str()) {
                if bounds.has_bound(name.as_str(), trait_name) {
                    return Ok(());
                }
                return Err(TyperError::missing_trait_bound(name.as_str(), trait_name, span));
            }
        },
        _ => {},
    }
    if type_contains_params(ty, type_params) {
        let shown = show_ty(ty);
        return Err(TyperError::missing_trait_bound(shown.as_str(), trait_name, span));
    }
    match trait_impl_exists(trait_name, ty, trait_env, aliases) {
        Ok(true) => Ok(()),
        Ok(false) => {
            let shown = show_ty(ty);
            Err(TyperError::missing_trait_bound(shown.as_str(), trait_name, span))
        },
        Err(e) => Err(e),
    }
}

/// The substitution of `Self` by the implementing type.
pub open spec fn self_subst(for_type: Ty) -> Map<Seq<char>, Ty> {
    map!["Self"@ => for_type]
}

/// An impl method agrees with the trait's declaration once `Self` is the
/// implementing type: same effect, same number of parameters passed the same
/// way with equal types, and equal result types.
pub open spec fn signatures_agree(tm: TraitMethod, im: Func, for_type: Ty) -> bool {
    let s = self_subst(for_type);
    &&& tm.effect == im.effect
    &&& tm.params@.len() == im.params@.len()
    &&& forall|i: int| 0 <= i < tm.params@.len() ==> subst_ty((#[trigger] tm.params@[i]).ty@, s) == subst_ty(im.params@[i].ty@, s)
        && tm.params@[i].kind == im.params@[i].kind
    &&& subst_ty(tm.ret@, s) == subst_ty(im.ret@, s)
}

/// An impl method whose signature differs from the trait's declaration.
#[derive(Debug)]
pub struct MethodSignatureMismatch {
    pub trait_name: String,
    pub method: String,
    pub span: Span,
}

/// Checks that an impl method matches the trait's declaration of it (see
/// `signatures_agree`); a mismatch names the trait, the method and the
/// declaration's span.
pub fn validate_impl_method_signature(trait_name: &str, trait_method: &TraitMethod, impl_method: &Func, for_type: &Type) -> (r: Result<(), MethodSignatureMismatch>)
    ensures
        r is Ok <==> signatures_agree(*trait_method, *impl_method, for_type@),
        r matches Err(m) ==> m.trait_name@ == trait_name@ && m.method@ == trait_method.name@ && m.span == trait_method.span,
{
    let mismatch = MethodSignatureMismatch { trait_name: trait_name.to_string(), method: trait_method.name.clone(), span: trait_method.span };
    if trait_method.effect != impl_method.effect {
        return Err(mismatch);
    }
    if trait_method.params.len() != impl_method.params.len() {
        return Err(mismatch);
    }
    let mut subst = TypeSubst::new();
    subst.insert("Self".to_string(), copy_type(for_type));
    proof {
        reveal_strlit("Self");
        assert(subst@ =~= self_subst(for_type@));
    }
    let mut i: usize = 0;
    while i < trait_method.params.len()
        invariant
            i <= trait_method.params@.len(),
            trait_method.params@.len() == impl_method.params@.len(),
            subst@ == self_subst(for_type@),
            mismatch.trait_name@ == trait_name@ && mismatch.method@ == trait_method.name@ && mismatch.span == trait_method.span,
            forall|j: int| 0 <= j < i ==> subst_ty((#[trigger] trait_method.params@[j]).ty@, subst@) == subst_ty(impl_method.params@[j].ty@, subst@)
                && trait_method.params@[j].kind == impl_method.params@[j].kind,
        decreases trait_method.params.len() - i,
    {
        let trait_ty = substitute_type(&trait_method.params[i].ty, &subst);
        let impl_ty = substitute_type(&impl_method.params[i].ty, &subst);
        if !type_eq(&trait_ty, &impl_ty) || trait_method.params[i].kind != impl_method.params[i].kind {
            return Err(mismatch);
        }
        i = i + 1;
    }
    let trait_ret = substitute_type(&trait_method.ret, &subst);
    let impl_ret = substitute_type(&impl_method.ret, &subst);
    if !type_eq(&trait_ret, &impl_ret) {
        return Err(mismatch);
    }
    Ok(())
}

} // verus!
