use vstd::prelude::*;
use crate::ast::Expr;
use crate::errors::{at_span, TyperError};
use crate::names::{names_view, NameMap, NameSet};
use crate::text::str_eq;
use crate::ty::{copy_type, type_eq, type_view, types_view, Span, Ty, Type};
use crate::env::TypeDefs;
use crate::type_params::{subst_ty, substitute_type, TypeSubst};

verus! {

/// A refinement alias: `type Name<params> = base where predicate`.
#[derive(Debug)]
pub struct AliasDef {
    pub type_params: Vec<String>,
    pub base: Type,
    pub predicate: Expr,
    pub binder: Option<String>,
    pub span: Span,
}

/// What alias resolution reads of an alias.
pub struct AliasV {
    pub type_params: Seq<Seq<char>>,
    pub base: Ty,
    pub span: Span,
}

impl View for AliasDef {
    type V = AliasV;

    open spec fn view(&self) -> AliasV {
        AliasV { type_params: names_view(self.type_params@), base: self.base@, span: self.span }
    }
}

/// Aliases by name.
pub type AliasMap = NameMap<AliasDef>;

/// The substitution that binds each alias parameter to its argument
/// (a later parameter of the same name wins).
pub open spec fn alias_subst(params: Seq<Seq<char>>, args: Seq<Ty>) -> Map<Seq<char>, Ty>
    decreases params.len(),
{
    if params.len() == 0 {
        Map::empty()
    } else {
        let n = params.len() - 1;
        alias_subst(params.subrange(0, n), args).insert(params[n], args[n])
    }
}

pub proof fn lemma_push_to_set(s: Seq<Seq<char>>, x: Seq<char>)
    ensures
        s.push(x).to_set() == s.to_set().insert(x),
{
    assert forall|y: Seq<char>| #[trigger] s.push(x).contains(y) <==> (s.contains(y) || y == x) by {
        if s.push(x).contains(y) && y != x {
            let i = choose|i: int| 0 <= i < s.push(x).len() && s.push(x)[i] == y;
            assert(s[i] == y);
        }
        if s.contains(y) {
            let i = choose|i: int| 0 <= i < s.len() && s[i] == y;
            assert(s.push(x)[i] == y);
        }
        if y == x {
            assert(s.push(x)[s.len() as int] == y);
        }
    }
    assert(s.push(x).to_set() =~= s.to_set().insert(x));
}

/// How many aliases are not yet being expanded.
pub open spec fn unvisited(al: Map<Seq<char>, AliasV>, visiting: Seq<Seq<char>>) -> nat {
    al.dom().difference(visiting.to_set()).len()
}

/// Resolution of every type of `ts`, left to right; the first failure wins.
pub open spec fn resolve_all(ts: Seq<Ty>, al: Map<Seq<char>, AliasV>, visiting: Seq<Seq<char>>, tp: Set<Seq<char>>) -> Result<Seq<Ty>, Seq<char>>
    decreases unvisited(al, visiting), ts, 0nat,
    when al.dom().finite()
{
    if ts.len() == 0 {
        Ok(Seq::empty())
    } else {
        match resolve_all(ts.subrange(0, ts.len() - 1), al, visiting, tp) {
            Err(e) => Err(e),
            Ok(rs) => match resolve(ts[ts.len() - 1], al, visiting, tp) {
                Err(e) => Err(e),
                Ok(r) => Ok(rs.push(r)),
            },
        }
    }
}

/// `t` with every applied alias replaced by its (resolved) base type.
/// `visiting` holds the aliases being expanded; reaching one of them again
/// fails with its name. Names in `tp` are type parameters and stay as they
/// are; an alias applied to the wrong number of arguments is left alone.
pub open spec fn resolve(t: Ty, al: Map<Seq<char>, AliasV>, visiting: Seq<Seq<char>>, tp: Set<Seq<char>>) -> Result<Ty, Seq<char>>
    decreases unvisited(al, visiting), t, 1nat,
    when al.dom().finite()
{
    match t {
        Ty::Named { name, args } => {
            if args.len() == 0 && tp.contains(name) {
                Ok(Ty::Named { name, args: Seq::empty() })
            } else {
                match resolve_all(args, al, visiting, tp) {
                    Err(e) => Err(e),
                    Ok(rargs) => {
                        if al.contains_key(name) {
                            let def = al[name];
                            if def.type_params.len() != rargs.len() {
                                Ok(Ty::Named { name, args: rargs })
                            } else if visiting.contains(name) {
                                Err(name)
                            } else {
                                proof {
                                    lemma_push_to_set(visiting, name);
                                    assert(al.dom().difference(visiting.push(name).to_set())
                                        =~= al.dom().difference(visiting.to_set()).remove(name));
                                }
                                resolve(subst_ty(def.base, alias_subst(def.type_params, rargs)), al, visiting.push(name), tp)
                            }
                        } else {
                            Ok(Ty::Named { name, args: rargs })
                        }
                    },
                }
            }
        },
        Ty::Option(inner) => match resolve(*inner, al, visiting, tp) {
            Ok(r) => Ok(Ty::Option(Box::new(r))),
            Err(e) => Err(e),
        },
        Ty::Result(ok, err) => match resolve(*ok, al, visiting, tp) {
            Err(e) => Err(e),
            Ok(rok) => match resolve(*err, al, visiting, tp) {
                Err(e) => Err(e),
                Ok(rerr) => Ok(Ty::Result(Box::new(rok), Box::new(rerr))),
            },
        },
        Ty::List(inner) => match resolve(*inner, al, visiting, tp) {
            Ok(r) => Ok(Ty::List(Box::new(r))),
            Err(e) => Err(e),
        },
        Ty::SetOf(inner) => match resolve(*inner, al, visiting, tp) {
            Ok(r) => Ok(Ty::SetOf(Box::new(r))),
            Err(e) => Err(e),
        },
        Ty::Slice(inner) => match resolve(*inner, al, visiting, tp) {
            Ok(r) => Ok(Ty::Slice(Box::new(r))),
            Err(e) => Err(e),
        },
        Ty::MapOf(k, v) => match resolve(*k, al, visiting, tp) {
            Err(e) => Err(e),
            Ok(rk) => match resolve(*v, al, visiting, tp) {
                Err(e) => Err(e),
                Ok(rv) => Ok(Ty::MapOf(Box::new(rk), Box::new(rv))),
            },
        },
        Ty::Array(inner, len) => match resolve(*inner, al, visiting, tp) {
            Ok(r) => Ok(Ty::Array(Box::new(r), len)),
            Err(e) => Err(e),
        },
        Ty::Tuple(elems) => match resolve_all(elems, al, visiting, tp) {
            Ok(rs) => Ok(Ty::Tuple(rs)),
            Err(e) => Err(e),
        },
        _ => Ok(t),
    }
}

/// The diagnostic for a cycle through the alias `name` declared at `span`.
pub open spec fn is_cyclic_alias_error(e: TyperError, name: Seq<char>, span: Span) -> bool {
    &&& e.code@ == "T703"@
    &&& e.message@ == at_span(span) + "cyclic refinement alias detected involving `"@ + name + "`"@
    &&& e.start == span.start
    &&& e.end == span.end
}

/// Whether an executable outcome of resolution matches the specified one.
pub open spec fn resolved_as(r: Result<Type, TyperError>, spec: Result<Ty, Seq<char>>, al: Map<Seq<char>, AliasV>) -> bool {
    match r {
        Ok(t) => spec == Ok::<Ty, Seq<char>>(t@),
        Err(e) => spec is Err && al.contains_key(spec->Err_0) && is_cyclic_alias_error(e, spec->Err_0, al[spec->Err_0].span),
    }
}

proof fn lemma_resolve_all_prefix_err(ts: Seq<Ty>, k: int, al: Map<Seq<char>, AliasV>, visiting: Seq<Seq<char>>, tp: Set<Seq<char>>)
    requires
        al.dom().finite(),
        0 <= k <= ts.len(),
        resolve_all(ts.subrange(0, k), al, visiting, tp) is Err,
    ensures
        resolve_all(ts, al, visiting, tp) == resolve_all(ts.subrange(0, k), al, visiting, tp),
    decreases ts.len() - k,
{
    if k < ts.len() {
        let next = ts.subrange(0, k + 1);
        assert(next.subrange(0, k) =~= ts.subrange(0, k));
        lemma_resolve_all_prefix_err(ts, k + 1, al, visiting, tp);
    } else {
        assert(ts.subrange(0, k) =~= ts);
    }
}

fn build_alias_subst(params: &Vec<String>, args: &Vec<Type>) -> (s: TypeSubst)
    requires
        params@.len() == args@.len(),
    ensures
        s@ == alias_subst(names_view(params@), types_view(args@)),
{
    let ghost pv = names_view(params@);
    let ghost av = types_view(args@);
    let mut subst = TypeSubst::new();
    let mut i: usize = 0;
    while i < params.len()
        invariant
            i <= params@.len(),
            params@.len() == args@.len(),
            pv == names_view(params@),
            av == types_view(args@),
            subst@ == alias_subst(pv.subrange(0, i as int), av),
        decreases params.len() - i,
    {
        subst.insert(params[i].clone(), copy_type(&args[i]));
        proof {
            let next = pv.subrange(0, i as int + 1);
            assert(next.subrange(0, i as int) =~= pv.subrange(0, i as int));
        }
        i = i + 1;
    }
    assert(pv.subrange(0, params@.len() as int) =~= pv);
    subst
}

fn visiting_contains(visiting: &Vec<String>, name: &str) -> (r: bool)
    ensures
        r == names_view(visiting@).contains(name@),
{
    let mut i: usize = 0;
    while i < visiting.len()
        invariant
            i <= visiting@.len(),
            forall|j: int| 0 <= j < i ==> (#[trigger] visiting@[j])@ != name@,
        decreases visiting.len() - i,
    {
        if str_eq(visiting[i].as_str(), name) {
            assert(names_view(visiting@)[i as int] == name@);
            return true;
        }
        i = i + 1;
    }
    assert forall|j: int| 0 <= j < names_view(visiting@).len() implies names_view(visiting@)[j] != name@ by {
        assert(names_view(visiting@)[j] == visiting@[j]@);
    }
    false
}

fn resolve_list(args: &Vec<Type>, aliases: &AliasMap, visiting: &Vec<String>, type_params: &NameSet) -> (r: Result<Vec<Type>, TyperError>)
    requires
        aliases@.dom().finite(),
    ensures
        match r {
            Ok(v) => resolve_all(types_view(args@), aliases@, names_view(visiting@), type_params@) == Ok::<Seq<Ty>, Seq<char>>(types_view(v@)),
            Err(e) => {
                let s = resolve_all(types_view(args@), aliases@, names_view(visiting@), type_params@);
                s is Err && aliases@.contains_key(s->Err_0) && is_cyclic_alias_error(e, s->Err_0, aliases@[s->Err_0].span)
            },
        },
    decreases unvisited(aliases@, names_view(visiting@)), args, 0nat,
{
    let ghost tv = types_view(args@);
    let ghost vv = names_view(visiting@);
    let mut out: Vec<Type> = Vec::new();
    let mut i: usize = 0;
    assert(types_view(out@) =~= Seq::<Ty>::empty());
    assert(tv.subrange(0, 0) =~= Seq::<Ty>::empty());
    while i < args.len()
        invariant
            i <= args@.len(),
            aliases@.dom().finite(),
            tv == types_view(args@),
            vv == names_view(visiting@),
            resolve_all(tv.subrange(0, i as int), aliases@, vv, type_params@) == Ok::<Seq<Ty>, Seq<char>>(types_view(out@)),
        decreases args.len() - i,
    {
        assert(decreases_to!(args => args@[i as int]));
        let res = resolve_in(&args[i], aliases, visiting, type_params);
        proof {
            let next = tv.subrange(0, i as int + 1);
            assert(next.subrange(0, i as int) =~= tv.subrange(0, i as int));
            assert(next[i as int] == tv[i as int]);
        }
        match res {
            Ok(t) => {
                let ghost before = out@;
                let ghost tview = t@;
                out.push(t);
                assert(types_view(out@) =~= types_view(before).push(tview));
            },
            Err(e) => {
                proof {
                    lemma_resolve_all_prefix_err(tv, i as int + 1, aliases@, vv, type_params@);
                }
                return Err(e);
            },
        }
        i = i + 1;
    }
    assert(tv.subrange(0, args@.len() as int) =~= tv);
    Ok(out)
}

fn resolve_in(ty: &Type, aliases: &AliasMap, visiting: &Vec<String>, type_params: &NameSet) -> (r: Result<Type, TyperError>)
    requires
        aliases@.dom().finite(),
    ensures
        resolved_as(r, resolve(ty@, aliases@, names_view(visiting@), type_params@), aliases@),
    decreases unvisited(aliases@, names_view(visiting@)), ty, 1nat,
{
    let ghost vv = names_view(visiting@);
    match ty {
        Type::Named { name, args } => {
            if args.len() == 0 && type_params.contains(name.as_str()) {
                let empty: Vec<Type> = Vec::new();
                assert(types_view(empty@) =~= Seq::<Ty>::empty());
                assert(types_view(args@) =~= Seq::<Ty>::empty());
                let r = Type::Named { name: name.clone(), args: empty };
                return Ok(r);
            }
            let resolved_args = match resolve_list(args, aliases, visiting, type_params) {
                Ok(v) => v,
                Err(e) => return Err(e),
            };
            if let Some(def) = aliases.get(name.as_str()) {
                if def.type_params.len() != resolved_args.len() {
                    return Ok(Type::Named { name: name.clone(), args: resolved_args });
                }
                if visiting_contains(visiting, name.as_str()) {
                    return Err(TyperError::cyclic_alias(name.as_str(), def.span));
                }
                let mut next_visiting: Vec<String> = Vec::new();
                let mut j: usize = 0;
                while j < visiting.len()
                    invariant
                        j <= visiting@.len(),
                        next_visiting@ == visiting@.subrange(0, j as int),
                    decreases visiting.len() - j,
                {
                    next_visiting.push(visiting[j].clone());
                    assert(next_visiting@ =~= visiting@.subrange(0, j as int + 1));
                    j = j + 1;
                }
                next_visiting.push(name.clone());
                proof {
                    assert(visiting@.subrange(0, visiting@.len() as int) =~= visiting@);
                    assert(names_view(next_visiting@) =~= vv.push(name@));
                    lemma_push_to_set(vv, name@);
                    assert(aliases@.dom().difference(vv.push(name@).to_set())
                        =~= aliases@.dom().difference(vv.to_set()).remove(name@));
                }
                let subst = build_alias_subst(&def.type_params, &resolved_args);
                let instantiated = substitute_type(&def.base, &subst);
                return resolve_in(&instantiated, aliases, &next_visiting, type_params);
            }
            Ok(Type::Named { name: name.clone(), args: resolved_args })
        },
        Type::Option(inner) => match resolve_in(inner, aliases, visiting, type_params) {
            Ok(r) => Ok(Type::Option(Box::new(r))),
            Err(e) => Err(e),
        },
        Type::Result(ok, err) => {
            let rok = match resolve_in(ok, aliases, visiting, type_params) {
                Ok(r) => r,
                Err(e) => return Err(e),
            };
            let rerr = match resolve_in(err, aliases, visiting, type_params) {
                Ok(r) => r,
                Err(e) => return Err(e),
            };
            Ok(Type::Result(Box::new(rok), Box::new(rerr)))
        },
        Type::List(inner) => match resolve_in(inner, aliases, visiting, type_params) {
            Ok(r) => Ok(Type::List(Box::new(r))),
            Err(e) => Err(e),
        },
        Type::SetOf(inner) => match resolve_in(inner, aliases, visiting, type_params) {
            Ok(r) => Ok(Type::SetOf(Box::new(r))),
            Err(e) => Err(e),
        },
        Type::Slice(inner) => match resolve_in(inner, aliases, visiting, type_params) {
            Ok(r) => Ok(Type::Slice(Box::new(r))),
            Err(e) => Err(e),
        },
        Type::MapOf(k, v) => {
            let rk = match resolve_in(k, aliases, visiting, type_params) {
                Ok(r) => r,
                Err(e) => return Err(e),
            };
            let rv = match resolve_in(v, aliases, visiting, type_params) {
                Ok(r) => r,
                Err(e) => return Err(e),
            };
            Ok(Type::MapOf(Box::new(rk), Box::new(rv)))
        },
        Type::Array(inner, len) => match resolve_in(inner, aliases, visiting, type_params) {
            Ok(r) => Ok(Type::Array(Box::new(r), *len)),
            Err(e) => Err(e),
        },
        Type::Tuple(elems) => match resolve_list(elems, aliases, visiting, type_params) {
            Ok(rs) => Ok(Type::Tuple(rs)),
            Err(e) => Err(e),
        },
        _ => Ok(copy_type(ty)),
    }
}

/// Expands the aliases in `ty`, treating the names in `type_params` as
/// parameters and the aliases in `visiting` as being expanded already.
pub fn resolve_aliases(ty: &Type, aliases: &AliasMap, visiting: &mut Vec<String>, type_params: &NameSet) -> (r: Result<Type, TyperError>)
    ensures
        final(visiting)@ == old(visiting)@,
        resolved_as(r, resolve(ty@, aliases@, names_view(old(visiting)@), type_params@), aliases@),
{
    proof {
        aliases.lemma_finite();
    }
    resolve_in(ty, aliases, visiting, type_params)
}

/// The type with every alias expanded.
pub open spec fn base_of(t: Ty, al: Map<Seq<char>, AliasV>) -> Result<Ty, Seq<char>> {
    resolve(t, al, Seq::empty(), Set::empty())
}

/// Expands every alias in `ty`.
pub fn base_type(ty: &Type, aliases: &AliasMap) -> (r: Result<Type, TyperError>)
    ensures
        resolved_as(r, base_of(ty@, aliases@), aliases@),
{
    let mut visiting: Vec<String> = Vec::new();
    let params = NameSet::new();
    proof {
        aliases.lemma_finite();
        assert(names_view(visiting@) =~= Seq::<Seq<char>>::empty());
    }
    resolve_in(ty, aliases, &visiting, &params)
}

/// No applicable alias is left in `t`: every named type is either not an
/// alias or applied to the wrong number of arguments (function types are
/// not looked into).
pub open spec fn settled(t: Ty, al: Map<Seq<char>, AliasV>) -> bool
    decreases t, 1nat,
{
    match t {
        Ty::Named { name, args } => all_settled(args, al) && !(al.contains_key(name) && al[name].type_params.len() == args.len()),
        Ty::Option(inner) => settled(*inner, al),
        Ty::List(inner) => settled(*inner, al),
        Ty::SetOf(inner) => settled(*inner, al),
        Ty::Slice(inner) => settled(*inner, al),
        Ty::Result(ok, err) => settled(*ok, al) && settled(*err, al),
        Ty::MapOf(k, v) => settled(*k, al) && settled(*v, al),
        Ty::Array(inner, _) => settled(*inner, al),
        Ty::Tuple(elems) => all_settled(elems, al),
        _ => true,
    }
}

pub open spec fn all_settled(ts: Seq<Ty>, al: Map<Seq<char>, AliasV>) -> bool
    decreases ts, 0nat,
{
    if ts.len() == 0 {
        true
    } else {
        all_settled(ts.subrange(0, ts.len() - 1), al) && settled(ts[ts.len() - 1], al)
    }
}

/// What resolution (without type parameters) produces is settled.
pub proof fn lemma_resolve_settled(t: Ty, al: Map<Seq<char>, AliasV>, visiting: Seq<Seq<char>>)
    requires
        al.dom().finite(),
        resolve(t, al, visiting, Set::empty()) is Ok,
    ensures
        settled(resolve(t, al, visiting, Set::empty())->Ok_0, al),
    decreases unvisited(al, visiting), t, 1nat,
{
    let tp = Set::<Seq<char>>::empty();
    match t {
        Ty::Named { name, args } => {
            lemma_resolve_all_settled(args, al, visiting);
            let rargs = resolve_all(args, al, visiting, tp)->Ok_0;
            if al.contains_key(name) && al[name].type_params.len() == rargs.len() && !visiting.contains(name) {
                lemma_push_to_set(visiting, name);
                assert(al.dom().difference(visiting.push(name).to_set())
                    =~= al.dom().difference(visiting.to_set()).remove(name));
                lemma_resolve_settled(subst_ty(al[name].base, alias_subst(al[name].type_params, rargs)), al, visiting.push(name));
            }
        },
        Ty::Option(inner) => lemma_resolve_settled(*inner, al, visiting),
        Ty::List(inner) => lemma_resolve_settled(*inner, al, visiting),
        Ty::SetOf(inner) => lemma_resolve_settled(*inner, al, visiting),
        Ty::Slice(inner) => lemma_resolve_settled(*inner, al, visiting),
        Ty::Array(inner, _) => lemma_resolve_settled(*inner, al, visiting),
        Ty::Result(ok, err) => {
            lemma_resolve_settled(*ok, al, visiting);
            lemma_resolve_settled(*err, al, visiting);
        },
        Ty::MapOf(k, v) => {
            lemma_resolve_settled(*k, al, visiting);
            lemma_resolve_settled(*v, al, visiting);
        },
        Ty::Tuple(elems) => lemma_resolve_all_settled(elems, al, visiting),
        _ => {},
    }
}

pub proof fn lemma_resolve_all_settled(ts: Seq<Ty>, al: Map<Seq<char>, AliasV>, visiting: Seq<Seq<char>>)
    requires
        al.dom().finite(),
        resolve_all(ts, al, visiting, Set::empty()) is Ok,
    ensures
        all_settled(resolve_all(ts, al, visiting, Set::empty())->Ok_0, al),
        resolve_all(ts, al, visiting, Set::empty())->Ok_0.len() == ts.len(),
    decreases unvisited(al, visiting), ts, 0nat,
{
    if ts.len() > 0 {
        let tp = Set::<Seq<char>>::empty();
        let init = ts.subrange(0, ts.len() - 1);
        lemma_resolve_all_settled(init, al, visiting);
        lemma_resolve_settled(ts[ts.len() - 1], al, visiting);
        let rs = resolve_all(ts, al, visiting, tp)->Ok_0;
        let ri = resolve_all(init, al, visiting, tp)->Ok_0;
        assert(rs.subrange(0, rs.len() - 1) =~= ri);
    }
}

/// Resolving a settled type (without type parameters) gives it back.
pub proof fn lemma_settled_fixed(t: Ty, al: Map<Seq<char>, AliasV>, visiting: Seq<Seq<char>>)
    requires
        al.dom().finite(),
        settled(t, al),
    ensures
        resolve(t, al, visiting, Set::empty()) == Ok::<Ty, Seq<char>>(t),
    decreases t, 1nat,
{
    match t {
        Ty::Named { name, args } => lemma_all_settled_fixed(args, al, visiting),
        Ty::Option(inner) => lemma_settled_fixed(*inner, al, visiting),
        Ty::List(inner) => lemma_settled_fixed(*inner, al, visiting),
        Ty::SetOf(inner) => lemma_settled_fixed(*inner, al, visiting),
        Ty::Slice(inner) => lemma_settled_fixed(*inner, al, visiting),
        Ty::Array(inner, _) => lemma_settled_fixed(*inner, al, visiting),
        Ty::Result(ok, err) => {
            lemma_settled_fixed(*ok, al, visiting);
            lemma_settled_fixed(*err, al, visiting);
        },
        Ty::MapOf(k, v) => {
            lemma_settled_fixed(*k, al, visiting);
            lemma_settled_fixed(*v, al, visiting);
        },
        Ty::Tuple(elems) => lemma_all_settled_fixed(elems, al, visiting),
        _ => {},
    }
}

pub proof fn lemma_all_settled_fixed(ts: Seq<Ty>, al: Map<Seq<char>, AliasV>, visiting: Seq<Seq<char>>)
    requires
        al.dom().finite(),
        all_settled(ts, al),
    ensures
        resolve_all(ts, al, visiting, Set::empty()) == Ok::<Seq<Ty>, Seq<char>>(ts),
    decreases ts, 0nat,
{
    if ts.len() > 0 {
        let init = ts.subrange(0, ts.len() - 1);
        lemma_all_settled_fixed(init, al, visiting);
        lemma_settled_fixed(ts[ts.len() - 1], al, visiting);
        assert(init.push(ts[ts.len() - 1]) =~= ts);
    } else {
        assert(ts =~= Seq::<Ty>::empty());
    }
}

/// Expanding aliases twice is the same as expanding them once.
pub proof fn lemma_base_idempotent(t: Ty, al: Map<Seq<char>, AliasV>)
    requires
        al.dom().finite(),
        base_of(t, al) is Ok,
    ensures
        base_of(base_of(t, al)->Ok_0, al) == base_of(t, al),
{
    lemma_resolve_settled(t, al, Seq::empty());
    lemma_settled_fixed(base_of(t, al)->Ok_0, al, Seq::empty());
}

/// The alias that `t` applies, when it names one with the right number of arguments.
pub open spec fn alias_app(t: Ty, al: Map<Seq<char>, AliasV>) -> Option<Seq<char>> {
    match t {
        Ty::Named { name, args } => if al.contains_key(name) && al[name].type_params.len() == args.len() {
            Some(name)
        } else {
            None
        },
        _ => None,
    }
}

/// The name of the alias that `ty` applies, if any.
pub fn alias_name<'a>(ty: &'a Type, aliases: &AliasMap) -> (r: Option<&'a str>)
    ensures
        match r {
            Some(n) => alias_app(ty@, aliases@) == Some(n@),
            None => alias_app(ty@, aliases@) is None,
        },
{
    match ty {
        Type::Named { name, args } => {
            match aliases.get(name.as_str()) {
                Some(def) => {
                    assert(types_view(args@).len() == args@.len());
                    if def.type_params.len() == args.len() {
                        Some(name.as_str())
                    } else {
                        None
                    }
                },
                None => None,
            }
        },
        _ => None,
    }
}

/// How deeply arrays and slices nest at the top of a type.
pub open spec fn nest_depth(t: Ty) -> nat
    decreases t,
{
    match t {
        Ty::Array(inner, _) => 1 + nest_depth(*inner),
        Ty::Slice(inner) => 1 + nest_depth(*inner),
        _ => 0,
    }
}

/// Two expanded types agree, where arrays may differ in their lengths.
pub open spec fn shapes_match(e: Ty, a: Ty) -> bool
    decreases e,
{
    match (e, a) {
        (Ty::Array(x, _), Ty::Array(y, _)) => shapes_match(*x, *y),
        (Ty::Slice(x), Ty::Slice(y)) => shapes_match(*x, *y),
        _ => e == a,
    }
}

/// Whether two types agree once their aliases are expanded.
pub open spec fn base_match(e: Ty, a: Ty, al: Map<Seq<char>, AliasV>) -> Result<bool, Seq<char>> {
    match base_of(e, al) {
        Err(x) => Err(x),
        Ok(re) => match base_of(a, al) {
            Err(x) => Err(x),
            Ok(ra) => Ok(shapes_match(re, ra)),
        },
    }
}

/// A result is the executable counterpart of an outcome of alias expansion.
pub open spec fn decided_as(r: Result<bool, TyperError>, spec: Result<bool, Seq<char>>, al: Map<Seq<char>, AliasV>) -> bool {
    match r {
        Ok(b) => spec == Ok::<bool, Seq<char>>(b),
        Err(e) => spec is Err && al.contains_key(spec->Err_0) && is_cyclic_alias_error(e, spec->Err_0, al[spec->Err_0].span),
    }
}

/// Whether `expected` and `actual` denote the same type once aliases are
/// expanded (array lengths aside).
pub fn base_types_match(expected: &Type, actual: &Type, aliases: &AliasMap) -> (r: Result<bool, TyperError>)
    ensures
        decided_as(r, base_match(expected@, actual@, aliases@), aliases@),
    decreases match base_of(expected@, aliases@) {
        Ok(t) => nest_depth(t),
        Err(_) => 0,
    },
{
    proof {
        aliases.lemma_finite();
    }
    let exp = match base_type(expected, aliases) {
        Ok(t) => t,
        Err(e) => return Err(e),
    };
    let act = match base_type(actual, aliases) {
        Ok(t) => t,
        Err(e) => return Err(e),
    };
    proof {
        lemma_resolve_settled(expected@, aliases@, Seq::empty());
        lemma_resolve_settled(actual@, aliases@, Seq::empty());
    }
    match (&exp, &act) {
        (Type::Array(ei, _), Type::Array(ai, _)) => {
            proof {
                lemma_settled_fixed(ei@, aliases@, Seq::empty());
                lemma_settled_fixed(ai@, aliases@, Seq::empty());
            }
            base_types_match(ei, ai, aliases)
        },
        (Type::Slice(ei), Type::Slice(ai)) => {
            proof {
                lemma_settled_fixed(ei@, aliases@, Seq::empty());
                lemma_settled_fixed(ai@, aliases@, Seq::empty());
            }
            base_types_match(ei, ai, aliases)
        },
        _ => Ok(type_eq(&exp, &act)),
    }
}

/// Whether passing `actual` where `expected` is wanted drops a refinement:
/// a refined alias flows into a plain type, possibly inside an option,
/// result, list, set or map.
pub open spec fn loses_refinement(e: Ty, a: Ty, al: Map<Seq<char>, AliasV>) -> bool
    decreases e,
{
    match (e, a) {
        (Ty::Option(x), Ty::Option(y)) => loses_refinement(*x, *y, al),
        (Ty::Result(x1, x2), Ty::Result(y1, y2)) => loses_refinement(*x1, *y1, al) || loses_refinement(*x2, *y2, al),
        (Ty::List(x), Ty::List(y)) => loses_refinement(*x, *y, al),
        (Ty::SetOf(x), Ty::SetOf(y)) => loses_refinement(*x, *y, al),
        (Ty::MapOf(x1, x2), Ty::MapOf(y1, y2)) => loses_refinement(*x1, *y1, al) || loses_refinement(*x2, *y2, al),
        _ => alias_app(a, al) is Some && alias_app(e, al) is None,
    }
}

pub fn refinement_loss(expected: &Type, actual: &Type, aliases: &AliasMap) -> (r: bool)
    ensures
        r == loses_refinement(expected@, actual@, aliases@),
    decreases expected,
{
    match (expected, actual) {
        (Type::Option(x), Type::Option(y)) => refinement_loss(x, y, aliases),
        (Type::Result(x1, x2), Type::Result(y1, y2)) => refinement_loss(x1, y1, aliases) || refinement_loss(x2, y2, aliases),
        (Type::List(x), Type::List(y)) => refinement_loss(x, y, aliases),
        (Type::SetOf(x), Type::SetOf(y)) => refinement_loss(x, y, aliases),
        (Type::MapOf(x1, x2), Type::MapOf(y1, y2)) => refinement_loss(x1, y1, aliases) || refinement_loss(x2, y2, aliases),
        _ => alias_name(actual, aliases).is_some() && alias_name(expected, aliases).is_none(),
    }
}

/// Whether a value of type `actual` may be bound where `expected` is declared.
pub open spec fn binding_ok(e: Ty, a: Ty, al: Map<Seq<char>, AliasV>) -> Result<bool, Seq<char>> {
    if e == a {
        Ok(true)
    } else if (e is Array && a is Array) || (e is Slice && a is Slice) || (alias_app(e, al) is Some && alias_app(a, al) is None) {
        base_match(e, a, al)
    } else {
        Ok(false)
    }
}

pub fn binding_compatible(expected: &Type, actual: &Type, aliases: &AliasMap) -> (r: Result<bool, TyperError>)
    ensures
        decided_as(r, binding_ok(expected@, actual@, aliases@), aliases@),
{
    if type_eq(expected, actual) {
        return Ok(true);
    }
    let both_arrays = match (expected, actual) {
        (Type::Array(_, _), Type::Array(_, _)) => true,
        _ => false,
    };
    if both_arrays {
        return base_types_match(expected, actual, aliases);
    }
    let both_slices = match (expected, actual) {
        (Type::Slice(_), Type::Slice(_)) => true,
        _ => false,
    };
    if both_slices {
        return base_types_match(expected, actual, aliases);
    }
    if alias_name(expected, aliases).is_some() && alias_name(actual, aliases).is_none() {
        return base_types_match(expected, actual, aliases);
    }
    Ok(false)
}

/// Whether a resource type occurs in `t`.
pub open spec fn holds_resource(t: Ty, res: Set<Seq<char>>) -> bool
    decreases t, 1nat,
{
    match t {
        Ty::Named { name, args } => res.contains(name) || any_holds_resource(args, res),
        Ty::Option(inner) => holds_resource(*inner, res),
        Ty::List(inner) => holds_resource(*inner, res),
        Ty::SetOf(inner) => holds_resource(*inner, res),
        Ty::Slice(inner) => holds_resource(*inner, res),
        Ty::Result(ok, err) => holds_resource(*ok, res) || holds_resource(*err, res),
        Ty::MapOf(k, v) => holds_resource(*k, res) || holds_resource(*v, res),
        Ty::Array(inner, _) => holds_resource(*inner, res),
        Ty::Tuple(elems) => any_holds_resource(elems, res),
        _ => false,
    }
}

pub open spec fn any_holds_resource(s: Seq<Ty>, res: Set<Seq<char>>) -> bool
    decreases s, 0nat,
{
    if s.len() == 0 {
        false
    } else {
        holds_resource(s[0], res) || any_holds_resource(s.subrange(1, s.len() as int), res)
    }
}

proof fn lemma_any_holds_resource(s: Seq<Ty>, res: Set<Seq<char>>)
    ensures
        any_holds_resource(s, res) == exists|i: int| 0 <= i < s.len() && holds_resource(#[trigger] s[i], res),
    decreases s.len(),
{
    if s.len() > 0 {
        let rest = s.subrange(1, s.len() as int);
        lemma_any_holds_resource(rest, res);
        if any_holds_resource(rest, res) {
            let i = choose|i: int| 0 <= i < rest.len() && holds_resource(#[trigger] rest[i], res);
            assert(s[i + 1] == rest[i]);
        }
        if exists|i: int| 0 <= i < s.len() && holds_resource(#[trigger] s[i], res) {
            let i = choose|i: int| 0 <= i < s.len() && holds_resource(#[trigger] s[i], res);
            if i > 0 {
                assert(rest[i - 1] == s[i]);
            }
        }
    }
}

fn any_contains_resource(v: &Vec<Type>, type_defs: &TypeDefs) -> (r: bool)
    ensures
        r == any_holds_resource(types_view(v@), type_defs.resources@),
    decreases v, 0nat,
{
    proof {
        lemma_any_holds_resource(types_view(v@), type_defs.resources@);
    }
    let mut i: usize = 0;
    while i < v.len()
        invariant
            i <= v.len(),
            forall|j: int| 0 <= j < i ==> !holds_resource(#[trigger] types_view(v@)[j], type_defs.resources@),
        decreases v.len() - i,
    {
        assert(decreases_to!(v => v@[i as int]));
        if contains_resource_in_type(&v[i], type_defs) {
            proof {
                crate::ty::lemma_types_view_index(v@, i as int);
                assert(holds_resource(types_view(v@)[i as int], type_defs.resources@));
                lemma_any_holds_resource(types_view(v@), type_defs.resources@);
            }
            return true;
        }
        i = i + 1;
    }
    false
}

fn contains_resource_in_type(ty: &Type, type_defs: &TypeDefs) -> (r: bool)
    ensures
        r == holds_resource(ty@, type_defs.resources@),
    decreases ty, 1nat,
{
    match ty {
        Type::Named { name, args } => {
            type_defs.resources.contains(name.as_str()) || any_contains_resource(args, type_defs)
        },
        Type::Option(inner) | Type::List(inner) | Type::SetOf(inner) | Type::Slice(inner) => {
            contains_resource_in_type(inner, type_defs)
        },
        Type::Result(ok, err) | Type::MapOf(ok, err) => {
            contains_resource_in_type(ok, type_defs) || contains_resource_in_type(err, type_defs)
        },
        Type::Array(inner, _) => contains_resource_in_type(inner, type_defs),
        Type::Tuple(elems) => any_contains_resource(elems, type_defs),
        _ => false,
    }
}

/// Whether a type, once its aliases are expanded, is or holds a resource.
pub open spec fn resource_typed(t: Ty, al: Map<Seq<char>, AliasV>, res: Set<Seq<char>>) -> Result<bool, Seq<char>> {
    match base_of(t, al) {
        Ok(r) => Ok(holds_resource(r, res)),
        Err(x) => Err(x),
    }
}

pub fn is_resource_type(ty: &Type, aliases: &AliasMap, type_defs: &TypeDefs) -> (r: Result<bool, TyperError>)
    ensures
        decided_as(r, resource_typed(ty@, aliases@, type_defs.resources@), aliases@),
{
    let resolved = match base_type(ty, aliases) {
        Ok(t) => t,
        Err(e) => return Err(e),
    };
    let answer = match &resolved {
        Type::Named { name, args } => {
            if args.len() == 0 {
                proof {
                    assert(types_view(args@) =~= Seq::<Ty>::empty());
                    assert(!any_holds_resource(types_view(args@), type_defs.resources@));
                }
                type_defs.resources.contains(name.as_str())
            } else {
                contains_resource_in_type(&resolved, type_defs)
            }
        },
        Type::Option(_) | Type::Result(_, _) | Type::List(_) | Type::SetOf(_) | Type::MapOf(_, _)
        | Type::Array(_, _) | Type::Slice(_) | Type::Tuple(_) => contains_resource_in_type(&resolved, type_defs),
        _ => {
            proof {
                assert(!holds_resource(resolved@, type_defs.resources@));
            }
            false
        },
    };
    proof {
        assert(base_of(ty@, aliases@) == Ok::<Ty, Seq<char>>(resolved@));
        assert(answer == holds_resource(resolved@, type_defs.resources@));
    }
    Ok(answer)
}

} // verus!
