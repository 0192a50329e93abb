use vstd::prelude::*;
use crate::env::{enum_names, find_enum, find_struct, struct_names, TraitBound, TraitEnv, TypeDefs, TypeParam};
use crate::text::str_eq;
use crate::errors::TyperError;
use crate::names::{NameSet};
use crate::ty::{copy_type, type_eq, types_view, Span, Ty, Type};
use crate::type_params::{mentions_any, mentions_params, TypeSubst};
use crate::type_resolve::{base_of, base_type, decided_as, is_cyclic_alias_error, AliasMap};

verus! {

/// Names that a type parameter may not take: the builtin types and `Self`.
pub open spec fn builtin_names() -> Set<Seq<char>> {
    set![
        "Int"@, "U8"@, "U64"@, "U128"@, "U256"@, "Bool"@, "String"@, "Bytes"@, "Option"@, "Result"@, "List"@,
        "Set"@, "Map"@, "Self"@
    ]
}

pub fn builtin_type_names() -> (s: NameSet)
    ensures
        s@ == builtin_names(),
{
    let mut s = NameSet::new();
    s.insert("Int".to_string());
    s.insert("U8".to_string());
    s.insert("U64".to_string());
    s.insert("U128".to_string());
    s.insert("U256".to_string());
    s.insert("Bool".to_string());
    s.insert("String".to_string());
    s.insert("Bytes".to_string());
    s.insert("Option".to_string());
    s.insert("Result".to_string());
    s.insert("List".to_string());
    s.insert("Set".to_string());
    s.insert("Map".to_string());
    s.insert("Self".to_string());
    assert(s@ =~= builtin_names());
    s
}

/// The names of a list of type parameters.
pub open spec fn param_names(params: Seq<TypeParam>) -> Set<Seq<char>> {
    Set::new(|k: Seq<char>| exists|i: int| 0 <= i < params.len() && (#[trigger] params[i]).name@ == k)
}

pub fn type_param_names(params: &Vec<TypeParam>) -> (s: NameSet)
    ensures
        s@ == param_names(params@),
{
    let mut s = NameSet::new();
    let mut i: usize = 0;
    while i < params.len()
        invariant
            i <= params@.len(),
            s@ == param_names(params@.subrange(0, i as int)),
        decreases params.len() - i,
    {
        s.insert(params[i].name.clone());
        proof {
            let next = params@.subrange(0, i as int + 1);
            assert forall|k: Seq<char>| #[trigger] param_names(next).contains(k)
                <==> param_names(params@.subrange(0, i as int)).insert(params@[i as int].name@).contains(k) by {
                if param_names(next).contains(k) {
                    let j = choose|j: int| 0 <= j < next.len() && (#[trigger] next[j]).name@ == k;
                    if j < i {
                        assert(params@.subrange(0, i as int)[j] == next[j]);
                    }
                }
                if param_names(params@.subrange(0, i as int)).contains(k) {
                    let j = choose|j: int| 0 <= j < i && (#[trigger] params@.subrange(0, i as int)[j]).name@ == k;
                    assert(next[j] == params@.subrange(0, i as int)[j]);
                }
                if k == params@[i as int].name@ {
                    assert(next[i as int] == params@[i as int]);
                }
            }
            assert(param_names(next) =~= param_names(params@.subrange(0, i as int)).insert(params@[i as int].name@));
        }
        i = i + 1;
    }
    assert(params@.subrange(0, params@.len() as int) =~= params@);
    s
}

/// Why a list of type parameters was refused.
#[derive(Debug)]
pub enum TypeParamFault {
    /// A name declared twice in the list.
    Duplicate { name: String, span: Span },
    /// A name already taken by a builtin, a declared type, an alias or a trait.
    Conflict { name: String, span: Span },
}

/// A name that a declared type parameter may not shadow.
pub open spec fn taken_name(k: Seq<char>, type_defs: TypeDefs, aliases: AliasMap, trait_env: TraitEnv) -> bool {
    builtin_names().contains(k) || type_defs.resources@.contains(k) || struct_names(type_defs.structs@).contains(k)
        || enum_names(type_defs.enums@).contains(k) || aliases@.contains_key(k) || trait_env.traits@.contains_key(k)
}

/// Index of the first parameter whose name repeats an earlier one or is taken,
/// if any.
pub open spec fn first_bad_param(params: Seq<TypeParam>, type_defs: TypeDefs, aliases: AliasMap, trait_env: TraitEnv, i: int) -> bool {
    &&& 0 <= i < params.len()
    &&& (param_names(params.subrange(0, i)).contains(params[i].name@) || taken_name(params[i].name@, type_defs, aliases, trait_env))
    &&& forall|j: int| 0 <= j < i ==> !param_names(params.subrange(0, j)).contains(#[trigger] params[j].name@)
        && !taken_name(params[j].name@, type_defs, aliases, trait_env)
}

/// `f` reports the first refused parameter of `params`: a repeated name, or
/// one already taken.
pub open spec fn type_param_fault_is(f: TypeParamFault, params: Seq<TypeParam>, type_defs: TypeDefs, aliases: AliasMap, trait_env: TraitEnv) -> bool {
    exists|i: int| #[trigger] first_bad_param(params, type_defs, aliases, trait_env, i) && match f {
        TypeParamFault::Duplicate { name, span } => name@ == params[i].name@ && span == params[i].span
            && param_names(params.subrange(0, i)).contains(params[i].name@),
        TypeParamFault::Conflict { name, span } => name@ == params[i].name@ && span == params[i].span
            && !param_names(params.subrange(0, i)).contains(params[i].name@),
    }
}

/// Checks the type parameters of a declaration and returns their names.
pub fn validate_type_params(params: &Vec<TypeParam>, type_defs: &TypeDefs, aliases: &AliasMap, trait_env: &TraitEnv) -> (r: Result<NameSet, TypeParamFault>)
    ensures
        match r {
            Ok(s) => s@ == param_names(params@) && forall|j: int| 0 <= j < params@.len() ==>
                !param_names(params@.subrange(0, j)).contains(#[trigger] params@[j].name@)
                && !taken_name(params@[j].name@, *type_defs, *aliases, *trait_env),
            Err(f) => type_param_fault_is(f, params@, *type_defs, *aliases, *trait_env),
        },
{
    let reserved = builtin_type_names();
    let mut names = NameSet::new();
    let mut i: usize = 0;
    while i < params.len()
        invariant
            i <= params@.len(),
            reserved@ == builtin_names(),
            names@ == param_names(params@.subrange(0, i as int)),
            forall|j: int| 0 <= j < i ==> !param_names(params@.subrange(0, j)).contains(#[trigger] params@[j].name@)
                && !taken_name(params@[j].name@, *type_defs, *aliases, *trait_env),
        decreases params.len() - i,
    {
        let p = &params[i];
        let ghost prev = names@;
        let fresh = names.insert(p.name.clone());
        if !fresh {
            proof {
                assert(first_bad_param(params@, *type_defs, *aliases, *trait_env, i as int));
            }
            return Err(TypeParamFault::Duplicate { name: p.name.clone(), span: p.span });
        }
        let n = p.name.as_str();
        if reserved.contains(n) || type_defs.resources.contains(n) || find_struct(&type_defs.structs, n).is_some()
            || find_enum(&type_defs.enums, n).is_some() || aliases.contains_key(n) || trait_env.traits.contains_key(n) {
            proof {
                assert(first_bad_param(params@, *type_defs, *aliases, *trait_env, i as int));
            }
            return Err(TypeParamFault::Conflict { name: p.name.clone(), span: p.span });
        }
        proof {
            let next = params@.subrange(0, i as int + 1);
            assert forall|k: Seq<char>| #[trigger] param_names(next).contains(k) <==> prev.insert(params@[i as int].name@).contains(k) by {
                if param_names(next).contains(k) {
                    let j = choose|j: int| 0 <= j < next.len() && (#[trigger] next[j]).name@ == k;
                    if j < i {
                        assert(params@.subrange(0, i as int)[j] == next[j]);
                    }
                }
                if prev.contains(k) {
                    let j = choose|j: int| 0 <= j < i && (#[trigger] params@.subrange(0, i as int)[j]).name@ == k;
                    assert(next[j] == params@.subrange(0, i as int)[j]);
                }
                if k == params@[i as int].name@ {
                    assert(next[i as int] == params@[i as int]);
                }
            }
            assert(param_names(next) =~= prev.insert(params@[i as int].name@));
        }
        i = i + 1;
    }
    assert(params@.subrange(0, params@.len() as int) =~= params@);
    Ok(names)
}

/// Why matching a generic signature against argument types failed.
pub enum UnifyFault {
    /// Expanding an alias ran into a cycle through this alias.
    Cyclic(Seq<char>),
    /// The parameter was bound to one type and met another.
    Mismatch(Seq<char>, Ty, Ty),
}

/// An executable counterpart of `UnifyFault`.
#[derive(Debug)]
pub enum UnifyError {
    Cyclic(TyperError),
    Mismatch { name: String, existing: Type, actual: Type },
}

/// Matches `pattern` against `actual`, binding the parameters of `params`
/// that occur bare in `pattern`. Parts whose shapes differ are skipped. The
/// result is the substitution reached and the fault that stopped it, if any.
pub open spec fn unify(p: Ty, a: Ty, params: Set<Seq<char>>, s: Map<Seq<char>, Ty>, al: Map<Seq<char>, crate::type_resolve::AliasV>) -> (Map<Seq<char>, Ty>, Option<UnifyFault>)
    decreases p, 1nat,
{
    match p {
        Ty::Named { name, args } => if args.len() == 0 && params.contains(name) {
            if s.contains_key(name) {
                match base_of(s[name], al) {
                    Err(x) => (s, Some(UnifyFault::Cyclic(x))),
                    Ok(be) => match base_of(a, al) {
                        Err(x) => (s, Some(UnifyFault::Cyclic(x))),
                        Ok(ba) => if be != ba {
                            (s, Some(UnifyFault::Mismatch(name, s[name], a)))
                        } else {
                            (s, None)
                        },
                    },
                }
            } else {
                (s.insert(name, a), None)
            }
        } else {
            match a {
                Ty::Named { name: an, args: aargs } => if name == an && args.len() == aargs.len() {
                    unify_all(args, aargs, params, s, al)
                } else {
                    (s, None)
                },
                _ => (s, None),
            }
        },
        Ty::Option(x) => match a {
            Ty::Option(y) => unify(*x, *y, params, s, al),
            _ => (s, None),
        },
        Ty::Result(x1, x2) => match a {
            Ty::Result(y1, y2) => {
                let (s1, f1) = unify(*x1, *y1, params, s, al);
                if f1 is Some {
                    (s1, f1)
                } else {
                    unify(*x2, *y2, params, s1, al)
                }
            },
            _ => (s, None),
        },
        Ty::List(x) => match a {
            Ty::List(y) => unify(*x, *y, params, s, al),
            _ => (s, None),
        },
        Ty::SetOf(x) => match a {
            Ty::SetOf(y) => unify(*x, *y, params, s, al),
            _ => (s, None),
        },
        Ty::MapOf(x1, x2) => match a {
            Ty::MapOf(y1, y2) => {
                let (s1, f1) = unify(*x1, *y1, params, s, al);
                if f1 is Some {
                    (s1, f1)
                } else {
                    unify(*x2, *y2, params, s1, al)
                }
            },
            _ => (s, None),
        },
        Ty::Array(x, _) => match a {
            Ty::Array(y, _) => unify(*x, *y, params, s, al),
            _ => (s, None),
        },
        Ty::Slice(x) => match a {
            Ty::Slice(y) => unify(*x, *y, params, s, al),
            _ => (s, None),
        },
        Ty::Tuple(xs) => match a {
            Ty::Tuple(ys) => if xs.len() == ys.len() {
                unify_all(xs, ys, params, s, al)
            } else {
                (s, None)
            },
            _ => (s, None),
        },
        _ => (s, None),
    }
}

/// Pairwise matching of two lists, left to right, stopping at the first fault.
pub open spec fn unify_all(ps: Seq<Ty>, xs: Seq<Ty>, params: Set<Seq<char>>, s: Map<Seq<char>, Ty>, al: Map<Seq<char>, crate::type_resolve::AliasV>) -> (Map<Seq<char>, Ty>, Option<UnifyFault>)
    decreases ps, 0nat,
{
    if ps.len() == 0 {
        (s, None)
    } else {
        let (s1, f1) = unify(ps[0], xs[0], params, s, al);
        if f1 is Some {
            (s1, f1)
        } else {
            unify_all(ps.drop_first(), xs.drop_first(), params, s1, al)
        }
    }
}

/// An executable fault reports the specified one.
pub open spec fn unify_error_is(e: UnifyError, f: UnifyFault, al: Map<Seq<char>, crate::type_resolve::AliasV>) -> bool {
    match (e, f) {
        (UnifyError::Cyclic(te), UnifyFault::Cyclic(x)) => al.contains_key(x) && is_cyclic_alias_error(te, x, al[x].span),
        (UnifyError::Mismatch { name, existing, actual }, UnifyFault::Mismatch(n, ex, ac)) => name@ == n && existing@ == ex && actual@ == ac,
        _ => false,
    }
}

fn unify_lists(ps: &Vec<Type>, xs: &Vec<Type>, params: &NameSet, subst: &mut TypeSubst, aliases: &AliasMap) -> (r: Result<(), UnifyError>)
    requires
        ps@.len() == xs@.len(),
        aliases@.dom().finite(),
    ensures
        ({
            let (m, f) = unify_all(types_view(ps@), types_view(xs@), params@, old(subst)@, aliases@);
            &&& final(subst)@ == m
            &&& match f {
                None => r is Ok,
                Some(fault) => r matches Err(e) && unify_error_is(e, fault, aliases@),
            }
        }),
    decreases ps, 0nat,
{
    let ghost pv = types_view(ps@);
    let ghost xv = types_view(xs@);
    let ghost start = subst@;
    let mut i: usize = 0;
    assert(pv.subrange(0, pv.len() as int) =~= pv);
    assert(xv.subrange(0, xv.len() as int) =~= xv);
    while i < ps.len()
        invariant
            i <= ps@.len(),
            ps@.len() == xs@.len(),
            aliases@.dom().finite(),
            pv == types_view(ps@),
            xv == types_view(xs@),
            start == old(subst)@,
            unify_all(pv, xv, params@, start, aliases@)
                == unify_all(pv.subrange(i as int, pv.len() as int), xv.subrange(i as int, xv.len() as int), params@, subst@, aliases@),
        decreases ps.len() - i,
    {
        assert(decreases_to!(ps => ps@[i as int]));
        let ghost prest = pv.subrange(i as int, pv.len() as int);
        let ghost xrest = xv.subrange(i as int, xv.len() as int);
        assert(prest.drop_first() =~= pv.subrange(i as int + 1, pv.len() as int));
        assert(xrest.drop_first() =~= xv.subrange(i as int + 1, xv.len() as int));
        assert(prest[0] == ps@[i as int]@);
        assert(xrest[0] == xs@[i as int]@);
        let ghost before = subst@;
        let step = unify_type_params(&ps[i], &xs[i], params, subst, aliases);
        proof {
            let res = unify(prest[0], xrest[0], params@, before, aliases@);
            assert(res.1 is Some ==> unify_all(prest, xrest, params@, before, aliases@) == res);
            assert(res.1 is None ==> unify_all(prest, xrest, params@, before, aliases@)
                == unify_all(prest.drop_first(), xrest.drop_first(), params@, res.0, aliases@));
        }
        if let Err(e) = step {
            return Err(e);
        }
        i = i + 1;
    }
    Ok(())
}

/// Binds the type parameters of `params` that occur in `pattern` to the
/// matching parts of `actual`, checking bindings made earlier.
pub fn unify_type_params(pattern: &Type, actual: &Type, params: &NameSet, subst: &mut TypeSubst, aliases: &AliasMap) -> (r: Result<(), UnifyError>)
    ensures
        ({
            let (m, f) = unify(pattern@, actual@, params@, old(subst)@, aliases@);
            &&& final(subst)@ == m
            &&& match f {
                None => r is Ok,
                Some(fault) => r matches Err(e) && unify_error_is(e, fault, aliases@),
            }
        }),
    decreases pattern, 1nat,
{
    proof {
        aliases.lemma_finite();
    }
    match pattern {
        Type::Named { name, args } => {
            if args.len() == 0 && params.contains(name.as_str()) {
                proof {
                    assert(types_view(args@).len() == 0);
                }
                match subst.get(name.as_str()) {
                    Some(existing) => {
                        let be = match base_type(existing, aliases) {
                            Ok(t) => t,
                            Err(e) => return Err(UnifyError::Cyclic(e)),
                        };
                        let ba = match base_type(actual, aliases) {
                            Ok(t) => t,
                            Err(e) => return Err(UnifyError::Cyclic(e)),
                        };
                        if !type_eq(&be, &ba) {
                            return Err(UnifyError::Mismatch { name: name.clone(), existing: copy_type(existing), actual: copy_type(actual) });
                        }
                        Ok(())
                    },
                    None => {
                        subst.insert(name.clone(), copy_type(actual));
                        Ok(())
                    },
                }
            } else {
                match actual {
                    Type::Named { name: an, args: aargs } => {
                        if *name == *an && args.len() == aargs.len() {
                            unify_lists(args, aargs, params, subst, aliases)
                        } else {
                            Ok(())
                        }
                    },
                    _ => Ok(()),
                }
            }
        },
        Type::Option(x) => match actual {
            Type::Option(y) => unify_type_params(x, y, params, subst, aliases),
            _ => Ok(()),
        },
        Type::Result(x1, x2) => match actual {
            Type::Result(y1, y2) => {
                unify_type_params(x1, y1, params, subst, aliases)?;
                unify_type_params(x2, y2, params, subst, aliases)
            },
            _ => Ok(()),
        },
        Type::List(x) => match actual {
            Type::List(y) => unify_type_params(x, y, params, subst, aliases),
            _ => Ok(()),
        },
        Type::SetOf(x) => match actual {
            Type::SetOf(y) => unify_type_params(x, y, params, subst, aliases),
            _ => Ok(()),
        },
        Type::MapOf(x1, x2) => match actual {
            Type::MapOf(y1, y2) => {
                unify_type_params(x1, y1, params, subst, aliases)?;
                unify_type_params(x2, y2, params, subst, aliases)
            },
            _ => Ok(()),
        },
        Type::Array(x, _) => match actual {
            Type::Array(y, _) => unify_type_params(x, y, params, subst, aliases),
            _ => Ok(()),
        },
        Type::Slice(x) => match actual {
            Type::Slice(y) => unify_type_params(x, y, params, subst, aliases),
            _ => Ok(()),
        },
        Type::Tuple(xs) => match actual {
            Type::Tuple(ys) => {
                if xs.len() == ys.len() {
                    unify_lists(xs, ys, params, subst, aliases)
                } else {
                    Ok(())
                }
            },
            _ => Ok(()),
        },
        _ => Ok(()),
    }
}

/// Matching only adds bindings: earlier ones stay, and new ones are for
/// declared parameters.
pub proof fn lemma_unify_extends(p: Ty, a: Ty, params: Set<Seq<char>>, s: Map<Seq<char>, Ty>, al: Map<Seq<char>, crate::type_resolve::AliasV>)
    ensures
        forall|k: Seq<char>| #[trigger] s.contains_key(k) ==> unify(p, a, params, s, al).0.contains_key(k)
            && unify(p, a, params, s, al).0[k] == s[k],
        forall|k: Seq<char>| #[trigger] unify(p, a, params, s, al).0.contains_key(k) ==> s.contains_key(k) || params.contains(k),
    decreases p, 1nat,
{
    match p {
        Ty::Named { name, args } => {
            if !(args.len() == 0 && params.contains(name)) {
                if let Ty::Named { name: an, args: aargs } = a {
                    if name == an && args.len() == aargs.len() {
                        lemma_unify_all_extends(args, aargs, params, s, al);
                        assert(unify(p, a, params, s, al) == unify_all(args, aargs, params, s, al));
                        assert forall|k: Seq<char>| #[trigger] unify(p, a, params, s, al).0.contains_key(k) implies s.contains_key(k) || params.contains(k) by {
                            assert(unify_all(args, aargs, params, s, al).0.contains_key(k));
                        }
                    } else {
                        assert(unify(p, a, params, s, al).0 == s);
                    }
                } else {
                    assert(unify(p, a, params, s, al).0 == s);
                }
            } else if !s.contains_key(name) {
                assert forall|k: Seq<char>| #[trigger] unify(p, a, params, s, al).0.contains_key(k) implies s.contains_key(k) || params.contains(k) by {
                    assert(unify(p, a, params, s, al).0 == s.insert(name, a));
                }
            } else {
                assert(unify(p, a, params, s, al).0 == s);
            }
        },
        Ty::Option(x) => if let Ty::Option(y) = a {
            lemma_unify_extends(*x, *y, params, s, al);
            assert(unify(p, a, params, s, al) == unify(*x, *y, params, s, al));
            assert forall|k: Seq<char>| #[trigger] unify(p, a, params, s, al).0.contains_key(k) implies s.contains_key(k) || params.contains(k) by {
                assert(unify(*x, *y, params, s, al).0.contains_key(k));
            }
        },
        Ty::List(x) => if let Ty::List(y) = a {
            lemma_unify_extends(*x, *y, params, s, al);
            assert(unify(p, a, params, s, al) == unify(*x, *y, params, s, al));
            assert forall|k: Seq<char>| #[trigger] unify(p, a, params, s, al).0.contains_key(k) implies s.contains_key(k) || params.contains(k) by {
                assert(unify(*x, *y, params, s, al).0.contains_key(k));
            }
        },
        Ty::SetOf(x) => if let Ty::SetOf(y) = a {
            lemma_unify_extends(*x, *y, params, s, al);
            assert(unify(p, a, params, s, al) == unify(*x, *y, params, s, al));
            assert forall|k: Seq<char>| #[trigger] unify(p, a, params, s, al).0.contains_key(k) implies s.contains_key(k) || params.contains(k) by {
                assert(unify(*x, *y, params, s, al).0.contains_key(k));
            }
        },
        Ty::Slice(x) => if let Ty::Slice(y) = a {
            lemma_unify_extends(*x, *y, params, s, al);
            assert(unify(p, a, params, s, al) == unify(*x, *y, params, s, al));
            assert forall|k: Seq<char>| #[trigger] unify(p, a, params, s, al).0.contains_key(k) implies s.contains_key(k) || params.contains(k) by {
                assert(unify(*x, *y, params, s, al).0.contains_key(k));
            }
        },
        Ty::Array(x, _) => if let Ty::Array(y, _) = a {
            lemma_unify_extends(*x, *y, params, s, al);
            assert(unify(p, a, params, s, al) == unify(*x, *y, params, s, al));
            assert forall|k: Seq<char>| #[trigger] unify(p, a, params, s, al).0.contains_key(k) implies s.contains_key(k) || params.contains(k) by {
                assert(unify(*x, *y, params, s, al).0.contains_key(k));
            }
        },
        Ty::Result(x1, x2) => if let Ty::Result(y1, y2) = a {
            lemma_unify_extends(*x1, *y1, params, s, al);
            let s1 = unify(*x1, *y1, params, s, al).0;
            lemma_unify_extends(*x2, *y2, params, s1, al);
            assert forall|k: Seq<char>| #[trigger] unify(p, a, params, s, al).0.contains_key(k) implies s.contains_key(k) || params.contains(k) by {
                if unify(*x1, *y1, params, s, al).1 is None {
                    assert(unify(p, a, params, s, al) == unify(*x2, *y2, params, s1, al));
                    assert(unify(*x2, *y2, params, s1, al).0.contains_key(k));
                    assert(s1.contains_key(k) || params.contains(k));
                }
            }
        },
        Ty::MapOf(x1, x2) => if let Ty::MapOf(y1, y2) = a {
            lemma_unify_extends(*x1, *y1, params, s, al);
            let s1 = unify(*x1, *y1, params, s, al).0;
            lemma_unify_extends(*x2, *y2, params, s1, al);
            assert forall|k: Seq<char>| #[trigger] unify(p, a, params, s, al).0.contains_key(k) implies s.contains_key(k) || params.contains(k) by {
                if unify(*x1, *y1, params, s, al).1 is None {
                    assert(unify(p, a, params, s, al) == unify(*x2, *y2, params, s1, al));
                    assert(unify(*x2, *y2, params, s1, al).0.contains_key(k));
                    assert(s1.contains_key(k) || params.contains(k));
                }
            }
        },
        Ty::Tuple(xs) => if let Ty::Tuple(ys) = a {
            if xs.len() == ys.len() {
                lemma_unify_all_extends(xs, ys, params, s, al);
                assert(unify(p, a, params, s, al) == unify_all(xs, ys, params, s, al));
                assert forall|k: Seq<char>| #[trigger] unify(p, a, params, s, al).0.contains_key(k) implies s.contains_key(k) || params.contains(k) by {
                    assert(unify_all(xs, ys, params, s, al).0.contains_key(k));
                }
            }
        },
        _ => {},
    }
}

pub proof fn lemma_unify_all_extends(ps: Seq<Ty>, xs: Seq<Ty>, params: Set<Seq<char>>, s: Map<Seq<char>, Ty>, al: Map<Seq<char>, crate::type_resolve::AliasV>)
    ensures
        forall|k: Seq<char>| #[trigger] s.contains_key(k) ==> unify_all(ps, xs, params, s, al).0.contains_key(k)
            && unify_all(ps, xs, params, s, al).0[k] == s[k],
        forall|k: Seq<char>| #[trigger] unify_all(ps, xs, params, s, al).0.contains_key(k) ==> s.contains_key(k) || params.contains(k),
    decreases ps, 0nat,
{
    if ps.len() > 0 {
        lemma_unify_extends(ps[0], xs[0], params, s, al);
        let s1 = unify(ps[0], xs[0], params, s, al).0;
        lemma_unify_all_extends(ps.drop_first(), xs.drop_first(), params, s1, al);
        assert forall|k: Seq<char>| #[trigger] unify_all(ps, xs, params, s, al).0.contains_key(k) implies s.contains_key(k) || params.contains(k) by {
            if unify(ps[0], xs[0], params, s, al).1 is None {
                assert(unify_all(ps, xs, params, s, al) == unify_all(ps.drop_first(), xs.drop_first(), params, s1, al));
                assert(s1.contains_key(k) || params.contains(k));
            }
        }
    }
}

/// A pattern that mentions no parameter binds nothing and cannot fail.
pub proof fn lemma_unify_without_params(p: Ty, a: Ty, params: Set<Seq<char>>, s: Map<Seq<char>, Ty>, al: Map<Seq<char>, crate::type_resolve::AliasV>)
    requires
        !mentions_params(p, params),
    ensures
        unify(p, a, params, s, al) == (s, Option::<UnifyFault>::None),
    decreases p, 1nat,
{
    match p {
        Ty::Named { name, args } => {
            if let Ty::Named { name: an, args: aargs } = a {
                if name == an && args.len() == aargs.len() {
                    lemma_unify_all_without_params(args, aargs, params, s, al);
                }
            }
        },
        Ty::Option(x) => if let Ty::Option(y) = a {
            lemma_unify_without_params(*x, *y, params, s, al);
        },
        Ty::List(x) => if let Ty::List(y) = a {
            lemma_unify_without_params(*x, *y, params, s, al);
        },
        Ty::SetOf(x) => if let Ty::SetOf(y) = a {
            lemma_unify_without_params(*x, *y, params, s, al);
        },
        Ty::Slice(x) => if let Ty::Slice(y) = a {
            lemma_unify_without_params(*x, *y, params, s, al);
        },
        Ty::Array(x, _) => if let Ty::Array(y, _) = a {
            lemma_unify_without_params(*x, *y, params, s, al);
        },
        Ty::Result(x1, x2) => if let Ty::Result(y1, y2) = a {
            lemma_unify_without_params(*x1, *y1, params, s, al);
            lemma_unify_without_params(*x2, *y2, params, s, al);
        },
        Ty::MapOf(x1, x2) => if let Ty::MapOf(y1, y2) = a {
            lemma_unify_without_params(*x1, *y1, params, s, al);
            lemma_unify_without_params(*x2, *y2, params, s, al);
        },
        Ty::Tuple(xs) => if let Ty::Tuple(ys) = a {
            if xs.len() == ys.len() {
                lemma_unify_all_without_params(xs, ys, params, s, al);
            }
        },
        _ => {},
    }
}

proof fn lemma_unify_all_without_params(ps: Seq<Ty>, xs: Seq<Ty>, params: Set<Seq<char>>, s: Map<Seq<char>, Ty>, al: Map<Seq<char>, crate::type_resolve::AliasV>)
    requires
        !mentions_any(ps, params),
    ensures
        unify_all(ps, xs, params, s, al) == (s, Option::<UnifyFault>::None),
    decreases ps, 0nat,
{
    if ps.len() > 0 {
        lemma_unify_without_params(ps[0], xs[0], params, s, al);
        assert(ps.drop_first() =~= ps.subrange(1, ps.len() as int));
        lemma_unify_all_without_params(ps.drop_first(), xs.drop_first(), params, s, al);
    }
}

/// The traits each type parameter is bound by, as (parameter, trait) pairs.
#[derive(Debug)]
pub struct BoundsMap {
    pairs: Vec<(String, String)>,
}

impl View for BoundsMap {
    type V = Set<(Seq<char>, Seq<char>)>;

    closed spec fn view(&self) -> Set<(Seq<char>, Seq<char>)> {
        Set::new(|p: (Seq<char>, Seq<char>)| exists|i: int| 0 <= i < self.pairs@.len()
            && (#[trigger] self.pairs@[i]).0@ == p.0 && self.pairs@[i].1@ == p.1)
    }
}

impl BoundsMap {
    pub fn new() -> (m: Self)
        ensures
            m@ == Set::<(Seq<char>, Seq<char>)>::empty(),
    {
        let m = BoundsMap { pairs: Vec::new() };
        assert(m@ =~= Set::<(Seq<char>, Seq<char>)>::empty());
        m
    }

    /// Records that `param` is bound by `trait_name`.
    pub fn insert(&mut self, param: String, trait_name: String)
        ensures
            final(self)@ == old(self)@.insert((param@, trait_name@)),
    {
        let ghost p = (param@, trait_name@);
        self.pairs.push((param, trait_name));
        assert forall|q: (Seq<char>, Seq<char>)| #[trigger] self@.contains(q) <==> old(self)@.insert(p).contains(q) by {
            if q == p {
                assert(self.pairs@[self.pairs@.len() - 1].0@ == q.0);
            }
            if old(self)@.contains(q) {
                let i = choose|i: int| 0 <= i < old(self).pairs@.len() && (#[trigger] old(self).pairs@[i]).0@ == q.0
                    && old(self).pairs@[i].1@ == q.1;
                assert(self.pairs@[i] == old(self).pairs@[i]);
            }
        }
        assert(self@ =~= old(self)@.insert(p));
    }

    /// Whether `param` is bound by `trait_name`.
    pub fn has_bound(&self, param: &str, trait_name: &str) -> (r: bool)
        ensures
            r == self@.contains((param@, trait_name@)),
    {
        let mut i: usize = 0;
        while i < self.pairs.len()
            invariant
                i <= self.pairs@.len(),
                forall|j: int| 0 <= j < i ==> !((#[trigger] self.pairs@[j]).0@ == param@ && self.pairs@[j].1@ == trait_name@),
            decreases self.pairs.len() - i,
        {
            if str_eq(self.pairs[i].0.as_str(), param) && str_eq(self.pairs[i].1.as_str(), trait_name) {
                return true;
            }
            i = i + 1;
        }
        false
    }
}

/// Why a `where` clause was refused.
#[derive(Debug)]
pub enum BoundFault {
    /// The bound names a type parameter that is not declared.
    UnknownTypeParam { name: String, span: Span },
    /// The bound names a trait that is not declared.
    UnknownTrait { name: String, span: Span },
}

/// A bound on a declared parameter by a declared trait.
pub open spec fn bound_ok(b: TraitBound, tp: Set<Seq<char>>, trait_env: TraitEnv) -> bool {
    tp.contains(b.param@) && trait_env.traits@.contains_key(b.trait_name@)
}

/// The (parameter, trait) pairs of a list of bounds.
pub open spec fn bound_pairs(bounds: Seq<TraitBound>) -> Set<(Seq<char>, Seq<char>)> {
    Set::new(|p: (Seq<char>, Seq<char>)| exists|i: int| 0 <= i < bounds.len()
        && (#[trigger] bounds[i]).param@ == p.0 && bounds[i].trait_name@ == p.1)
}

/// Checks a `where` clause against the declared parameters and traits.
pub fn validate_bounds(bounds: &Vec<TraitBound>, type_params: &NameSet, trait_env: &TraitEnv) -> (r: Result<BoundsMap, BoundFault>)
    ensures
        match r {
            Ok(m) => m@ == bound_pairs(bounds@) && forall|i: int| 0 <= i < bounds@.len() ==> #[trigger] bound_ok(
                bounds@[i],
                type_params@,
                *trait_env,
            ),
            Err(f) => exists|i: int| 0 <= i < bounds@.len() && !#[trigger] bound_ok(bounds@[i], type_params@, *trait_env)
                && (forall|j: int| 0 <= j < i ==> bound_ok(bounds@[j], type_params@, *trait_env)) && match f {
                BoundFault::UnknownTypeParam { name, span } => !type_params@.contains(bounds@[i].param@)
                    && name@ == bounds@[i].param@ && span == bounds@[i].span,
                BoundFault::UnknownTrait { name, span } => type_params@.contains(bounds@[i].param@)
                    && name@ == bounds@[i].trait_name@ && span == bounds@[i].span,
            },
        },
{
    let mut map = BoundsMap::new();
    let mut i: usize = 0;
    while i < bounds.len()
        invariant
            i <= bounds@.len(),
            map@ == bound_pairs(bounds@.subrange(0, i as int)),
            forall|j: int| 0 <= j < i ==> #[trigger] bound_ok(bounds@[j], type_params@, *trait_env),
        decreases bounds.len() - i,
    {
        let b = &bounds[i];
        if !type_params.contains(b.param.as_str()) {
            proof {
                assert(!bound_ok(bounds@[i as int], type_params@, *trait_env));
            }
            return Err(BoundFault::UnknownTypeParam { name: b.param.clone(), span: b.span });
        }
        if !trait_env.traits.contains_key(b.trait_name.as_str()) {
            proof {
                assert(!bound_ok(bounds@[i as int], type_params@, *trait_env));
            }
            return Err(BoundFault::UnknownTrait { name: b.trait_name.clone(), span: b.span });
        }
        let ghost prev = map@;
        map.insert(b.param.clone(), b.trait_name.clone());
        proof {
            let next = bounds@.subrange(0, i as int + 1);
            let pre = bounds@.subrange(0, i as int);
            assert forall|p: (Seq<char>, Seq<char>)| #[trigger] bound_pairs(next).contains(p)
                <==> prev.insert((b.param@, b.trait_name@)).contains(p) by {
                if bound_pairs(next).contains(p) {
                    let j = choose|j: int| 0 <= j < next.len() && (#[trigger] next[j]).param@ == p.0 && next[j].trait_name@ == p.1;
                    if j < i {
                        assert(pre[j] == next[j]);
                    }
                }
                if prev.contains(p) {
                    let j = choose|j: int| 0 <= j < pre.len() && (#[trigger] pre[j]).param@ == p.0 && pre[j].trait_name@ == p.1;
                    assert(next[j] == pre[j]);
                }
                if p == (b.param@, b.trait_name@) {
                    assert(next[i as int] == bounds@[i as int]);
                }
            }
            assert(bound_pairs(next) =~= prev.insert((b.param@, b.trait_name@)));
        }
        i = i + 1;
    }
    assert(bounds@.subrange(0, bounds@.len() as int) =~= bounds@);
    Ok(map)
}

/// Matches an impl's `pattern` type against `actual`, binding the pattern's
/// type parameters (names of `params` with no arguments) in `s`: a bound
/// parameter must meet a type equal to its binding once aliases are
/// expanded; structure must agree otherwise (array lengths aside); any other
/// type is compared with `actual` after expanding aliases. Returns the
/// substitution reached and the verdict.
pub open spec fn pattern_match(p: Ty, a: Ty, params: Set<Seq<char>>, s: Map<Seq<char>, Ty>, al: Map<Seq<char>, crate::type_resolve::AliasV>) -> (Map<Seq<char>, Ty>, Result<bool, Seq<char>>)
    decreases p, 1nat,
{
    match p {
        Ty::Named { name, args } => if args.len() == 0 && params.contains(name) {
            if s.contains_key(name) {
                match base_of(s[name], al) {
                    Err(x) => (s, Err(x)),
                    Ok(be) => match base_of(a, al) {
                        Err(x) => (s, Err(x)),
                        Ok(ba) => (s, Ok(be == ba)),
                    },
                }
            } else {
                (s.insert(name, a), Ok(true))
            }
        } else {
            match a {
                Ty::Named { name: an, args: aargs } => if name == an && args.len() == aargs.len() {
                    pattern_match_all(args, aargs, params, s, al)
                } else {
                    (s, Ok(false))
                },
                _ => (s, Ok(false)),
            }
        },
        Ty::Option(x) => match a {
            Ty::Option(y) => pattern_match(*x, *y, params, s, al),
            _ => (s, Ok(false)),
        },
        Ty::Result(x1, x2) => match a {
            Ty::Result(y1, y2) => {
                let (s1, r1) = pattern_match(*x1, *y1, params, s, al);
                if r1 == Ok::<bool, Seq<char>>(true) {
                    pattern_match(*x2, *y2, params, s1, al)
                } else {
                    (s1, r1)
                }
            },
            _ => (s, Ok(false)),
        },
        Ty::List(x) => match a {
            Ty::List(y) => pattern_match(*x, *y, params, s, al),
            _ => (s, Ok(false)),
        },
        Ty::SetOf(x) => match a {
            Ty::SetOf(y) => pattern_match(*x, *y, params, s, al),
            _ => (s, Ok(false)),
        },
        Ty::MapOf(x1, x2) => match a {
            Ty::MapOf(y1, y2) => {
                let (s1, r1) = pattern_match(*x1, *y1, params, s, al);
                if r1 == Ok::<bool, Seq<char>>(true) {
                    pattern_match(*x2, *y2, params, s1, al)
                } else {
                    (s1, r1)
                }
            },
            _ => (s, Ok(false)),
        },
        Ty::Array(x, _) => match a {
            Ty::Array(y, _) => pattern_match(*x, *y, params, s, al),
            _ => (s, Ok(false)),
        },
        Ty::Slice(x) => match a {
            Ty::Slice(y) => pattern_match(*x, *y, params, s, al),
            _ => (s, Ok(false)),
        },
        Ty::Tuple(xs) => match a {
            Ty::Tuple(ys) => if xs.len() == ys.len() {
                pattern_match_all(xs, ys, params, s, al)
            } else {
                (s, Ok(false))
            },
            _ => (s, Ok(false)),
        },
        _ => match base_of(p, al) {
            Err(x) => (s, Err(x)),
            Ok(bp) => match base_of(a, al) {
                Err(x) => (s, Err(x)),
                Ok(ba) => (s, Ok(bp == ba)),
            },
        },
    }
}

/// Pairwise matching of two lists, left to right, stopping at the first
/// mismatch or error.
pub open spec fn pattern_match_all(ps: Seq<Ty>, xs: Seq<Ty>, params: Set<Seq<char>>, s: Map<Seq<char>, Ty>, al: Map<Seq<char>, crate::type_resolve::AliasV>) -> (Map<Seq<char>, Ty>, Result<bool, Seq<char>>)
    decreases ps, 0nat,
{
    if ps.len() == 0 {
        (s, Ok(true))
    } else {
        let (s1, r1) = pattern_match(ps[0], xs[0], params, s, al);
        if r1 == Ok::<bool, Seq<char>>(true) {
            pattern_match_all(ps.drop_first(), xs.drop_first(), params, s1, al)
        } else {
            (s1, r1)
        }
    }
}

fn pattern_match_lists(ps: &Vec<Type>, xs: &Vec<Type>, params: &NameSet, subst: &mut TypeSubst, aliases: &AliasMap) -> (r: Result<bool, TyperError>)
    requires
        ps@.len() == xs@.len(),
    ensures
        ({
            let (m, o) = pattern_match_all(types_view(ps@), types_view(xs@), params@, old(subst)@, aliases@);
            final(subst)@ == m && decided_as(r, o, aliases@)
        }),
    decreases ps, 0nat,
{
    let ghost pv = types_view(ps@);
    let ghost xv = types_view(xs@);
    let ghost start = subst@;
    let mut i: usize = 0;
    assert(pv.subrange(0, pv.len() as int) =~= pv);
    assert(xv.subrange(0, xv.len() as int) =~= xv);
    while i < ps.len()
        invariant
            i <= ps@.len(),
            ps@.len() == xs@.len(),
            pv == types_view(ps@),
            xv == types_view(xs@),
            start == old(subst)@,
            pattern_match_all(pv, xv, params@, start, aliases@)
                == pattern_match_all(pv.subrange(i as int, pv.len() as int), xv.subrange(i as int, xv.len() as int), params@, subst@, aliases@),
        decreases ps.len() - i,
    {
        assert(decreases_to!(ps => ps@[i as int]));
        let ghost prest = pv.subrange(i as int, pv.len() as int);
        let ghost xrest = xv.subrange(i as int, xv.len() as int);
        assert(prest.drop_first() =~= pv.subrange(i as int + 1, pv.len() as int));
        assert(xrest.drop_first() =~= xv.subrange(i as int + 1, xv.len() as int));
        assert(prest[0] == ps@[i as int]@);
        assert(xrest[0] == xs@[i as int]@);
        let ghost before = subst@;
        let step = type_pattern_matches(&ps[i], &xs[i], params, subst, aliases);
        match step {
            Ok(true) => {},
            other => return other,
        }
        i = i + 1;
    }
    Ok(true)
}

/// Matches an impl's `pattern` type against `actual` (see `pattern_match`),
/// extending `subst` with the parameters it binds.
pub fn type_pattern_matches(pattern: &Type, actual: &Type, params: &NameSet, subst: &mut TypeSubst, aliases: &AliasMap) -> (r: Result<bool, TyperError>)
    ensures
        ({
            let (m, o) = pattern_match(pattern@, actual@, params@, old(subst)@, aliases@);
            final(subst)@ == m && decided_as(r, o, aliases@)
        }),
    decreases pattern, 1nat,
{
    match pattern {
        Type::Named { name, args } => {
            if args.len() == 0 && params.contains(name.as_str()) {
                proof {
                    assert(types_view(args@).len() == 0);
                }
                match subst.get(name.as_str()) {
                    Some(existing) => {
                        let be = base_type(existing, aliases)?;
                        let ba = base_type(actual, aliases)?;
                        Ok(type_eq(&be, &ba))
                    },
                    None => {
                        subst.insert(name.clone(), copy_type(actual));
                        Ok(true)
                    },
                }
            } else {
                match actual {
                    Type::Named { name: an, args: aargs } => {
                        if *name == *an && args.len() == aargs.len() {
                            pattern_match_lists(args, aargs, params, subst, aliases)
                        } else {
                            Ok(false)
                        }
                    },
                    _ => Ok(false),
                }
            }
        },
        Type::Option(x) => match actual {
            Type::Option(y) => type_pattern_matches(x, y, params, subst, aliases),
            _ => Ok(false),
        },
        Type::Result(x1, x2) => match actual {
            Type::Result(y1, y2) => {
                match type_pattern_matches(x1, y1, params, subst, aliases) {
                    Ok(true) => type_pattern_matches(x2, y2, params, subst, aliases),
                    other => other,
                }
            },
            _ => Ok(false),
        },
        Type::List(x) => match actual {
            Type::List(y) => type_pattern_matches(x, y, params, subst, aliases),
            _ => Ok(false),
        },
        Type::SetOf(x) => match actual {
            Type::SetOf(y) => type_pattern_matches(x, y, params, subst, aliases),
            _ => Ok(false),
        },
        Type::MapOf(x1, x2) => match actual {
            Type::MapOf(y1, y2) => {
                match type_pattern_matches(x1, y1, params, subst, aliases) {
                    Ok(true) => type_pattern_matches(x2, y2, params, subst, aliases),
                    other => other,
                }
            },
            _ => Ok(false),
        },
        Type::Array(x, _) => match actual {
            Type::Array(y, _) => type_pattern_matches(x, y, params, subst, aliases),
            _ => Ok(false),
        },
        Type::Slice(x) => match actual {
            Type::Slice(y) => type_pattern_matches(x, y, params, subst, aliases),
            _ => Ok(false),
        },
        Type::Tuple(xs) => match actual {
            Type::Tuple(ys) => {
                if xs.len() == ys.len() {
                    pattern_match_lists(xs, ys, params, subst, aliases)
                } else {
                    Ok(false)
                }
            },
            _ => Ok(false),
        },
        _ => {
            let bp = base_type(pattern, aliases)?;
            let ba = base_type(actual, aliases)?;
            Ok(type_eq(&bp, &ba))
        },
    }
}

} // verus!
