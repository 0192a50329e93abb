use vstd::prelude::*;
use crate::names::{NameMap, NameSet};
use crate::ty::{copy_type, type_view, types_view, Ty, Type};

verus! {

/// A substitution of types for type-parameter names.
pub type TypeSubst = NameMap<Type>;

/// `t` with every bare parameter name bound in `s` replaced by its image.
/// Function types are left as they are.
pub open spec fn subst_ty(t: Ty, s: Map<Seq<char>, Ty>) -> Ty
    decreases t,
{
    match t {
        Ty::Named { name, args } => {
            if args.len() == 0 && s.contains_key(name) {
                s[name]
            } else {
                Ty::Named {
                    name,
                    args: Seq::new(args.len(), |i: int| if 0 <= i < args.len() { subst_ty(args[i], s) } else { Ty::Int }),
                }
            }
        },
        Ty::Option(inner) => Ty::Option(Box::new(subst_ty(*inner, s))),
        Ty::Result(ok, err) => Ty::Result(Box::new(subst_ty(*ok, s)), Box::new(subst_ty(*err, s))),
        Ty::List(inner) => Ty::List(Box::new(subst_ty(*inner, s))),
        Ty::SetOf(inner) => Ty::SetOf(Box::new(subst_ty(*inner, s))),
        Ty::MapOf(k, v) => Ty::MapOf(Box::new(subst_ty(*k, s)), Box::new(subst_ty(*v, s))),
        Ty::Array(inner, len) => Ty::Array(Box::new(subst_ty(*inner, s)), len),
        Ty::Slice(inner) => Ty::Slice(Box::new(subst_ty(*inner, s))),
        Ty::Tuple(elems) => Ty::Tuple(
            Seq::new(elems.len(), |i: int| if 0 <= i < elems.len() { subst_ty(elems[i], s) } else { Ty::Int }),
        ),
        _ => t,
    }
}

/// `subst_ty` applied to each element.
pub open spec fn subst_tys(ts: Seq<Ty>, s: Map<Seq<char>, Ty>) -> Seq<Ty> {
    Seq::new(ts.len(), |i: int| subst_ty(ts[i], s))
}

fn substitute_types(v: &Vec<Type>, subst: &TypeSubst) -> (r: Vec<Type>)
    ensures
        types_view(r@) == subst_tys(types_view(v@), subst@),
    decreases v, 0nat,
{
    let mut out: Vec<Type> = Vec::new();
    let mut i: usize = 0;
    while i < v.len()
        invariant
            i <= v.len(),
            out@.len() == i,
            forall|j: int| 0 <= j < i ==> type_view(#[trigger] out@[j]) == subst_ty(type_view(v@[j]), subst@),
        decreases v.len() - i,
    {
        assert(decreases_to!(v => v@[i as int]));
        out.push(substitute_type(&v[i], subst));
        i = i + 1;
    }
    assert(types_view(out@) =~= subst_tys(types_view(v@), subst@));
    out
}

/// Applies a substitution to a type.
pub fn substitute_type(ty: &Type, subst: &TypeSubst) -> (r: Type)
    ensures
        r@ == subst_ty(ty@, subst@),
    decreases ty, 1nat,
{
    let r = match ty {
        Type::Named { name, args } => {
            if args.len() == 0 {
                if let Some(mapped) = subst.get(name.as_str()) {
                    assert(types_view(args@).len() == 0);
                    return copy_type(mapped);
                }
            }
            Type::Named { name: name.clone(), args: substitute_types(args, subst) }
        },
        Type::Option(inner) => Type::Option(Box::new(substitute_type(inner, subst))),
        Type::Result(ok, err) => Type::Result(
            Box::new(substitute_type(ok, subst)),
            Box::new(substitute_type(err, subst)),
        ),
        Type::List(inner) => Type::List(Box::new(substitute_type(inner, subst))),
        Type::SetOf(inner) => Type::SetOf(Box::new(substitute_type(inner, subst))),
        Type::MapOf(k, v) => Type::MapOf(
            Box::new(substitute_type(k, subst)),
            Box::new(substitute_type(v, subst)),
        ),
        Type::Array(inner, len) => Type::Array(Box::new(substitute_type(inner, subst)), *len),
        Type::Slice(inner) => Type::Slice(Box::new(substitute_type(inner, subst))),
        Type::Tuple(elems) => Type::Tuple(substitute_types(elems, subst)),
        _ => copy_type(ty),
    };
    proof {
        match ty@ {
            Ty::Named { name, args } => {
                assert(r@->Named_args =~= subst_ty(ty@, subst@)->Named_args);
            },
            Ty::Tuple(elems) => {
                assert(r@->Tuple_0 =~= subst_ty(ty@, subst@)->Tuple_0);
            },
            _ => {},
        }
    }
    r
}

/// Whether a parameter name of `params` occurs in one of the types of `s`.
pub open spec fn mentions_any(s: Seq<Ty>, params: Set<Seq<char>>) -> bool
    decreases s, 0nat,
{
    if s.len() == 0 {
        false
    } else {
        mentions_params(s[0], params) || mentions_any(s.subrange(1, s.len() as int), params)
    }
}

proof fn lemma_mentions_any(s: Seq<Ty>, params: Set<Seq<char>>)
    ensures
        mentions_any(s, params) == exists|i: int| 0 <= i < s.len() && mentions_params(#[trigger] s[i], params),
    decreases s.len(),
{
    if s.len() > 0 {
        let rest = s.subrange(1, s.len() as int);
        lemma_mentions_any(rest, params);
        if mentions_any(rest, params) {
            let i = choose|i: int| 0 <= i < rest.len() && mentions_params(#[trigger] rest[i], params);
            assert(s[i + 1] == rest[i]);
        }
        if exists|i: int| 0 <= i < s.len() && mentions_params(#[trigger] s[i], params) {
            let i = choose|i: int| 0 <= i < s.len() && mentions_params(#[trigger] s[i], params);
            if i > 0 {
                assert(rest[i - 1] == s[i]);
            }
        }
    }
}

/// Whether a parameter name of `params` occurs in `t` (not looking into
/// function types).
pub open spec fn mentions_params(t: Ty, params: Set<Seq<char>>) -> bool
    decreases t,
{
    match t {
        Ty::Named { name, args } => params.contains(name) || mentions_any(args, params),
        Ty::Option(inner) => mentions_params(*inner, params),
        Ty::List(inner) => mentions_params(*inner, params),
        Ty::SetOf(inner) => mentions_params(*inner, params),
        Ty::Slice(inner) => mentions_params(*inner, params),
        Ty::Result(ok, err) => mentions_params(*ok, params) || mentions_params(*err, params),
        Ty::MapOf(k, v) => mentions_params(*k, params) || mentions_params(*v, params),
        Ty::Array(inner, _) => mentions_params(*inner, params),
        Ty::Tuple(elems) => mentions_any(elems, params),
        _ => false,
    }
}

fn any_contains_params(v: &Vec<Type>, params: &NameSet) -> (r: bool)
    ensures
        r == mentions_any(types_view(v@), params@),
    decreases v, 0nat,
{
    proof {
        lemma_mentions_any(types_view(v@), params@);
    }
    let mut i: usize = 0;
    while i < v.len()
        invariant
            i <= v.len(),
            forall|j: int| 0 <= j < i ==> !mentions_params(#[trigger] types_view(v@)[j], params@),
        decreases v.len() - i,
    {
        assert(decreases_to!(v => v@[i as int]));
        if type_contains_params(&v[i], params) {
            assert(mentions_params(types_view(v@)[i as int], params@));
            assert(types_view(v@).len() == v@.len());
            proof {
                lemma_mentions_any(types_view(v@), params@);
            }
            return true;
        }
        i = i + 1;
    }
    proof {
        lemma_mentions_any(types_view(v@), params@);
    }
    false
}

/// Whether a type parameter of `params` occurs in `ty`.
pub fn type_contains_params(ty: &Type, params: &NameSet) -> (r: bool)
    ensures
        r == mentions_params(ty@, params@),
    decreases ty, 1nat,
{
    match ty {
        Type::Named { name, args } => {
            params.contains(name.as_str()) || any_contains_params(args, params)
        },
        Type::Option(inner) | Type::List(inner) | Type::SetOf(inner) | Type::Slice(inner) => {
            type_contains_params(inner, params)
        },
        Type::Result(ok, err) | Type::MapOf(ok, err) => {
            type_contains_params(ok, params) || type_contains_params(err, params)
        },
        Type::Array(inner, _) => type_contains_params(inner, params),
        Type::Tuple(elems) => any_contains_params(elems, params),
        _ => false,
    }
}

/// The names of `params` that occur in `t` as a bare named type (without
/// arguments), not looking into function types.
pub open spec fn bare_params(t: Ty, params: Set<Seq<char>>) -> Set<Seq<char>>
    decreases t, 1nat,
{
    match t {
        Ty::Named { name, args } => (if args.len() == 0 && params.contains(name) {
            set![name]
        } else {
            Set::empty()
        }).union(bare_params_list(args, params)),
        Ty::Option(inner) => bare_params(*inner, params),
        Ty::List(inner) => bare_params(*inner, params),
        Ty::SetOf(inner) => bare_params(*inner, params),
        Ty::Slice(inner) => bare_params(*inner, params),
        Ty::Result(ok, err) => bare_params(*ok, params).union(bare_params(*err, params)),
        Ty::MapOf(k, v) => bare_params(*k, params).union(bare_params(*v, params)),
        Ty::Array(inner, _) => bare_params(*inner, params),
        Ty::Tuple(elems) => bare_params_list(elems, params),
        _ => Set::empty(),
    }
}

pub open spec fn bare_params_list(s: Seq<Ty>, params: Set<Seq<char>>) -> Set<Seq<char>>
    decreases s, 0nat,
{
    if s.len() == 0 {
        Set::empty()
    } else {
        bare_params(s[0], params).union(bare_params_list(s.drop_first(), params))
    }
}

fn collect_in_list(v: &Vec<Type>, params: &NameSet, used: &mut NameSet)
    ensures
        final(used)@ == old(used)@.union(bare_params_list(types_view(v@), params@)),
    decreases v, 0nat,
{
    let ghost tv = types_view(v@);
    let ghost start = used@;
    let mut i: usize = 0;
    assert(tv.subrange(0, tv.len() as int) =~= tv);
    assert(start.union(Set::<Seq<char>>::empty()) =~= start);
    while i < v.len()
        invariant
            i <= v@.len(),
            tv == types_view(v@),
            start.union(bare_params_list(tv, params@)) == used@.union(bare_params_list(tv.subrange(i as int, tv.len() as int), params@)),
        decreases v.len() - i,
    {
        assert(decreases_to!(v => v@[i as int]));
        let ghost rest = tv.subrange(i as int, tv.len() as int);
        assert(rest.drop_first() =~= tv.subrange(i as int + 1, tv.len() as int));
        assert(rest[0] == v@[i as int]@);
        let ghost before = used@;
        collect_type_params_in_type(&v[i], params, used);
        assert(before.union(bare_params_list(rest, params@)) =~= used@.union(bare_params_list(rest.drop_first(), params@)));
        i = i + 1;
    }
    assert(tv.subrange(tv.len() as int, tv.len() as int) =~= Seq::<Ty>::empty());
    assert(used@.union(Set::<Seq<char>>::empty()) =~= used@);
}

/// Adds to `used` the parameters of `params` that occur in `ty` as bare
/// named types.
pub fn collect_type_params_in_type(ty: &Type, params: &NameSet, used: &mut NameSet)
    ensures
        final(used)@ == old(used)@.union(bare_params(ty@, params@)),
    decreases ty, 1nat,
{
    let ghost start = used@;
    match ty {
        Type::Named { name, args } => {
            if args.len() == 0 && params.contains(name.as_str()) {
                used.insert(name.clone());
            }
            let ghost mid = used@;
            collect_in_list(args, params, used);
            assert(used@ =~= start.union(bare_params(ty@, params@)));
        },
        Type::Option(inner) | Type::List(inner) | Type::SetOf(inner) | Type::Slice(inner) => {
            collect_type_params_in_type(inner, params, used);
        },
        Type::Result(ok, err) | Type::MapOf(ok, err) => {
            collect_type_params_in_type(ok, params, used);
            collect_type_params_in_type(err, params, used);
            assert(used@ =~= start.union(bare_params(ty@, params@)));
        },
        Type::Array(inner, _) => collect_type_params_in_type(inner, params, used),
        Type::Tuple(elems) => collect_in_list(elems, params, used),
        _ => {
            assert(used@ =~= start.union(bare_params(ty@, params@)));
        },
    }
}

} // verus!
