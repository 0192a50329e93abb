use vstd::prelude::*;
use crate::env::{ImplInfo, TraitEnv};
use crate::generics::{param_names, type_param_names};
use crate::names::NameSet;
use crate::text::str_eq;
use crate::ty::{copy_type, type_eq, types_view, Span, Ty, Type};
use crate::type_params::{mentions_any, mentions_params, TypeSubst};

verus! {

/// Whether some type fits both `l` (with parameters `lp`) and `r` (with
/// parameters `rp`), reading parameters bound so far from `seen`: a bare
/// parameter takes the other side's type the first time and must meet the
/// same type afterwards. The second component is `seen` afterwards.
pub open spec fn overlaps(l: Ty, lp: Set<Seq<char>>, r: Ty, rp: Set<Seq<char>>, seen: Map<Seq<char>, Ty>) -> (bool, Map<Seq<char>, Ty>)
    decreases l, 1nat,
{
    if l matches Ty::Named { name, args } && args.len() == 0 && lp.contains(name) {
        let name = l->Named_name;
        if seen.contains_key(name) {
            (seen[name] == r, seen)
        } else {
            (true, seen.insert(name, r))
        }
    } else if r matches Ty::Named { name, args } && args.len() == 0 && rp.contains(name) {
        let name = r->Named_name;
        if seen.contains_key(name) {
            (seen[name] == l, seen)
        } else {
            (true, seen.insert(name, l))
        }
    } else {
        match (l, r) {
            (Ty::Named { name: ln, args: la }, Ty::Named { name: rn, args: ra }) => if ln == rn && la.len() == ra.len() {
                overlaps_all(la, lp, ra, rp, seen)
            } else {
                (l == r, seen)
            },
            (Ty::Option(x), Ty::Option(y)) => overlaps(*x, lp, *y, rp, seen),
            (Ty::List(x), Ty::List(y)) => overlaps(*x, lp, *y, rp, seen),
            (Ty::SetOf(x), Ty::SetOf(y)) => overlaps(*x, lp, *y, rp, seen),
            (Ty::Array(x, _), Ty::Array(y, _)) => overlaps(*x, lp, *y, rp, seen),
            (Ty::Slice(x), Ty::Slice(y)) => overlaps(*x, lp, *y, rp, seen),
            (Ty::Result(x1, x2), Ty::Result(y1, y2)) => {
                let (b1, s1) = overlaps(*x1, lp, *y1, rp, seen);
                if !b1 {
                    (false, s1)
                } else {
                    overlaps(*x2, lp, *y2, rp, s1)
                }
            },
            (Ty::MapOf(x1, x2), Ty::MapOf(y1, y2)) => {
                let (b1, s1) = overlaps(*x1, lp, *y1, rp, seen);
                if !b1 {
                    (false, s1)
                } else {
                    overlaps(*x2, lp, *y2, rp, s1)
                }
            },
            (Ty::Tuple(ls), Ty::Tuple(rs)) => if ls.len() == rs.len() {
                overlaps_all(ls, lp, rs, rp, seen)
            } else {
                (l == r, seen)
            },
            _ => (l == r, seen),
        }
    }
}

/// Pairwise overlap of two lists, left to right, stopping at the first pair
/// that does not overlap.
pub open spec fn overlaps_all(ls: Seq<Ty>, lp: Set<Seq<char>>, rs: Seq<Ty>, rp: Set<Seq<char>>, seen: Map<Seq<char>, Ty>) -> (bool, Map<Seq<char>, Ty>)
    decreases ls, 0nat,
{
    if ls.len() == 0 {
        (true, seen)
    } else {
        let (b, s1) = overlaps(ls[0], lp, rs[0], rp, seen);
        if !b {
            (false, s1)
        } else {
            overlaps_all(ls.drop_first(), lp, rs.drop_first(), rp, s1)
        }
    }
}

fn overlaps_lists(ls: &Vec<Type>, lp: &NameSet, rs: &Vec<Type>, rp: &NameSet, seen: &mut TypeSubst) -> (r: bool)
    requires
        ls@.len() == rs@.len(),
    ensures
        (r, final(seen)@) == overlaps_all(types_view(ls@), lp@, types_view(rs@), rp@, old(seen)@),
    decreases ls, 0nat,
{
    let ghost lv = types_view(ls@);
    let ghost rv = types_view(rs@);
    let ghost start = seen@;
    let mut i: usize = 0;
    assert(lv.subrange(0, lv.len() as int) =~= lv);
    assert(rv.subrange(0, rv.len() as int) =~= rv);
    while i < ls.len()
        invariant
            i <= ls@.len(),
            ls@.len() == rs@.len(),
            lv == types_view(ls@),
            rv == types_view(rs@),
            start == old(seen)@,
            overlaps_all(lv, lp@, rv, rp@, start)
                == overlaps_all(lv.subrange(i as int, lv.len() as int), lp@, rv.subrange(i as int, rv.len() as int), rp@, seen@),
        decreases ls.len() - i,
    {
        assert(decreases_to!(ls => ls@[i as int]));
        let ghost lrest = lv.subrange(i as int, lv.len() as int);
        let ghost rrest = rv.subrange(i as int, rv.len() as int);
        assert(lrest.drop_first() =~= lv.subrange(i as int + 1, lv.len() as int));
        assert(rrest.drop_first() =~= rv.subrange(i as int + 1, rv.len() as int));
        assert(lrest[0] == ls@[i as int]@);
        assert(rrest[0] == rs@[i as int]@);
        let ghost before = seen@;
        let b = overlaps_in(&ls[i], lp, &rs[i], rp, seen);
        proof {
            let res = overlaps(lrest[0], lp@, rrest[0], rp@, before);
            assert(!res.0 ==> overlaps_all(lrest, lp@, rrest, rp@, before) == res);
            assert(res.0 ==> overlaps_all(lrest, lp@, rrest, rp@, before)
                == overlaps_all(lrest.drop_first(), lp@, rrest.drop_first(), rp@, res.1));
        }
        if !b {
            return false;
        }
        i = i + 1;
    }
    true
}

fn bare_param<'a>(t: &'a Type, params: &NameSet) -> (r: Option<&'a String>)
    ensures
        match r {
            Some(n) => t@ matches Ty::Named { name, args } && args.len() == 0 && params@.contains(name) && n@ == name,
            None => !(t@ matches Ty::Named { name, args } && args.len() == 0 && params@.contains(name)),
        },
{
    match t {
        Type::Named { name, args } => {
            assert(types_view(args@).len() == args@.len());
            if args.len() == 0 && params.contains(name.as_str()) {
                Some(name)
            } else {
                None
            }
        },
        _ => None,
    }
}

fn overlaps_in(left: &Type, lp: &NameSet, right: &Type, rp: &NameSet, seen: &mut TypeSubst) -> (r: bool)
    ensures
        (r, final(seen)@) == overlaps(left@, lp@, right@, rp@, old(seen)@),
    decreases left, 1nat,
{
    if let Some(name) = bare_param(left, lp) {
        match seen.get(name.as_str()) {
            Some(existing) => {
                return type_eq(existing, right);
            },
            None => {
                seen.insert(name.clone(), copy_type(right));
                return true;
            },
        }
    }
    if let Some(name) = bare_param(right, rp) {
        match seen.get(name.as_str()) {
            Some(existing) => {
                return type_eq(existing, left);
            },
            None => {
                seen.insert(name.clone(), copy_type(left));
                return true;
            },
        }
    }
    match (left, right) {
        (Type::Named { name: ln, args: la }, Type::Named { name: rn, args: ra }) => {
            assert(types_view(la@).len() == la@.len());
            assert(types_view(ra@).len() == ra@.len());
            if *ln == *rn && la.len() == ra.len() {
                overlaps_lists(la, lp, ra, rp, seen)
            } else {
                type_eq(left, right)
            }
        },
        (Type::Option(x), Type::Option(y)) => overlaps_in(x, lp, y, rp, seen),
        (Type::List(x), Type::List(y)) => overlaps_in(x, lp, y, rp, seen),
        (Type::SetOf(x), Type::SetOf(y)) => overlaps_in(x, lp, y, rp, seen),
        (Type::Array(x, _), Type::Array(y, _)) => overlaps_in(x, lp, y, rp, seen),
        (Type::Slice(x), Type::Slice(y)) => overlaps_in(x, lp, y, rp, seen),
        (Type::Result(x1, x2), Type::Result(y1, y2)) => {
            overlaps_in(x1, lp, y1, rp, seen) && overlaps_in(x2, lp, y2, rp, seen)
        },
        (Type::MapOf(x1, x2), Type::MapOf(y1, y2)) => {
            overlaps_in(x1, lp, y1, rp, seen) && overlaps_in(x2, lp, y2, rp, seen)
        },
        (Type::Tuple(ls), Type::Tuple(rs)) => {
            assert(types_view(ls@).len() == ls@.len());
            assert(types_view(rs@).len() == rs@.len());
            if ls.len() == rs.len() {
                overlaps_lists(ls, lp, rs, rp, seen)
            } else {
                type_eq(left, right)
            }
        },
        _ => type_eq(left, right),
    }
}

/// Whether the patterns `left` and `right` (with their type parameters) can
/// describe the same type.
pub fn types_overlap(left: &Type, left_params: &NameSet, right: &Type, right_params: &NameSet) -> (r: bool)
    ensures
        r == overlaps(left@, left_params@, right@, right_params@, Map::empty()).0,
{
    let mut seen = TypeSubst::new();
    overlaps_in(left, left_params, right, right_params, &mut seen)
}

/// A type without type parameters overlaps itself.
pub proof fn lemma_overlaps_reflexive(t: Ty, lp: Set<Seq<char>>, rp: Set<Seq<char>>, seen: Map<Seq<char>, Ty>)
    requires
        !mentions_params(t, lp),
        !mentions_params(t, rp),
    ensures
        overlaps(t, lp, t, rp, seen) == (true, seen),
    decreases t, 1nat,
{
    match t {
        Ty::Named { name, args } => lemma_overlaps_all_reflexive(args, lp, rp, seen),
        Ty::Option(x) => lemma_overlaps_reflexive(*x, lp, rp, seen),
        Ty::List(x) => lemma_overlaps_reflexive(*x, lp, rp, seen),
        Ty::SetOf(x) => lemma_overlaps_reflexive(*x, lp, rp, seen),
        Ty::Array(x, _) => lemma_overlaps_reflexive(*x, lp, rp, seen),
        Ty::Slice(x) => lemma_overlaps_reflexive(*x, lp, rp, seen),
        Ty::Result(x, y) => {
            lemma_overlaps_reflexive(*x, lp, rp, seen);
            lemma_overlaps_reflexive(*y, lp, rp, seen);
        },
        Ty::MapOf(x, y) => {
            lemma_overlaps_reflexive(*x, lp, rp, seen);
            lemma_overlaps_reflexive(*y, lp, rp, seen);
        },
        Ty::Tuple(xs) => lemma_overlaps_all_reflexive(xs, lp, rp, seen),
        _ => {},
    }
}

proof fn lemma_overlaps_all_reflexive(ts: Seq<Ty>, lp: Set<Seq<char>>, rp: Set<Seq<char>>, seen: Map<Seq<char>, Ty>)
    requires
        !mentions_any(ts, lp),
        !mentions_any(ts, rp),
    ensures
        overlaps_all(ts, lp, ts, rp, seen) == (true, seen),
    decreases ts, 0nat,
{
    if ts.len() > 0 {
        lemma_overlaps_reflexive(ts[0], lp, rp, seen);
        assert(ts.drop_first() =~= ts.subrange(1, ts.len() as int));
        lemma_overlaps_all_reflexive(ts.drop_first(), lp, rp, seen);
    }
}

/// Two implementations of one trait that may apply to the same type.
#[derive(Debug)]
pub struct OverlappingImpl {
    pub trait_name: String,
    pub first: Span,
    pub second: Span,
}

/// Implementations `i < j` of the declared trait they both implement overlap.
pub open spec fn impls_clash(traits: Set<Seq<char>>, impls: Seq<ImplInfo>, i: int, j: int) -> bool {
    &&& 0 <= i < j < impls.len()
    &&& impls[i].decl.trait_name@ == impls[j].decl.trait_name@
    &&& traits.contains(impls[i].decl.trait_name@)
    &&& overlaps(
        impls[i].decl.for_type@,
        param_names(impls[i].decl.type_params@),
        impls[j].decl.for_type@,
        param_names(impls[j].decl.type_params@),
        Map::empty(),
    ).0
}

/// No two implementations of a declared trait may apply to the same type.
pub fn validate_impl_coherence(trait_env: &TraitEnv) -> (r: Result<(), OverlappingImpl>)
    ensures
        match r {
            Ok(_) => forall|i: int, j: int| !#[trigger] impls_clash(trait_env.traits@.dom(), trait_env.impls@, i, j),
            Err(f) => exists|i: int, j: int| #[trigger] impls_clash(trait_env.traits@.dom(), trait_env.impls@, i, j)
                && f.trait_name@ == trait_env.impls@[i].decl.trait_name@ && f.first == trait_env.impls@[i].decl.span
                && f.second == trait_env.impls@[j].decl.span,
        },
{
    let ghost dom = trait_env.traits@.dom();
    let ghost impls = trait_env.impls@;
    let names = trait_env.traits.keys();
    let mut t: usize = 0;
    while t < names.len()
        invariant
            t <= names@.len(),
            dom == trait_env.traits@.dom(),
            impls == trait_env.impls@,
            forall|k: Seq<char>| dom.contains(k) <==> exists|x: int| 0 <= x < names@.len() && (#[trigger] names@[x])@ == k,
            forall|i: int, j: int| #[trigger] impls_clash(dom, impls, i, j)
                ==> !(exists|x: int| 0 <= x < t && (#[trigger] names@[x])@ == impls[i].decl.trait_name@),
        decreases names.len() - t,
    {
        let name = names[t].as_str();
        let mut i: usize = 0;
        while i < trait_env.impls.len()
            invariant
                t < names@.len(),
                name@ == names@[t as int]@,
                i <= impls.len(),
                dom == trait_env.traits@.dom(),
                impls == trait_env.impls@,
                forall|k: Seq<char>| dom.contains(k) <==> exists|x: int| 0 <= x < names@.len() && (#[trigger] names@[x])@ == k,
                forall|a: int, b: int| #[trigger] impls_clash(dom, impls, a, b)
                    ==> !(exists|x: int| 0 <= x < t && (#[trigger] names@[x])@ == impls[a].decl.trait_name@)
                    && (impls[a].decl.trait_name@ == name@ ==> a >= i),
            decreases trait_env.impls.len() - i,
        {
            let left = &trait_env.impls[i].decl;
            if str_eq(left.trait_name.as_str(), name) {
                let left_params = type_param_names(&left.type_params);
                let mut j: usize = i + 1;
                while j < trait_env.impls.len()
                    invariant
                        t < names@.len(),
                        name@ == names@[t as int]@,
                        i < j <= impls.len(),
                        dom == trait_env.traits@.dom(),
                        impls == trait_env.impls@,
                        *left == impls[i as int].decl,
                        left.trait_name@ == name@,
                        left_params@ == param_names(impls[i as int].decl.type_params@),
                        forall|k: Seq<char>| dom.contains(k) <==> exists|x: int| 0 <= x < names@.len() && (#[trigger] names@[x])@ == k,
                        forall|b: int| i < b < j ==> !#[trigger] impls_clash(dom, impls, i as int, b),
                    decreases trait_env.impls.len() - j,
                {
                    let right = &trait_env.impls[j].decl;
                    if str_eq(right.trait_name.as_str(), name) {
                        let right_params = type_param_names(&right.type_params);
                        if types_overlap(&left.for_type, &left_params, &right.for_type, &right_params) {
                            proof {
                                assert(dom.contains(name@)) by {
                                    assert(names@[t as int]@ == name@);
                                }
                                assert(impls_clash(dom, impls, i as int, j as int));
                            }
                            return Err(OverlappingImpl { trait_name: left.trait_name.clone(), first: left.span, second: right.span });
                        }
                    }
                    j = j + 1;
                }
                proof {
                    assert forall|b: int| !#[trigger] impls_clash(dom, impls, i as int, b) by {
                        if impls_clash(dom, impls, i as int, b) {
                            assert(i < b < impls.len());
                        }
                    }
                }
            }
            i = i + 1;
        }
        proof {
            assert forall|a: int, b: int| #[trigger] impls_clash(dom, impls, a, b)
                implies !(exists|x: int| 0 <= x < t + 1 && (#[trigger] names@[x])@ == impls[a].decl.trait_name@) by {
                if exists|x: int| 0 <= x < t + 1 && (#[trigger] names@[x])@ == impls[a].decl.trait_name@ {
                    let x = choose|x: int| 0 <= x < t + 1 && (#[trigger] names@[x])@ == impls[a].decl.trait_name@;
                    if x < t {
                    } else {
                        assert(impls[a].decl.trait_name@ == name@);
                    }
                }
            }
        }
        t = t + 1;
    }
    proof {
        assert forall|i: int, j: int| !#[trigger] impls_clash(dom, impls, i, j) by {
            if impls_clash(dom, impls, i, j) {
                let x = choose|x: int| 0 <= x < names@.len() && (#[trigger] names@[x])@ == impls[i].decl.trait_name@;
            }
        }
    }
    Ok(())
}

} // verus!
