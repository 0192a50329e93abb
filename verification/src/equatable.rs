use vstd::prelude::*;
use crate::ast::{EnumDecl, EnumDeclV, EnumVariantV, StructDecl, StructDeclV, StructFieldV, type_param_names};
use crate::env::{enum_index, enum_names, find_enum, find_struct, struct_index, struct_names, TypeDefs, TypeParam};
use crate::errors::TyperError;
use crate::names::NameSet;
use crate::text::str_eq;
use crate::ty::{copy_type, type_view, types_view, Span, Ty, Type};
use crate::type_params::{subst_ty, substitute_type, TypeSubst};
use crate::type_resolve::{alias_subst, base_of, base_type, decided_as, is_cyclic_alias_error, lemma_base_idempotent, AliasMap, AliasV};

verus! {

/// The struct and enum names whose declarations are being looked into, so
/// that a self-referential declaration is looked into once.
#[derive(Debug)]
pub struct SeenDecls {
    pub structs: NameSet,
    pub enums: NameSet,
}

/// How many declared structs and enums are not yet being looked into.
pub open spec fn unseen(td: TypeDefs, ss: Set<Seq<char>>, es: Set<Seq<char>>) -> nat {
    struct_names(td.structs@).difference(ss).len() + enum_names(td.enums@).difference(es).len()
}

proof fn lemma_struct_names_finite(s: Seq<StructDecl>)
    ensures
        struct_names(s).finite(),
{
    let names = s.map_values(|d: StructDecl| d.name@);
    assert forall|n: Seq<char>| #[trigger] struct_names(s).contains(n) <==> names.to_set().contains(n) by {
        if struct_names(s).contains(n) {
            let i = choose|i: int| 0 <= i < s.len() && (#[trigger] s[i]).name@ == n;
            assert(names[i] == n);
        }
        if names.to_set().contains(n) {
            let i = choose|i: int| 0 <= i < names.len() && names[i] == n;
            assert(s[i].name@ == n);
        }
    }
    assert(struct_names(s) =~= names.to_set());
}

proof fn lemma_enum_names_finite(s: Seq<EnumDecl>)
    ensures
        enum_names(s).finite(),
{
    let names = s.map_values(|d: EnumDecl| d.name@);
    assert forall|n: Seq<char>| #[trigger] enum_names(s).contains(n) <==> names.to_set().contains(n) by {
        if enum_names(s).contains(n) {
            let i = choose|i: int| 0 <= i < s.len() && (#[trigger] s[i]).name@ == n;
            assert(names[i] == n);
        }
        if names.to_set().contains(n) {
            let i = choose|i: int| 0 <= i < names.len() && names[i] == n;
            assert(s[i].name@ == n);
        }
    }
    assert(enum_names(s) =~= names.to_set());
}

proof fn lemma_difference_step(a: Set<Seq<char>>, seen: Set<Seq<char>>, n: Seq<char>)
    requires
        a.finite(),
        a.contains(n),
        !seen.contains(n),
    ensures
        a.difference(seen.insert(n)).len() + 1 == a.difference(seen).len(),
{
    assert(a.difference(seen.insert(n)) =~= a.difference(seen).remove(n));
    assert(a.difference(seen).finite());
    assert(a.difference(seen).contains(n));
}

/// Looking into struct `n` leaves one declaration fewer to look into.
pub proof fn lemma_unseen_struct(td: TypeDefs, ss: Set<Seq<char>>, es: Set<Seq<char>>, n: Seq<char>)
    requires
        struct_names(td.structs@).contains(n),
        !ss.contains(n),
    ensures
        unseen(td, ss.insert(n), es) + 1 == unseen(td, ss, es),
{
    lemma_struct_names_finite(td.structs@);
    lemma_difference_step(struct_names(td.structs@), ss, n);
}

/// Looking into enum `n` leaves one declaration fewer to look into.
pub proof fn lemma_unseen_enum(td: TypeDefs, ss: Set<Seq<char>>, es: Set<Seq<char>>, n: Seq<char>)
    requires
        enum_names(td.enums@).contains(n),
        !es.contains(n),
    ensures
        unseen(td, ss, es.insert(n)) + 1 == unseen(td, ss, es),
{
    lemma_enum_names_finite(td.enums@);
    lemma_difference_step(enum_names(td.enums@), es, n);
}

/// The substitution of a declaration's type parameters by the arguments it
/// is applied to, pairing them up in order as far as both go.
pub open spec fn decl_subst(params: Seq<Seq<char>>, args: Seq<Ty>) -> Map<Seq<char>, Ty> {
    alias_subst(params.take(if params.len() <= args.len() { params.len() as int } else { args.len() as int }), args)
}

/// The types of a struct's fields, in order, for the given arguments.
pub open spec fn struct_field_tys(d: StructDeclV, args: Seq<Ty>) -> Seq<Ty> {
    d.fields.map_values(|f: StructFieldV| subst_ty(f.ty, decl_subst(d.type_params, args)))
}

/// The field types of the variants, variant by variant.
pub open spec fn variant_tys(vs: Seq<EnumVariantV>) -> Seq<Ty>
    decreases vs.len(),
{
    if vs.len() == 0 {
        Seq::empty()
    } else {
        variant_tys(vs.drop_last()) + vs.last().fields
    }
}

/// The types of an enum's variant fields, in order, for the given arguments.
pub open spec fn enum_field_tys(d: EnumDeclV, args: Seq<Ty>) -> Seq<Ty> {
    variant_tys(d.variants).map_values(|t: Ty| subst_ty(t, decl_subst(d.type_params, args)))
}

/// Whether values of type `t` can be compared for equality, once its aliases
/// are expanded. Type parameters, `Self` and unknown names are taken as
/// comparable; resources, collections, arrays, slices and functions are not;
/// a struct or enum is when all its field types are, a declaration already
/// being looked into counting as comparable.
pub open spec fn equatable(t: Ty, td: TypeDefs, al: Map<Seq<char>, AliasV>, tp: Set<Seq<char>>, ss: Set<Seq<char>>, es: Set<Seq<char>>) -> Result<bool, Seq<char>>
    decreases unseen(td, ss, es), 2nat, t,
{
    match base_of(t, al) {
        Err(x) => Err(x),
        Ok(b) => eq_base(b, td, al, tp, ss, es),
    }
}

/// Equatability of a type whose aliases are expanded.
pub open spec fn eq_base(t: Ty, td: TypeDefs, al: Map<Seq<char>, AliasV>, tp: Set<Seq<char>>, ss: Set<Seq<char>>, es: Set<Seq<char>>) -> Result<bool, Seq<char>>
    decreases unseen(td, ss, es), 1nat, t,
{
    match t {
        Ty::Option(inner) => eq_base(*inner, td, al, tp, ss, es),
        Ty::Result(ok, err) => match eq_base(*ok, td, al, tp, ss, es) {
            Ok(true) => eq_base(*err, td, al, tp, ss, es),
            other => other,
        },
        Ty::Tuple(elems) => eq_list(elems, td, al, tp, ss, es),
        Ty::Array(..) | Ty::Slice(_) | Ty::List(_) | Ty::SetOf(_) | Ty::MapOf(..) | Ty::Fn { .. } => Ok(false),
        Ty::Named { name, args } => if tp.contains(name) || name == "Self"@ {
            Ok(true)
        } else if td.resources@.contains(name) {
            Ok(false)
        } else if struct_names(td.structs@).contains(name) {
            if ss.contains(name) {
                Ok(true)
            } else {
                proof {
                    lemma_unseen_struct(td, ss, es, name);
                }
                eq_fields(struct_field_tys(td.structs@[struct_index(td.structs@, name)->Some_0]@, args), td, al, tp, ss.insert(name), es)
            }
        } else if enum_names(td.enums@).contains(name) {
            if es.contains(name) {
                Ok(true)
            } else {
                proof {
                    lemma_unseen_enum(td, ss, es, name);
                }
                eq_fields(enum_field_tys(td.enums@[enum_index(td.enums@, name)->Some_0]@, args), td, al, tp, ss, es.insert(name))
            }
        } else {
            Ok(true)
        },
        _ => Ok(true),
    }
}

/// Equatability of every type of a list (expanded already), stopping at the
/// first that is not.
pub open spec fn eq_list(ts: Seq<Ty>, td: TypeDefs, al: Map<Seq<char>, AliasV>, tp: Set<Seq<char>>, ss: Set<Seq<char>>, es: Set<Seq<char>>) -> Result<bool, Seq<char>>
    decreases unseen(td, ss, es), 1nat, ts,
{
    if ts.len() == 0 {
        Ok(true)
    } else {
        match eq_base(ts[0], td, al, tp, ss, es) {
            Ok(true) => eq_list(ts.drop_first(), td, al, tp, ss, es),
            other => other,
        }
    }
}

/// Equatability of every field type of a declaration, stopping at the first
/// that is not.
pub open spec fn eq_fields(ts: Seq<Ty>, td: TypeDefs, al: Map<Seq<char>, AliasV>, tp: Set<Seq<char>>, ss: Set<Seq<char>>, es: Set<Seq<char>>) -> Result<bool, Seq<char>>
    decreases unseen(td, ss, es) + 1, 0nat, ts,
{
    if ts.len() == 0 {
        Ok(true)
    } else {
        match equatable(ts[0], td, al, tp, ss, es) {
            Ok(true) => eq_fields(ts.drop_first(), td, al, tp, ss, es),
            other => other,
        }
    }
}

fn build_type_subst(params: &Vec<TypeParam>, args: &Vec<Type>) -> (s: TypeSubst)
    ensures
        s@ == decl_subst(type_param_names(params@), types_view(args@)),
{
    let ghost pv = type_param_names(params@);
    let ghost av = types_view(args@);
    let n: usize = if params.len() <= args.len() { params.len() } else { args.len() };
    let mut subst = TypeSubst::new();
    let mut i: usize = 0;
    assert(pv.take(0) =~= Seq::<Seq<char>>::empty());
    while i < n
        invariant
            i <= n,
            n <= params@.len(),
            n <= args@.len(),
            pv == type_param_names(params@),
            av == types_view(args@),
            subst@ == alias_subst(pv.take(i as int), av),
        decreases n - i,
    {
        subst.insert(params[i].name.clone(), copy_type(&args[i]));
        proof {
            let next = pv.take(i as int + 1);
            assert(next.subrange(0, i as int) =~= pv.take(i as int));
        }
        i = i + 1;
    }
    subst
}

proof fn lemma_map_values_take<A, B>(s: Seq<A>, f: spec_fn(A) -> B, i: int)
    requires
        0 <= i < s.len(),
    ensures
        s.take(i + 1).map_values(f) == s.take(i).map_values(f).push(f(s[i])),
{
    assert(s.take(i + 1).map_values(f) =~= s.take(i).map_values(f).push(f(s[i])));
}

/// The types of a struct's fields, in order, for the given arguments.
pub fn struct_field_types(d: &StructDecl, args: &Vec<Type>) -> (r: Vec<Type>)
    ensures
        types_view(r@) == struct_field_tys(d@, types_view(args@)),
{
    let subst = build_type_subst(&d.type_params, args);
    let mut out: Vec<Type> = Vec::new();
    let mut i: usize = 0;
    while i < d.fields.len()
        invariant
            i <= d.fields@.len(),
            subst@ == decl_subst(type_param_names(d.type_params@), types_view(args@)),
            out@.len() == i,
            forall|j: int| 0 <= j < i ==> type_view(#[trigger] out@[j]) == subst_ty(d.fields@[j].ty@, subst@),
        decreases d.fields.len() - i,
    {
        out.push(substitute_type(&d.fields[i].ty, &subst));
        i = i + 1;
    }
    assert(types_view(out@) =~= struct_field_tys(d@, types_view(args@)));
    out
}

/// The types of an enum's variant fields, variant by variant, for the given
/// arguments.
pub fn enum_field_types(d: &EnumDecl, args: &Vec<Type>) -> (r: Vec<Type>)
    ensures
        types_view(r@) == enum_field_tys(d@, types_view(args@)),
{
    let subst = build_type_subst(&d.type_params, args);
    let ghost sm = subst@;
    let ghost vs = d@.variants;
    let ghost f = |t: Ty| subst_ty(t, sm);
    let mut out: Vec<Type> = Vec::new();
    let mut v: usize = 0;
    assert(vs.take(0) =~= Seq::<EnumVariantV>::empty());
    assert(types_view(out@) =~= variant_tys(vs.take(0)).map_values(f));
    while v < d.variants.len()
        invariant
            v <= d.variants@.len(),
            vs == d@.variants,
            sm == subst@,
            sm == decl_subst(type_param_names(d.type_params@), types_view(args@)),
            f == (|t: Ty| subst_ty(t, sm)),
            types_view(out@) == variant_tys(vs.take(v as int)).map_values(f),
        decreases d.variants.len() - v,
    {
        let fields = &d.variants[v].fields;
        let ghost base = variant_tys(vs.take(v as int));
        let ghost fv = types_view(fields@);
        assert(vs[v as int].fields == fv);
        let mut k: usize = 0;
        assert(fv.take(0) =~= Seq::<Ty>::empty());
        assert(types_view(out@) =~= (base + fv.take(0)).map_values(f));
        while k < fields.len()
            invariant
                k <= fields@.len(),
                fv == types_view(fields@),
                sm == subst@,
                f == (|t: Ty| subst_ty(t, sm)),
                types_view(out@) == (base + fv.take(k as int)).map_values(f),
            decreases fields.len() - k,
        {
            let ghost before = out@;
            out.push(substitute_type(&fields[k], &subst));
            proof {
                assert((base + fv.take(k as int + 1)) =~= (base + fv.take(k as int)).push(fv[k as int]));
                lemma_map_values_take(base + fv.take(k as int + 1), f, (base.len() + k) as int);
                assert((base + fv.take(k as int + 1)).take((base.len() + k) as int) =~= base + fv.take(k as int));
                assert(types_view(out@) =~= types_view(before).push(type_view(out@[before.len() as int])));
                assert((base + fv.take(k as int + 1)).take((base.len() + k) as int + 1) =~= base + fv.take(k as int + 1));
            }
            k = k + 1;
        }
        proof {
            assert(fv.take(fields@.len() as int) =~= fv);
            assert(vs.take(v as int + 1).drop_last() =~= vs.take(v as int));
            assert(vs.take(v as int + 1).last() == vs[v as int]);
        }
        v = v + 1;
    }
    assert(vs.take(d.variants@.len() as int) =~= vs);
    out
}

/// Whether values of type `ty` can be compared for equality (see
/// `equatable`). `seen` holds the declarations being looked into; it is
/// left as it was unless alias expansion fails.
pub fn is_equatable_type(ty: &Type, type_defs: &TypeDefs, aliases: &AliasMap, type_params: &NameSet, seen: &mut SeenDecls) -> (r: Result<bool, TyperError>)
    ensures
        decided_as(r, equatable(ty@, *type_defs, aliases@, type_params@, old(seen).structs@, old(seen).enums@), aliases@),
        r is Ok ==> final(seen).structs@ == old(seen).structs@ && final(seen).enums@ == old(seen).enums@,
    decreases unseen(*type_defs, old(seen).structs@, old(seen).enums@), 3nat, ty,
{
    let b = match base_type(ty, aliases) {
        Ok(b) => b,
        Err(e) => return Err(e),
    };
    eq_base_exec(&b, type_defs, aliases, type_params, seen)
}

fn eq_base_exec(t: &Type, type_defs: &TypeDefs, aliases: &AliasMap, type_params: &NameSet, seen: &mut SeenDecls) -> (r: Result<bool, TyperError>)
    ensures
        decided_as(r, eq_base(t@, *type_defs, aliases@, type_params@, old(seen).structs@, old(seen).enums@), aliases@),
        r is Ok ==> final(seen).structs@ == old(seen).structs@ && final(seen).enums@ == old(seen).enums@,
    decreases unseen(*type_defs, old(seen).structs@, old(seen).enums@), 1nat, t,
{
    match t {
        Type::Option(inner) => eq_base_exec(inner, type_defs, aliases, type_params, seen),
        Type::Result(ok, err) => {
            match eq_base_exec(ok, type_defs, aliases, type_params, seen) {
                Ok(true) => eq_base_exec(err, type_defs, aliases, type_params, seen),
                other => other,
            }
        },
        Type::Tuple(elems) => eq_list_exec(elems, type_defs, aliases, type_params, seen),
        Type::Array(..) | Type::Slice(_) | Type::List(_) | Type::SetOf(_) | Type::MapOf(..) | Type::Fn { .. } => Ok(false),
        Type::Named { name, args } => {
            let n = name.as_str();
            if type_params.contains(n) || str_eq(n, "Self") {
                return Ok(true);
            }
            if type_defs.resources.contains(n) {
                return Ok(false);
            }
            match find_struct(&type_defs.structs, n) {
                Some(idx) => {
                    if seen.structs.contains(n) {
                        return Ok(true);
                    }
                    let fields = struct_field_types(&type_defs.structs[idx], args);
                    proof {
                        lemma_unseen_struct(*type_defs, seen.structs@, seen.enums@, name@);
                    }
                    let ghost before = seen.structs@;
                    seen.structs.insert(name.clone());
                    let r = eq_fields_exec(&fields, type_defs, aliases, type_params, seen);
                    if r.is_ok() {
                        seen.structs.remove(n);
                        assert(seen.structs@ =~= before);
                    }
                    r
                },
                None => match find_enum(&type_defs.enums, n) {
                    Some(idx) => {
                        if seen.enums.contains(n) {
                            return Ok(true);
                        }
                        let fields = enum_field_types(&type_defs.enums[idx], args);
                        proof {
                            lemma_unseen_enum(*type_defs, seen.structs@, seen.enums@, name@);
                        }
                        let ghost before = seen.enums@;
                        seen.enums.insert(name.clone());
                        let r = eq_fields_exec(&fields, type_defs, aliases, type_params, seen);
                        if r.is_ok() {
                            seen.enums.remove(n);
                            assert(seen.enums@ =~= before);
                        }
                        r
                    },
                    None => Ok(true),
                },
            }
        },
        _ => Ok(true),
    }
}

fn eq_list_exec(elems: &Vec<Type>, type_defs: &TypeDefs, aliases: &AliasMap, type_params: &NameSet, seen: &mut SeenDecls) -> (r: Result<bool, TyperError>)
    ensures
        decided_as(r, eq_list(types_view(elems@), *type_defs, aliases@, type_params@, old(seen).structs@, old(seen).enums@), aliases@),
        r is Ok ==> final(seen).structs@ == old(seen).structs@ && final(seen).enums@ == old(seen).enums@,
    decreases unseen(*type_defs, old(seen).structs@, old(seen).enums@), 1nat, elems,
{
    let ghost tv = types_view(elems@);
    let ghost ss = seen.structs@;
    let ghost es = seen.enums@;
    let mut i: usize = 0;
    assert(tv.subrange(0, tv.len() as int) =~= tv);
    while i < elems.len()
        invariant
            i <= elems@.len(),
            tv == types_view(elems@),
            seen.structs@ == ss,
            seen.enums@ == es,
            ss == old(seen).structs@,
            es == old(seen).enums@,
            eq_list(tv, *type_defs, aliases@, type_params@, ss, es)
                == eq_list(tv.subrange(i as int, tv.len() as int), *type_defs, aliases@, type_params@, ss, es),
        decreases elems.len() - i,
    {
        assert(decreases_to!(elems => elems@[i as int]));
        let ghost rest = tv.subrange(i as int, tv.len() as int);
        assert(rest.drop_first() =~= tv.subrange(i as int + 1, tv.len() as int));
        assert(rest[0] == elems@[i as int]@);
        match eq_base_exec(&elems[i], type_defs, aliases, type_params, seen) {
            Ok(true) => {},
            other => return other,
        }
        i = i + 1;
    }
    Ok(true)
}

fn eq_fields_exec(ts: &Vec<Type>, type_defs: &TypeDefs, aliases: &AliasMap, type_params: &NameSet, seen: &mut SeenDecls) -> (r: Result<bool, TyperError>)
    ensures
        decided_as(r, eq_fields(types_view(ts@), *type_defs, aliases@, type_params@, old(seen).structs@, old(seen).enums@), aliases@),
        r is Ok ==> final(seen).structs@ == old(seen).structs@ && final(seen).enums@ == old(seen).enums@,
    decreases unseen(*type_defs, old(seen).structs@, old(seen).enums@), 4nat, ts,
{
    let ghost tv = types_view(ts@);
    let ghost ss = seen.structs@;
    let ghost es = seen.enums@;
    let mut i: usize = 0;
    assert(tv.subrange(0, tv.len() as int) =~= tv);
    while i < ts.len()
        invariant
            i <= ts@.len(),
            tv == types_view(ts@),
            seen.structs@ == ss,
            seen.enums@ == es,
            ss == old(seen).structs@,
            es == old(seen).enums@,
            eq_fields(tv, *type_defs, aliases@, type_params@, ss, es)
                == eq_fields(tv.subrange(i as int, tv.len() as int), *type_defs, aliases@, type_params@, ss, es),
        decreases ts.len() - i,
    {
        let ghost rest = tv.subrange(i as int, tv.len() as int);
        assert(rest.drop_first() =~= tv.subrange(i as int + 1, tv.len() as int));
        assert(rest[0] == ts@[i as int]@);
        match is_equatable_type(&ts[i], type_defs, aliases, type_params, seen) {
            Ok(true) => {},
            other => return other,
        }
        i = i + 1;
    }
    Ok(true)
}

/// The first key type (of a `Set`, or of a `Map`) in `t` whose values cannot
/// be compared, once aliases are expanded, looking through options, lists,
/// arrays, slices, results, tuples, map values and the fields of structs and
/// enums (each declaration once).
pub open spec fn non_equatable_key(t: Ty, td: TypeDefs, al: Map<Seq<char>, AliasV>, tp: Set<Seq<char>>, ss: Set<Seq<char>>, es: Set<Seq<char>>) -> Result<Option<Ty>, Seq<char>>
    decreases unseen(td, ss, es), 2nat, t,
{
    match base_of(t, al) {
        Err(x) => Err(x),
        Ok(b) => nk_base(b, td, al, tp, ss, es),
    }
}

/// The search of `non_equatable_key` in a type whose aliases are expanded.
pub open spec fn nk_base(t: Ty, td: TypeDefs, al: Map<Seq<char>, AliasV>, tp: Set<Seq<char>>, ss: Set<Seq<char>>, es: Set<Seq<char>>) -> Result<Option<Ty>, Seq<char>>
    decreases unseen(td, ss, es), 1nat, t,
{
    match t {
        Ty::SetOf(inner) => match equatable(*inner, td, al, tp, ss, es) {
            Err(x) => Err(x),
            Ok(false) => Ok(Some(*inner)),
            Ok(true) => Ok(None),
        },
        Ty::MapOf(k, v) => match equatable(*k, td, al, tp, ss, es) {
            Err(x) => Err(x),
            Ok(false) => Ok(Some(*k)),
            Ok(true) => nk_base(*v, td, al, tp, ss, es),
        },
        Ty::Option(inner) => nk_base(*inner, td, al, tp, ss, es),
        Ty::List(inner) => nk_base(*inner, td, al, tp, ss, es),
        Ty::Array(inner, _) => nk_base(*inner, td, al, tp, ss, es),
        Ty::Slice(inner) => nk_base(*inner, td, al, tp, ss, es),
        Ty::Result(ok, err) => match nk_base(*ok, td, al, tp, ss, es) {
            Ok(None) => nk_base(*err, td, al, tp, ss, es),
            other => other,
        },
        Ty::Tuple(elems) => nk_list(elems, td, al, tp, ss, es),
        Ty::Named { name, args } => if tp.contains(name) || name == "Self"@ {
            Ok(None)
        } else if struct_names(td.structs@).contains(name) {
            if ss.contains(name) {
                Ok(None)
            } else {
                proof {
                    lemma_unseen_struct(td, ss, es, name);
                }
                nk_fields(struct_field_tys(td.structs@[struct_index(td.structs@, name)->Some_0]@, args), td, al, tp, ss.insert(name), es)
            }
        } else if enum_names(td.enums@).contains(name) {
            if es.contains(name) {
                Ok(None)
            } else {
                proof {
                    lemma_unseen_enum(td, ss, es, name);
                }
                nk_fields(enum_field_tys(td.enums@[enum_index(td.enums@, name)->Some_0]@, args), td, al, tp, ss, es.insert(name))
            }
        } else {
            Ok(None)
        },
        _ => Ok(None),
    }
}

pub open spec fn nk_list(ts: Seq<Ty>, td: TypeDefs, al: Map<Seq<char>, AliasV>, tp: Set<Seq<char>>, ss: Set<Seq<char>>, es: Set<Seq<char>>) -> Result<Option<Ty>, Seq<char>>
    decreases unseen(td, ss, es), 1nat, ts,
{
    if ts.len() == 0 {
        Ok(None)
    } else {
        match nk_base(ts[0], td, al, tp, ss, es) {
            Ok(None) => nk_list(ts.drop_first(), td, al, tp, ss, es),
            other => other,
        }
    }
}

pub open spec fn nk_fields(ts: Seq<Ty>, td: TypeDefs, al: Map<Seq<char>, AliasV>, tp: Set<Seq<char>>, ss: Set<Seq<char>>, es: Set<Seq<char>>) -> Result<Option<Ty>, Seq<char>>
    decreases unseen(td, ss, es) + 1, 0nat, ts,
{
    if ts.len() == 0 {
        Ok(None)
    } else {
        match non_equatable_key(ts[0], td, al, tp, ss, es) {
            Ok(None) => nk_fields(ts.drop_first(), td, al, tp, ss, es),
            other => other,
        }
    }
}

/// A search result is the executable counterpart of an outcome.
pub open spec fn found_as(r: Result<Option<Type>, TyperError>, spec: Result<Option<Ty>, Seq<char>>, al: Map<Seq<char>, AliasV>) -> bool {
    match r {
        Ok(None) => spec == Ok::<Option<Ty>, Seq<char>>(None),
        Ok(Some(t)) => spec == Ok::<Option<Ty>, Seq<char>>(Some(t@)),
        Err(e) => spec is Err && al.contains_key(spec->Err_0) && is_cyclic_alias_error(e, spec->Err_0, al[spec->Err_0].span),
    }
}

/// Finds the first collection key type in `ty` that cannot be compared
/// (see `non_equatable_key`); `seen` is left as it was unless alias
/// expansion fails.
pub fn find_non_equatable_collection_key(ty: &Type, type_defs: &TypeDefs, aliases: &AliasMap, type_params: &NameSet, seen: &mut SeenDecls) -> (r: Result<Option<Type>, TyperError>)
    ensures
        found_as(r, non_equatable_key(ty@, *type_defs, aliases@, type_params@, old(seen).structs@, old(seen).enums@), aliases@),
        r is Ok ==> final(seen).structs@ == old(seen).structs@ && final(seen).enums@ == old(seen).enums@,
    decreases unseen(*type_defs, old(seen).structs@, old(seen).enums@), 3nat, ty,
{
    let b = match base_type(ty, aliases) {
        Ok(b) => b,
        Err(e) => return Err(e),
    };
    nk_base_exec(&b, type_defs, aliases, type_params, seen)
}

fn key_outcome(k: &Type, type_defs: &TypeDefs, aliases: &AliasMap, type_params: &NameSet, seen: &mut SeenDecls) -> (r: Result<Option<Type>, TyperError>)
    ensures
        found_as(r, match equatable(k@, *type_defs, aliases@, type_params@, old(seen).structs@, old(seen).enums@) {
            Err(x) => Err(x),
            Ok(false) => Ok(Some(k@)),
            Ok(true) => Ok(None),
        }, aliases@),
        r is Ok ==> final(seen).structs@ == old(seen).structs@ && final(seen).enums@ == old(seen).enums@,
{
    match is_equatable_type(k, type_defs, aliases, type_params, seen) {
        Err(e) => Err(e),
        Ok(false) => Ok(Some(copy_type(k))),
        Ok(true) => Ok(None),
    }
}

fn nk_base_exec(t: &Type, type_defs: &TypeDefs, aliases: &AliasMap, type_params: &NameSet, seen: &mut SeenDecls) -> (r: Result<Option<Type>, TyperError>)
    ensures
        found_as(r, nk_base(t@, *type_defs, aliases@, type_params@, old(seen).structs@, old(seen).enums@), aliases@),
        r is Ok ==> final(seen).structs@ == old(seen).structs@ && final(seen).enums@ == old(seen).enums@,
    decreases unseen(*type_defs, old(seen).structs@, old(seen).enums@), 1nat, t,
{
    match t {
        Type::SetOf(inner) => key_outcome(inner, type_defs, aliases, type_params, seen),
        Type::MapOf(k, v) => {
            match key_outcome(k, type_defs, aliases, type_params, seen) {
                Ok(None) => nk_base_exec(v, type_defs, aliases, type_params, seen),
                other => other,
            }
        },
        Type::Option(inner) | Type::List(inner) | Type::Slice(inner) => nk_base_exec(inner, type_defs, aliases, type_params, seen),
        Type::Array(inner, _) => nk_base_exec(inner, type_defs, aliases, type_params, seen),
        Type::Result(ok, err) => {
            match nk_base_exec(ok, type_defs, aliases, type_params, seen) {
                Ok(None) => nk_base_exec(err, type_defs, aliases, type_params, seen),
                other => other,
            }
        },
        Type::Tuple(elems) => nk_list_exec(elems, type_defs, aliases, type_params, seen),
        Type::Named { name, args } => {
            let n = name.as_str();
            if type_params.contains(n) || str_eq(n, "Self") {
                return Ok(None);
            }
            match find_struct(&type_defs.structs, n) {
                Some(idx) => {
                    if seen.structs.contains(n) {
                        return Ok(None);
                    }
                    let fields = struct_field_types(&type_defs.structs[idx], args);
                    proof {
                        lemma_unseen_struct(*type_defs, seen.structs@, seen.enums@, name@);
                    }
                    let ghost before = seen.structs@;
                    seen.structs.insert(name.clone());
                    let r = nk_fields_exec(&fields, type_defs, aliases, type_params, seen);
                    if r.is_ok() {
                        seen.structs.remove(n);
                        assert(seen.structs@ =~= before);
                    }
                    r
                },
                None => match find_enum(&type_defs.enums, n) {
                    Some(idx) => {
                        if seen.enums.contains(n) {
                            return Ok(None);
                        }
                        let fields = enum_field_types(&type_defs.enums[idx], args);
                        proof {
                            lemma_unseen_enum(*type_defs, seen.structs@, seen.enums@, name@);
                        }
                        let ghost before = seen.enums@;
                        seen.enums.insert(name.clone());
                        let r = nk_fields_exec(&fields, type_defs, aliases, type_params, seen);
                        if r.is_ok() {
                            seen.enums.remove(n);
                            assert(seen.enums@ =~= before);
                        }
                        r
                    },
                    None => Ok(None),
                },
            }
        },
        _ => Ok(None),
    }
}

fn nk_list_exec(elems: &Vec<Type>, type_defs: &TypeDefs, aliases: &AliasMap, type_params: &NameSet, seen: &mut SeenDecls) -> (r: Result<Option<Type>, TyperError>)
    ensures
        found_as(r, nk_list(types_view(elems@), *type_defs, aliases@, type_params@, old(seen).structs@, old(seen).enums@), aliases@),
        r is Ok ==> final(seen).structs@ == old(seen).structs@ && final(seen).enums@ == old(seen).enums@,
    decreases unseen(*type_defs, old(seen).structs@, old(seen).enums@), 1nat, elems,
{
    let ghost tv = types_view(elems@);
    let ghost ss = seen.structs@;
    let ghost es = seen.enums@;
    let mut i: usize = 0;
    assert(tv.subrange(0, tv.len() as int) =~= tv);
    while i < elems.len()
        invariant
            i <= elems@.len(),
            tv == types_view(elems@),
            seen.structs@ == ss,
            seen.enums@ == es,
            ss == old(seen).structs@,
            es == old(seen).enums@,
            nk_list(tv, *type_defs, aliases@, type_params@, ss, es)
                == nk_list(tv.subrange(i as int, tv.len() as int), *type_defs, aliases@, type_params@, ss, es),
        decreases elems.len() - i,
    {
        assert(decreases_to!(elems => elems@[i as int]));
        let ghost rest = tv.subrange(i as int, tv.len() as int);
        assert(rest.drop_first() =~= tv.subrange(i as int + 1, tv.len() as int));
        assert(rest[0] == elems@[i as int]@);
        match nk_base_exec(&elems[i], type_defs, aliases, type_params, seen) {
            Ok(None) => {},
            other => return other,
        }
        i = i + 1;
    }
    Ok(None)
}

fn nk_fields_exec(ts: &Vec<Type>, type_defs: &TypeDefs, aliases: &AliasMap, type_params: &NameSet, seen: &mut SeenDecls) -> (r: Result<Option<Type>, TyperError>)
    ensures
        found_as(r, nk_fields(types_view(ts@), *type_defs, aliases@, type_params@, old(seen).structs@, old(seen).enums@), aliases@),
        r is Ok ==> final(seen).structs@ == old(seen).structs@ && final(seen).enums@ == old(seen).enums@,
    decreases unseen(*type_defs, old(seen).structs@, old(seen).enums@), 4nat, ts,
{
    let ghost tv = types_view(ts@);
    let ghost ss = seen.structs@;
    let ghost es = seen.enums@;
    let mut i: usize = 0;
    assert(tv.subrange(0, tv.len() as int) =~= tv);
    while i < ts.len()
        invariant
            i <= ts@.len(),
            tv == types_view(ts@),
            seen.structs@ == ss,
            seen.enums@ == es,
            ss == old(seen).structs@,
            es == old(seen).enums@,
            nk_fields(tv, *type_defs, aliases@, type_params@, ss, es)
                == nk_fields(tv.subrange(i as int, tv.len() as int), *type_defs, aliases@, type_params@, ss, es),
        decreases ts.len() - i,
    {
        let ghost rest = tv.subrange(i as int, tv.len() as int);
        assert(rest.drop_first() =~= tv.subrange(i as int + 1, tv.len() as int));
        assert(rest[0] == ts@[i as int]@);
        match find_non_equatable_collection_key(&ts[i], type_defs, aliases, type_params, seen) {
            Ok(None) => {},
            other => return other,
        }
        i = i + 1;
    }
    Ok(None)
}

/// Why a type was refused as a collection's element or key type.
#[derive(Debug)]
pub enum CollectionKeyError {
    Typer(TyperError),
    NonEquatableKey { offending: Type, span: Option<Span> },
}

/// Refuses a type in which a `Set` element or `Map` key type cannot be
/// compared for equality (see `non_equatable_key`), naming the first such
/// key type and the given span.
pub fn ensure_equatable_collection_keys(ty: &Type, span: Option<Span>, type_defs: &TypeDefs, aliases: &AliasMap, type_params: &NameSet) -> (r: Result<(), CollectionKeyError>)
    ensures
        match non_equatable_key(ty@, *type_defs, aliases@, type_params@, Set::empty(), Set::empty()) {
            Ok(None) => r is Ok,
            Ok(Some(k)) => r matches Err(CollectionKeyError::NonEquatableKey { offending, span: s }) && offending@ == k && s == span,
            Err(x) => r matches Err(CollectionKeyError::Typer(e)) && aliases@.contains_key(x) && is_cyclic_alias_error(e, x, aliases@[x].span),
        },
{
    let mut seen = SeenDecls { structs: NameSet::new(), enums: NameSet::new() };
    match find_non_equatable_collection_key(ty, type_defs, aliases, type_params, &mut seen) {
        Ok(Some(offending)) => Err(CollectionKeyError::NonEquatableKey { offending, span }),
        Ok(None) => Ok(()),
        Err(e) => Err(CollectionKeyError::Typer(e)),
    }
}

/// Expanding a type's aliases first does not change whether it is equatable.
pub proof fn lemma_equatable_after_expansion(t: Ty, td: TypeDefs, al: Map<Seq<char>, AliasV>, tp: Set<Seq<char>>, ss: Set<Seq<char>>, es: Set<Seq<char>>)
    requires
        al.dom().finite(),
        base_of(t, al) is Ok,
    ensures
        equatable(base_of(t, al)->Ok_0, td, al, tp, ss, es) == equatable(t, td, al, tp, ss, es),
{
    lemma_base_idempotent(t, al);
}

/// Expanding a type's aliases first does not change which collection key is
/// found.
pub proof fn lemma_key_search_after_expansion(t: Ty, td: TypeDefs, al: Map<Seq<char>, AliasV>, tp: Set<Seq<char>>, ss: Set<Seq<char>>, es: Set<Seq<char>>)
    requires
        al.dom().finite(),
        base_of(t, al) is Ok,
    ensures
        non_equatable_key(base_of(t, al)->Ok_0, td, al, tp, ss, es) == non_equatable_key(t, td, al, tp, ss, es),
{
    lemma_base_idempotent(t, al);
}

} // verus!
