use vstd::prelude::*;
use crate::ast::{EnumVariant, MatchPat, type_param_names};
use crate::env::{enum_index, find_enum, TypeDefs, TypeParam};
use crate::errors::TyperError;
use crate::text::str_eq;
use crate::ty::{copy_type, type_view, types_view, Ty, Type};
use crate::type_params::{subst_ty, substitute_type, TypeSubst};
use crate::type_resolve::{alias_subst, base_of, base_type, is_cyclic_alias_error, AliasMap, AliasV};

verus! {

/// Why the fields of an enum variant could not be worked out.
pub enum VariantFault {
    Alias(Seq<char>),
    UnknownEnum(Seq<char>),
    UnknownVariant(Seq<char>),
    ArgCount(nat, nat),
}

/// Why a pattern's binders could not be typed.
#[derive(Debug)]
pub enum BinderError {
    Typer(TyperError),
    UnknownEnum { name: String },
    UnknownVariant { name: String },
    TypeArgCountMismatch { expected: usize, found: usize },
}

/// `e` reports the fault `f`.
pub open spec fn reports_fault(e: BinderError, f: VariantFault, al: Map<Seq<char>, AliasV>) -> bool {
    match f {
        VariantFault::Alias(x) => e matches BinderError::Typer(t) && al.contains_key(x) && is_cyclic_alias_error(t, x, al[x].span),
        VariantFault::UnknownEnum(n) => e matches BinderError::UnknownEnum { name } && name@ == n,
        VariantFault::UnknownVariant(n) => e matches BinderError::UnknownVariant { name } && name@ == n,
        VariantFault::ArgCount(x, y) => e matches BinderError::TypeArgCountMismatch { expected, found }
            && expected == x && found == y,
    }
}

/// The first variant named `n`.
pub open spec fn variant_index(vs: Seq<EnumVariant>, n: Seq<char>) -> Option<int> {
    if exists|i: int| 0 <= i < vs.len() && (#[trigger] vs[i]).name@ == n {
        Some(choose|i: int| 0 <= i < vs.len() && vs[i].name@ == n && forall|j: int| 0 <= j < i ==> (#[trigger] vs[j]).name@ != n)
    } else {
        None
    }
}

/// The field types of variant `variant` of enum `enum_name` applied to `args`.
pub open spec fn variant_fields(td: TypeDefs, enum_name: Seq<char>, args: Seq<Ty>, variant: Seq<char>) -> Result<Seq<Ty>, VariantFault> {
    match enum_index(td.enums@, enum_name) {
        None => Err(VariantFault::UnknownEnum(enum_name)),
        Some(i) => {
            let d = td.enums@[i];
            if d.type_params@.len() != args.len() {
                Err(VariantFault::ArgCount(d.type_params@.len(), args.len()))
            } else {
                match variant_index(d.variants@, variant) {
                    None => Err(VariantFault::UnknownVariant(variant)),
                    Some(k) => Ok(types_view(d.variants@[k].fields@).map_values(
                        |t: Ty| subst_ty(t, alias_subst(type_param_names(d.type_params@), args)),
                    )),
                }
            }
        },
    }
}

/// The substitution binding each declared parameter to its argument; the
/// counts must agree.
pub fn build_type_param_subst(params: &Vec<TypeParam>, args: &Vec<Type>) -> (r: Result<TypeSubst, BinderError>)
    ensures
        match r {
            Ok(s) => params@.len() == args@.len() && s@ == alias_subst(type_param_names(params@), types_view(args@)),
            Err(e) => params@.len() != args@.len() && reports_fault(e, VariantFault::ArgCount(params@.len() as nat, args@.len() as nat), Map::empty()),
        },
{
    if params.len() != args.len() {
        return Err(BinderError::TypeArgCountMismatch { expected: params.len(), found: args.len() });
    }
    let ghost pv = type_param_names(params@);
    let ghost av = types_view(args@);
    let mut subst = TypeSubst::new();
    let mut i: usize = 0;
    while i < params.len()
        invariant
            i <= params@.len(),
            params@.len() == args@.len(),
            pv == type_param_names(params@),
            av == types_view(args@),
            subst@ == alias_subst(pv.subrange(0, i as int), av),
        decreases params.len() - i,
    {
        subst.insert(params[i].name.clone(), copy_type(&args[i]));
        proof {
            let next = pv.subrange(0, i as int + 1);
            assert(next.subrange(0, i as int) =~= pv.subrange(0, i as int));
        }
        i = i + 1;
    }
    assert(pv.subrange(0, params@.len() as int) =~= pv);
    Ok(subst)
}

fn find_variant(vs: &Vec<EnumVariant>, name: &str) -> (r: Option<usize>)
    ensures
        match r {
            Some(i) => i < vs@.len() && vs@[i as int].name@ == name@ && variant_index(vs@, name@) == Some(i as int),
            None => variant_index(vs@, name@) is None,
        },
{
    let mut i: usize = 0;
    while i < vs.len()
        invariant
            i <= vs@.len(),
            forall|j: int| 0 <= j < i ==> (#[trigger] vs@[j]).name@ != name@,
        decreases vs.len() - i,
    {
        if str_eq(vs[i].name.as_str(), name) {
            proof {
                let k = variant_index(vs@, name@)->Some_0;
                assert(k == i as int) by {
                    if k < i {
                    } else if k > i {
                    }
                }
            }
            return Some(i);
        }
        i = i + 1;
    }
    None
}

/// Applies a substitution to each type of a list.
fn substitute_all(types: &Vec<Type>, subst: &TypeSubst) -> (r: Vec<Type>)
    ensures
        types_view(r@) == types_view(types@).map_values(|t: Ty| subst_ty(t, subst@)),
{
    let mut out: Vec<Type> = Vec::new();
    let mut i: usize = 0;
    while i < types.len()
        invariant
            i <= types@.len(),
            out@.len() == i,
            forall|j: int| 0 <= j < i ==> type_view(#[trigger] out@[j]) == subst_ty(types@[j]@, subst@),
        decreases types.len() - i,
    {
        out.push(substitute_type(&types[i], subst));
        i = i + 1;
    }
    assert(types_view(out@) =~= types_view(types@).map_values(|t: Ty| subst_ty(t, subst@)));
    out
}

/// The field types of a variant of an enum applied to `args`.
pub fn enum_variant_fields(type_defs: &TypeDefs, enum_name: &str, args: &Vec<Type>, variant_name: &str) -> (r: Result<Vec<Type>, BinderError>)
    ensures
        match variant_fields(*type_defs, enum_name@, types_view(args@), variant_name@) {
            Ok(fs) => r matches Ok(v) && types_view(v@) == fs,
            Err(f) => r matches Err(e) && reports_fault(e, f, Map::empty()),
        },
{
    let idx = match find_enum(&type_defs.enums, enum_name) {
        Some(i) => i,
        None => return Err(BinderError::UnknownEnum { name: enum_name.to_string() }),
    };
    let d = &type_defs.enums[idx];
    let subst = match build_type_param_subst(&d.type_params, args) {
        Ok(s) => s,
        Err(e) => return Err(e),
    };
    let k = match find_variant(&d.variants, variant_name) {
        Some(k) => k,
        None => return Err(BinderError::UnknownVariant { name: variant_name.to_string() }),
    };
    Ok(substitute_all(&d.variants[k].fields, &subst))
}

/// The bindings of a pattern, each name with its type.
pub open spec fn binders_view(v: Seq<(String, Type)>) -> Seq<(Seq<char>, Ty)> {
    v.map_values(|b: (String, Type)| (b.0@, b.1@))
}

/// The names a `match` pattern binds, with their types, for a scrutinee of
/// type `scrutinee` (aliases expanded first). A pattern that does not fit the
/// scrutinee's shape binds nothing; enum binders pair up with the variant's
/// fields as far as both go.
pub open spec fn pattern_binder_types(pat: MatchPat, scrutinee: Ty, td: TypeDefs, al: Map<Seq<char>, AliasV>) -> Result<Seq<(Seq<char>, Ty)>, VariantFault> {
    match base_of(scrutinee, al) {
        Err(x) => Err(VariantFault::Alias(x)),
        Ok(r) => match pat {
            MatchPat::SomeBind(n) => match r {
                Ty::Option(inner) => Ok(seq![(n@, *inner)]),
                _ => Ok(Seq::empty()),
            },
            MatchPat::OkBind(n) => match r {
                Ty::Result(ok, _) => Ok(seq![(n@, *ok)]),
                _ => Ok(Seq::empty()),
            },
            MatchPat::ErrBind(n) => match r {
                Ty::Result(_, err) => Ok(seq![(n@, *err)]),
                _ => Ok(Seq::empty()),
            },
            MatchPat::NoneCase | MatchPat::Wildcard => Ok(Seq::empty()),
            MatchPat::EnumVariant { enum_name, variant, binders } => match r {
                Ty::Named { name, args } => if name != enum_name@ {
                    Ok(Seq::empty())
                } else {
                    match variant_fields(td, enum_name@, args, variant@) {
                        Err(f) => Err(f),
                        Ok(fs) => Ok(Seq::new(
                            if binders@.len() <= fs.len() { binders@.len() } else { fs.len() },
                            |i: int| (binders@[i]@, fs[i]),
                        )),
                    }
                },
                _ => Ok(Seq::empty()),
            },
        },
    }
}

/// Types the names a `match` pattern binds against the scrutinee's type.
pub fn pattern_binders(pat: &MatchPat, scrutinee_ty: &Type, type_defs: &TypeDefs, aliases: &AliasMap) -> (r: Result<Vec<(String, Type)>, BinderError>)
    ensures
        match pattern_binder_types(*pat, scrutinee_ty@, *type_defs, aliases@) {
            Ok(bs) => r matches Ok(v) && binders_view(v@) == bs,
            Err(f) => r matches Err(e) && reports_fault(e, f, aliases@),
        },
{
    let resolved = match base_type(scrutinee_ty, aliases) {
        Ok(t) => t,
        Err(e) => return Err(BinderError::Typer(e)),
    };
    let mut out: Vec<(String, Type)> = Vec::new();
    match pat {
        MatchPat::SomeBind(n) => {
            if let Type::Option(inner) = &resolved {
                out.push((n.clone(), copy_type(inner)));
            }
        },
        MatchPat::OkBind(n) => {
            if let Type::Result(ok, _) = &resolved {
                out.push((n.clone(), copy_type(ok)));
            }
        },
        MatchPat::ErrBind(n) => {
            if let Type::Result(_, err) = &resolved {
                out.push((n.clone(), copy_type(err)));
            }
        },
        MatchPat::NoneCase | MatchPat::Wildcard => {},
        MatchPat::EnumVariant { enum_name, variant, binders } => {
            if let Type::Named { name, args } = &resolved {
                if str_eq(name.as_str(), enum_name.as_str()) {
                    let fields = match enum_variant_fields(type_defs, enum_name.as_str(), args, variant.as_str()) {
                        Ok(f) => f,
                        Err(e) => {
                            proof {
                                assert(reports_fault(e, variant_fields(*type_defs, enum_name@, types_view(args@), variant@)->Err_0, aliases@));
                            }
                            return Err(e);
                        },
                    };
                    let n: usize = if binders.len() <= fields.len() { binders.len() } else { fields.len() };
                    let mut i: usize = 0;
                    while i < n
                        invariant
                            i <= n,
                            n <= binders@.len(),
                            n <= fields@.len(),
                            out@.len() == i,
                            forall|j: int| 0 <= j < i ==> (#[trigger] out@[j]).0@ == binders@[j]@ && out@[j].1@ == fields@[j]@,
                        decreases n - i,
                    {
                        out.push((binders[i].clone(), copy_type(&fields[i])));
                        i = i + 1;
                    }
                    proof {
                        let fs = types_view(fields@);
                        assert forall|j: int| 0 <= j < n implies #[trigger] fs[j] == fields@[j]@ by {}
                    }
                }
            }
        },
    }
    proof {
        match pattern_binder_types(*pat, scrutinee_ty@, *type_defs, aliases@) {
            Ok(bs) => {
                assert(binders_view(out@) =~= bs);
            },
            Err(_) => {},
        }
    }
    Ok(out)
}

} // verus!
