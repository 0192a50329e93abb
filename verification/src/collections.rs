use vstd::prelude::*;
use crate::display::show;
use crate::errors::{at_span, TyperError};
use crate::names::NameSet;
use crate::ty::{copy_type, type_view, types_view, Span, Ty, Type};

verus! {

/// Whether a resource type occurs in `t`; names in `tp` are type parameters,
/// which hide whatever they are applied to.
pub open spec fn has_resource(t: Ty, res: Set<Seq<char>>, tp: Set<Seq<char>>) -> bool
    decreases t, 1nat,
{
    match t {
        Ty::Named { name, args } => !tp.contains(name) && (res.contains(name) || any_has_resource(args, res, tp)),
        Ty::Option(inner) => has_resource(*inner, res, tp),
        Ty::List(inner) => has_resource(*inner, res, tp),
        Ty::SetOf(inner) => has_resource(*inner, res, tp),
        Ty::Slice(inner) => has_resource(*inner, res, tp),
        Ty::Result(ok, err) => has_resource(*ok, res, tp) || has_resource(*err, res, tp),
        Ty::MapOf(k, v) => has_resource(*k, res, tp) || has_resource(*v, res, tp),
        Ty::Array(inner, _) => has_resource(*inner, res, tp),
        Ty::Tuple(elems) => any_has_resource(elems, res, tp),
        _ => false,
    }
}

pub open spec fn any_has_resource(s: Seq<Ty>, res: Set<Seq<char>>, tp: Set<Seq<char>>) -> bool
    decreases s, 0nat,
{
    s.len() > 0 && (has_resource(s[0], res, tp) || any_has_resource(s.drop_first(), res, tp))
}

fn any_contains_resource(v: &Vec<Type>, res: &NameSet, tp: &NameSet) -> (r: bool)
    ensures
        r == any_has_resource(types_view(v@), res@, tp@),
    decreases v, 0nat,
{
    let ghost tv = types_view(v@);
    let mut i: usize = 0;
    assert(tv.subrange(0, tv.len() as int) =~= tv);
    while i < v.len()
        invariant
            i <= v@.len(),
            tv == types_view(v@),
            any_has_resource(tv, res@, tp@) == any_has_resource(tv.subrange(i as int, tv.len() as int), res@, tp@),
        decreases v.len() - i,
    {
        assert(decreases_to!(v => v@[i as int]));
        let ghost rest = tv.subrange(i as int, tv.len() as int);
        assert(rest.drop_first() =~= tv.subrange(i as int + 1, tv.len() as int));
        assert(rest[0] == v@[i as int]@);
        if contains_resource(&v[i], res, tp) {
            return true;
        }
        i = i + 1;
    }
    false
}

/// Whether a resource type occurs in `ty`.
pub fn contains_resource(ty: &Type, res: &NameSet, tp: &NameSet) -> (r: bool)
    ensures
        r == has_resource(ty@, res@, tp@),
    decreases ty, 1nat,
{
    match ty {
        Type::Named { name, args } => {
            if tp.contains(name.as_str()) {
                return false;
            }
            res.contains(name.as_str()) || any_contains_resource(args, res, tp)
        },
        Type::Option(inner) | Type::List(inner) | Type::SetOf(inner) | Type::Slice(inner) => contains_resource(inner, res, tp),
        Type::Result(ok, err) | Type::MapOf(ok, err) => contains_resource(ok, res, tp) || contains_resource(err, res, tp),
        Type::Array(inner, _) => contains_resource(inner, res, tp),
        Type::Tuple(elems) => any_contains_resource(elems, res, tp),
        _ => false,
    }
}

/// The same check, under the name the function checks use.
pub fn contains_named_resource(ty: &Type, res: &NameSet, tp: &NameSet) -> (r: bool)
    ensures
        r == has_resource(ty@, res@, tp@),
{
    contains_resource(ty, res, tp)
}

/// The first list, set or map holding a resource, looking through options,
/// results, slices, arrays and tuples.
pub open spec fn resource_collection(t: Ty, res: Set<Seq<char>>, tp: Set<Seq<char>>) -> Option<Ty>
    decreases t, 1nat,
{
    match t {
        Ty::List(inner) => if has_resource(*inner, res, tp) { Some(t) } else { None },
        Ty::SetOf(inner) => if has_resource(*inner, res, tp) { Some(t) } else { None },
        Ty::MapOf(k, v) => if has_resource(*k, res, tp) || has_resource(*v, res, tp) { Some(t) } else { None },
        Ty::Option(inner) => resource_collection(*inner, res, tp),
        Ty::Slice(inner) => resource_collection(*inner, res, tp),
        Ty::Result(ok, err) => match resource_collection(*ok, res, tp) {
            Some(x) => Some(x),
            None => resource_collection(*err, res, tp),
        },
        Ty::Array(inner, _) => resource_collection(*inner, res, tp),
        Ty::Tuple(elems) => first_resource_collection(elems, res, tp),
        _ => None,
    }
}

pub open spec fn first_resource_collection(s: Seq<Ty>, res: Set<Seq<char>>, tp: Set<Seq<char>>) -> Option<Ty>
    decreases s, 0nat,
{
    if s.len() == 0 {
        None
    } else {
        match resource_collection(s[0], res, tp) {
            Some(x) => Some(x),
            None => first_resource_collection(s.drop_first(), res, tp),
        }
    }
}

fn first_in_list(v: &Vec<Type>, res: &NameSet, tp: &NameSet) -> (r: Option<Type>)
    ensures
        match r {
            Some(t) => first_resource_collection(types_view(v@), res@, tp@) == Some(t@),
            None => first_resource_collection(types_view(v@), res@, tp@) is None,
        },
    decreases v, 0nat,
{
    let ghost tv = types_view(v@);
    let mut i: usize = 0;
    assert(tv.subrange(0, tv.len() as int) =~= tv);
    while i < v.len()
        invariant
            i <= v@.len(),
            tv == types_view(v@),
            first_resource_collection(tv, res@, tp@) == first_resource_collection(tv.subrange(i as int, tv.len() as int), res@, tp@),
        decreases v.len() - i,
    {
        assert(decreases_to!(v => v@[i as int]));
        let ghost rest = tv.subrange(i as int, tv.len() as int);
        assert(rest.drop_first() =~= tv.subrange(i as int + 1, tv.len() as int));
        assert(rest[0] == v@[i as int]@);
        if let Some(found) = find_resource_collection(&v[i], res, tp) {
            return Some(found);
        }
        i = i + 1;
    }
    None
}

pub fn find_resource_collection(ty: &Type, res: &NameSet, tp: &NameSet) -> (r: Option<Type>)
    ensures
        match r {
            Some(t) => resource_collection(ty@, res@, tp@) == Some(t@),
            None => resource_collection(ty@, res@, tp@) is None,
        },
    decreases ty, 1nat,
{
    match ty {
        Type::List(inner) | Type::SetOf(inner) => {
            if contains_resource(inner, res, tp) {
                Some(copy_type(ty))
            } else {
                None
            }
        },
        Type::MapOf(k, v) => {
            if contains_resource(k, res, tp) || contains_resource(v, res, tp) {
                Some(copy_type(ty))
            } else {
                None
            }
        },
        Type::Option(inner) | Type::Slice(inner) => find_resource_collection(inner, res, tp),
        Type::Result(ok, err) => match find_resource_collection(ok, res, tp) {
            Some(x) => Some(x),
            None => find_resource_collection(err, res, tp),
        },
        Type::Array(inner, _) => find_resource_collection(inner, res, tp),
        Type::Tuple(elems) => first_in_list(elems, res, tp),
        _ => None,
    }
}

/// The first way `t` stores resources that is not supported: a set of
/// resources, a map keyed by resources, an array, slice or tuple holding
/// resources, or such a form inside a list or map value. Lists of resources
/// and maps to resources are allowed.
pub open spec fn unsupported_collection(t: Ty, res: Set<Seq<char>>, tp: Set<Seq<char>>) -> Option<Ty>
    decreases t,
{
    match t {
        Ty::List(inner) => if !has_resource(*inner, res, tp) { None } else { unsupported_collection(*inner, res, tp) },
        Ty::MapOf(k, v) => if has_resource(*k, res, tp) {
            Some(t)
        } else if !has_resource(*v, res, tp) {
            None
        } else {
            unsupported_collection(*v, res, tp)
        },
        Ty::SetOf(inner) => if has_resource(*inner, res, tp) { Some(t) } else { None },
        Ty::Array(inner, _) => if has_resource(*inner, res, tp) { Some(t) } else { None },
        Ty::Slice(inner) => if has_resource(*inner, res, tp) { Some(t) } else { None },
        Ty::Tuple(elems) => if any_has_resource(elems, res, tp) { Some(t) } else { None },
        Ty::Option(inner) => unsupported_collection(*inner, res, tp),
        Ty::Result(ok, err) => match unsupported_collection(*ok, res, tp) {
            Some(x) => Some(x),
            None => unsupported_collection(*err, res, tp),
        },
        _ => None,
    }
}

pub fn find_unsupported_resource_collection(ty: &Type, res: &NameSet, tp: &NameSet) -> (r: Option<Type>)
    ensures
        match r {
            Some(t) => unsupported_collection(ty@, res@, tp@) == Some(t@),
            None => unsupported_collection(ty@, res@, tp@) is None,
        },
    decreases ty,
{
    match ty {
        Type::List(inner) => {
            if !contains_resource(inner, res, tp) {
                None
            } else {
                find_unsupported_resource_collection(inner, res, tp)
            }
        },
        Type::MapOf(k, v) => {
            if contains_resource(k, res, tp) {
                Some(copy_type(ty))
            } else if !contains_resource(v, res, tp) {
                None
            } else {
                find_unsupported_resource_collection(v, res, tp)
            }
        },
        Type::SetOf(inner) | Type::Slice(inner) | Type::Array(inner, _) => {
            if contains_resource(inner, res, tp) {
                Some(copy_type(ty))
            } else {
                None
            }
        },
        Type::Tuple(elems) => {
            if any_contains_resource(elems, res, tp) {
                Some(copy_type(ty))
            } else {
                None
            }
        },
        Type::Option(inner) => find_unsupported_resource_collection(inner, res, tp),
        Type::Result(ok, err) => match find_unsupported_resource_collection(ok, res, tp) {
            Some(x) => Some(x),
            None => find_unsupported_resource_collection(err, res, tp),
        },
        _ => None,
    }
}

/// The diagnostic for a resource stored in `found`.
pub open spec fn collection_error(e: TyperError, found: Ty, span: Option<Span>) -> bool {
    &&& e.code@ == "T806"@
    &&& e.message@ == (match span {
        Some(sp) => at_span(sp),
        None => Seq::<char>::empty(),
    }) + "resources cannot be stored inside collections or tuples yet; found `"@ + show(found) + "`"@
    &&& e.start == (match span {
        Some(sp) => sp.start,
        None => 0,
    })
    &&& e.end == (match span {
        Some(sp) => sp.end,
        None => 0,
    })
}

fn collection_diagnostic(found: Type, span: Option<Span>) -> (e: TyperError)
    ensures
        collection_error(e, found@, span),
{
    let ghost fv = found@;
    let e = TyperError::resource_in_collection(found, span);
    match span {
        Some(sp) => assert(e.message@ =~= at_span(sp) + "resources cannot be stored inside collections or tuples yet; found `"@ + show(fv) + "`"@),
        None => assert(e.message@ =~= Seq::<char>::empty() + "resources cannot be stored inside collections or tuples yet; found `"@ + show(fv) + "`"@),
    }
    e
}

/// Refuses a type that keeps resources in a list, set or map.
pub fn ensure_no_resource_collections(ty: &Type, span: Option<Span>, res: &NameSet, tp: &NameSet) -> (r: Result<(), TyperError>)
    ensures
        match resource_collection(ty@, res@, tp@) {
            None => r is Ok,
            Some(found) => r matches Err(e) && collection_error(e, found, span),
        },
{
    if let Some(offending) = find_resource_collection(ty, res, tp) {
        return Err(collection_diagnostic(offending, span));
    }
    Ok(())
}

/// Refuses a type that stores resources in a way not supported yet.
pub fn ensure_no_unsupported_resource_collections(ty: &Type, span: Option<Span>, res: &NameSet, tp: &NameSet) -> (r: Result<(), TyperError>)
    ensures
        match unsupported_collection(ty@, res@, tp@) {
            None => r is Ok,
            Some(found) => r matches Err(e) && collection_error(e, found, span),
        },
{
    if let Some(offending) = find_unsupported_resource_collection(ty, res, tp) {
        return Err(collection_diagnostic(offending, span));
    }
    Ok(())
}

/// The first type parameter of `tp` that `t` applies to arguments.
pub open spec fn param_with_args(t: Ty, tp: Set<Seq<char>>) -> Option<Seq<char>>
    decreases t, 1nat,
{
    match t {
        Ty::Named { name, args } => if tp.contains(name) {
            if args.len() > 0 { Some(name) } else { None }
        } else {
            first_param_with_args(args, tp)
        },
        Ty::Option(inner) => param_with_args(*inner, tp),
        Ty::List(inner) => param_with_args(*inner, tp),
        Ty::SetOf(inner) => param_with_args(*inner, tp),
        Ty::Slice(inner) => param_with_args(*inner, tp),
        Ty::Array(inner, _) => param_with_args(*inner, tp),
        Ty::Tuple(elems) => first_param_with_args(elems, tp),
        Ty::Result(ok, err) => match param_with_args(*ok, tp) {
            Some(x) => Some(x),
            None => param_with_args(*err, tp),
        },
        Ty::MapOf(k, v) => match param_with_args(*k, tp) {
            Some(x) => Some(x),
            None => param_with_args(*v, tp),
        },
        _ => None,
    }
}

pub open spec fn first_param_with_args(s: Seq<Ty>, tp: Set<Seq<char>>) -> Option<Seq<char>>
    decreases s, 0nat,
{
    if s.len() == 0 {
        None
    } else {
        match param_with_args(s[0], tp) {
            Some(x) => Some(x),
            None => first_param_with_args(s.drop_first(), tp),
        }
    }
}

/// A type parameter applied to type arguments.
#[derive(Debug)]
pub struct TypeParamWithArgs {
    pub name: String,
    pub span: Option<Span>,
}

fn supported_list(v: &Vec<Type>, span: Option<Span>, tp: &NameSet) -> (r: Result<(), TypeParamWithArgs>)
    ensures
        match first_param_with_args(types_view(v@), tp@) {
            None => r is Ok,
            Some(n) => r matches Err(f) && f.name@ == n && f.span == span,
        },
    decreases v, 0nat,
{
    let ghost tv = types_view(v@);
    let mut i: usize = 0;
    assert(tv.subrange(0, tv.len() as int) =~= tv);
    while i < v.len()
        invariant
            i <= v@.len(),
            tv == types_view(v@),
            first_param_with_args(tv, tp@) == first_param_with_args(tv.subrange(i as int, tv.len() as int), tp@),
        decreases v.len() - i,
    {
        assert(decreases_to!(v => v@[i as int]));
        let ghost rest = tv.subrange(i as int, tv.len() as int);
        assert(rest.drop_first() =~= tv.subrange(i as int + 1, tv.len() as int));
        assert(rest[0] == v@[i as int]@);
        ensure_supported_type(&v[i], span, tp)?;
        i = i + 1;
    }
    Ok(())
}

/// Type parameters are used bare: `T<Int>` is refused.
pub fn ensure_supported_type(ty: &Type, span: Option<Span>, tp: &NameSet) -> (r: Result<(), TypeParamWithArgs>)
    ensures
        match param_with_args(ty@, tp@) {
            None => r is Ok,
            Some(n) => r matches Err(f) && f.name@ == n && f.span == span,
        },
    decreases ty, 1nat,
{
    match ty {
        Type::Named { name, args } => {
            if tp.contains(name.as_str()) {
                assert(types_view(args@).len() == args@.len());
                if args.len() > 0 {
                    return Err(TypeParamWithArgs { name: name.clone(), span });
                }
                return Ok(());
            }
            supported_list(args, span, tp)
        },
        Type::Option(inner) | Type::List(inner) | Type::SetOf(inner) | Type::Slice(inner) | Type::Array(inner, _) => {
            ensure_supported_type(inner, span, tp)
        },
        Type::Tuple(elems) => supported_list(elems, span, tp),
        Type::Result(ok, err) | Type::MapOf(ok, err) => {
            ensure_supported_type(ok, span, tp)?;
            ensure_supported_type(err, span, tp)
        },
        _ => Ok(()),
    }
}

/// Whether values of `t` can be kept in contract state: anything but a
/// function type, looking through every type argument and component.
pub open spec fn persistable(t: Ty) -> bool
    decreases t, 1nat,
{
    match t {
        Ty::Fn { .. } => false,
        Ty::Option(inner) => persistable(*inner),
        Ty::List(inner) => persistable(*inner),
        Ty::SetOf(inner) => persistable(*inner),
        Ty::Slice(inner) => persistable(*inner),
        Ty::Array(inner, _) => persistable(*inner),
        Ty::Result(ok, err) => persistable(*ok) && persistable(*err),
        Ty::MapOf(k, v) => persistable(*k) && persistable(*v),
        Ty::Tuple(elems) => all_persistable(elems),
        Ty::Named { args, .. } => all_persistable(args),
        _ => true,
    }
}

pub open spec fn all_persistable(s: Seq<Ty>) -> bool
    decreases s, 0nat,
{
    if s.len() == 0 {
        true
    } else {
        persistable(s[0]) && all_persistable(s.drop_first())
    }
}

fn all_persistable_exec(v: &Vec<Type>) -> (r: bool)
    ensures
        r == all_persistable(types_view(v@)),
    decreases v, 0nat,
{
    let ghost tv = types_view(v@);
    let mut i: usize = 0;
    assert(tv.subrange(0, tv.len() as int) =~= tv);
    while i < v.len()
        invariant
            i <= v@.len(),
            tv == types_view(v@),
            all_persistable(tv) == all_persistable(tv.subrange(i as int, tv.len() as int)),
        decreases v.len() - i,
    {
        assert(decreases_to!(v => v@[i as int]));
        let ghost rest = tv.subrange(i as int, tv.len() as int);
        assert(rest.drop_first() =~= tv.subrange(i as int + 1, tv.len() as int));
        assert(rest[0] == v@[i as int]@);
        if !is_persistable_state_type(&v[i]) {
            return false;
        }
        i = i + 1;
    }
    true
}

/// Whether values of `ty` can be kept in contract state (see `persistable`).
pub fn is_persistable_state_type(ty: &Type) -> (r: bool)
    ensures
        r == persistable(ty@),
    decreases ty, 1nat,
{
    match ty {
        Type::Fn { .. } => false,
        Type::Option(inner) | Type::List(inner) | Type::SetOf(inner) | Type::Slice(inner) => is_persistable_state_type(inner),
        Type::Array(inner, _) => is_persistable_state_type(inner),
        Type::Result(ok, err) | Type::MapOf(ok, err) => is_persistable_state_type(ok) && is_persistable_state_type(err),
        Type::Tuple(elems) => all_persistable_exec(elems),
        Type::Named { args, .. } => all_persistable_exec(args),
        _ => true,
    }
}

} // verus!
