use vstd::prelude::*;
use crate::ast::{EnumDecl, EnumVariant, Func, Program, RefinedAliasDecl, ResourceDecl, StructDecl, StructField, TraitDecl};
use crate::collections::{collection_error, contains_named_resource, ensure_no_resource_collections, ensure_supported_type, has_resource, param_with_args, resource_collection};
use crate::env::{ImplDecl, TraitEnv, TraitMethod, TypeDefs, TypeParam};
use crate::equatable::{ensure_equatable_collection_keys, non_equatable_key, CollectionKeyError};
use crate::errors::TyperError;
use crate::generics::{first_bad_param, param_names, taken_name, type_param_fault_is, validate_type_params, TypeParamFault};
use crate::names::NameSet;
use crate::literals::{expr_span, span_of};
use crate::ty::{copy_type, Param, Span, Ty, Type};
use crate::type_resolve::{base_of, base_type, is_cyclic_alias_error, AliasMap, AliasV};

verus! {

/// Which property of the declared types is being checked.
#[derive(Clone, Copy, Debug, PartialEq, Eq, Structural)]
pub enum DeclCheck {
    /// No list or set holds a resource (see `resource_collection`).
    ResourceCollections,
    /// Every set element and map key type is comparable (see `non_equatable_key`).
    EquatableKeys,
    /// Type parameters are used bare (see `param_with_args`).
    SupportedTypes,
}

/// Why a declaration was refused.
pub enum CheckFault {
    /// The declaration's type parameters are refused.
    Params(Seq<TypeParam>),
    /// A list or set of resources was found.
    ResourceCollection(Ty, Option<Span>),
    /// A set element or map key type that cannot be compared was found.
    NonEquatable(Ty, Option<Span>),
    /// Alias expansion ran into a cycle through this alias.
    AliasCycle(Seq<char>),
    /// A type parameter was given arguments.
    ParamWithArgs(Seq<char>, Option<Span>),
    /// A field of a plain (non-resource) struct or enum holds a resource:
    /// the declaration's kind and name, and the span.
    ResourceField(Seq<char>, Seq<char>, Span),
}

/// Why the declarations were refused.
#[derive(Debug)]
pub enum DeclCheckError {
    TypeParam(TypeParamFault),
    Typer(TyperError),
    NonEquatableKey { offending: Type, span: Option<Span> },
    TypeParamWithArgs { name: String, span: Option<Span> },
    ResourceField { kind: String, name: String, span: Span },
}

/// The type parameters of a declaration are accepted.
pub open spec fn params_valid(ps: Seq<TypeParam>, td: TypeDefs, al: AliasMap, te: TraitEnv) -> bool {
    forall|j: int| 0 <= j < ps.len() ==> !param_names(ps.subrange(0, j)).contains(#[trigger] ps[j].name@)
        && !taken_name(ps[j].name@, td, al, te)
}

/// The fault that checking `ty` (at `span`, with type parameters `tp`) finds.
pub open spec fn type_fault(check: DeclCheck, ty: Ty, span: Option<Span>, tp: Set<Seq<char>>, res: Set<Seq<char>>, td: TypeDefs, al: Map<Seq<char>, AliasV>) -> Option<CheckFault> {
    match check {
        DeclCheck::ResourceCollections => match resource_collection(ty, res, tp) {
            Some(found) => Some(CheckFault::ResourceCollection(found, span)),
            None => None,
        },
        DeclCheck::EquatableKeys => match non_equatable_key(ty, td, al, tp, Set::empty(), Set::empty()) {
            Err(x) => Some(CheckFault::AliasCycle(x)),
            Ok(Some(k)) => Some(CheckFault::NonEquatable(k, span)),
            Ok(None) => None,
        },
        DeclCheck::SupportedTypes => match param_with_args(ty, tp) {
            Some(n) => Some(CheckFault::ParamWithArgs(n, span)),
            None => None,
        },
    }
}

/// The first fault among struct fields, each at its own span.
pub open spec fn fields_fault(check: DeclCheck, fs: Seq<StructField>, tp: Set<Seq<char>>, res: Set<Seq<char>>, td: TypeDefs, al: Map<Seq<char>, AliasV>) -> Option<CheckFault>
    decreases fs.len(),
{
    if fs.len() == 0 {
        None
    } else {
        match type_fault(check, fs[0].ty@, Some(fs[0].span), tp, res, td, al) {
            Some(f) => Some(f),
            None => fields_fault(check, fs.drop_first(), tp, res, td, al),
        }
    }
}

/// The first fault among types that share a span.
pub open spec fn types_fault(check: DeclCheck, ts: Seq<Type>, span: Option<Span>, tp: Set<Seq<char>>, res: Set<Seq<char>>, td: TypeDefs, al: Map<Seq<char>, AliasV>) -> Option<CheckFault>
    decreases ts.len(),
{
    if ts.len() == 0 {
        None
    } else {
        match type_fault(check, ts[0]@, span, tp, res, td, al) {
            Some(f) => Some(f),
            None => types_fault(check, ts.drop_first(), span, tp, res, td, al),
        }
    }
}

/// The types of function parameters.
pub open spec fn param_types(ps: Seq<Param>) -> Seq<Type> {
    ps.map_values(|p: Param| p.ty)
}

/// The first fault among enum variants, each field at its variant's span.
pub open spec fn variants_fault(check: DeclCheck, vs: Seq<EnumVariant>, tp: Set<Seq<char>>, res: Set<Seq<char>>, td: TypeDefs, al: Map<Seq<char>, AliasV>) -> Option<CheckFault>
    decreases vs.len(),
{
    if vs.len() == 0 {
        None
    } else {
        match types_fault(check, vs[0].fields@, Some(vs[0].span), tp, res, td, al) {
            Some(f) => Some(f),
            None => variants_fault(check, vs.drop_first(), tp, res, td, al),
        }
    }
}

pub open spec fn resources_fault(check: DeclCheck, rs: Seq<ResourceDecl>, res: Set<Seq<char>>, td: TypeDefs, al: Map<Seq<char>, AliasV>) -> Option<CheckFault>
    decreases rs.len(),
{
    if rs.len() == 0 {
        None
    } else {
        match fields_fault(check, rs[0].fields@, Set::empty(), res, td, al) {
            Some(f) => Some(f),
            None => resources_fault(check, rs.drop_first(), res, td, al),
        }
    }
}

pub open spec fn aliases_fault(check: DeclCheck, als: Seq<RefinedAliasDecl>, res: Set<Seq<char>>, td: TypeDefs, al: Map<Seq<char>, AliasV>) -> Option<CheckFault>
    decreases als.len(),
{
    if als.len() == 0 {
        None
    } else {
        match type_fault(check, als[0].base@, Some(als[0].span), Set::empty(), res, td, al) {
            Some(f) => Some(f),
            None => aliases_fault(check, als.drop_first(), res, td, al),
        }
    }
}

pub open spec fn structs_fault(check: DeclCheck, ss: Seq<StructDecl>, res: Set<Seq<char>>, td: TypeDefs, al: AliasMap, te: TraitEnv) -> Option<CheckFault>
    decreases ss.len(),
{
    if ss.len() == 0 {
        None
    } else if !params_valid(ss[0].type_params@, td, al, te) {
        Some(CheckFault::Params(ss[0].type_params@))
    } else {
        match fields_fault(check, ss[0].fields@, param_names(ss[0].type_params@), res, td, al@) {
            Some(f) => Some(f),
            None => structs_fault(check, ss.drop_first(), res, td, al, te),
        }
    }
}

pub open spec fn enums_fault(check: DeclCheck, es: Seq<EnumDecl>, res: Set<Seq<char>>, td: TypeDefs, al: AliasMap, te: TraitEnv) -> Option<CheckFault>
    decreases es.len(),
{
    if es.len() == 0 {
        None
    } else if !params_valid(es[0].type_params@, td, al, te) {
        Some(CheckFault::Params(es[0].type_params@))
    } else {
        match variants_fault(check, es[0].variants@, param_names(es[0].type_params@), res, td, al@) {
            Some(f) => Some(f),
            None => enums_fault(check, es.drop_first(), res, td, al, te),
        }
    }
}

pub open spec fn funcs_fault(check: DeclCheck, fs: Seq<Func>, res: Set<Seq<char>>, td: TypeDefs, al: AliasMap, te: TraitEnv) -> Option<CheckFault>
    decreases fs.len(),
{
    if fs.len() == 0 {
        None
    } else if !params_valid(fs[0].type_params@, td, al, te) {
        Some(CheckFault::Params(fs[0].type_params@))
    } else {
        let tp = param_names(fs[0].type_params@);
        match type_fault(check, fs[0].ret@, None, tp, res, td, al@) {
            Some(f) => Some(f),
            None => match types_fault(check, param_types(fs[0].params@), None, tp, res, td, al@) {
                Some(f) => Some(f),
                None => funcs_fault(check, fs.drop_first(), res, td, al, te),
            },
        }
    }
}

/// The fault of a trait method's signature, `Self` being a type parameter.
#[verifier::opaque]
pub open spec fn trait_method_fault(check: DeclCheck, m: TraitMethod, res: Set<Seq<char>>, td: TypeDefs, al: Map<Seq<char>, AliasV>) -> Option<CheckFault> {
    let tp = set!["Self"@];
    first_of(type_fault(check, m.ret@, Some(m.span), tp, res, td, al),
        types_fault(check, param_types(m.params@), Some(m.span), tp, res, td, al))
}

/// The first fault of traits' method signatures.
pub open spec fn trait_methods_fault(check: DeclCheck, ms: Seq<TraitMethod>, res: Set<Seq<char>>, td: TypeDefs, al: Map<Seq<char>, AliasV>) -> Option<CheckFault>
    decreases ms.len(),
{
    if ms.len() == 0 {
        None
    } else {
        first_of(trait_method_fault(check, ms[0], res, td, al), trait_methods_fault(check, ms.drop_first(), res, td, al))
    }
}

pub open spec fn traits_fault(check: DeclCheck, ts: Seq<TraitDecl>, res: Set<Seq<char>>, td: TypeDefs, al: Map<Seq<char>, AliasV>) -> Option<CheckFault>
    decreases ts.len(),
{
    if ts.len() == 0 {
        None
    } else {
        first_of(trait_methods_fault(check, ts[0].methods@, res, td, al), traits_fault(check, ts.drop_first(), res, td, al))
    }
}

/// The fault of an impl method's signature, at its body's span.
#[verifier::opaque]
pub open spec fn impl_method_fault(check: DeclCheck, m: Func, tp: Set<Seq<char>>, res: Set<Seq<char>>, td: TypeDefs, al: Map<Seq<char>, AliasV>) -> Option<CheckFault> {
    let sp = Some(span_of(m.body));
    first_of(type_fault(check, m.ret@, sp, tp, res, td, al), types_fault(check, param_types(m.params@), sp, tp, res, td, al))
}

/// The first fault of impl methods' signatures.
pub open spec fn impl_methods_fault(check: DeclCheck, ms: Seq<Func>, tp: Set<Seq<char>>, res: Set<Seq<char>>, td: TypeDefs, al: Map<Seq<char>, AliasV>) -> Option<CheckFault>
    decreases ms.len(),
{
    if ms.len() == 0 {
        None
    } else {
        first_of(impl_method_fault(check, ms[0], tp, res, td, al), impl_methods_fault(check, ms.drop_first(), tp, res, td, al))
    }
}

pub open spec fn impls_fault(check: DeclCheck, is: Seq<ImplDecl>, res: Set<Seq<char>>, td: TypeDefs, al: AliasMap, te: TraitEnv) -> Option<CheckFault>
    decreases is.len(),
{
    if is.len() == 0 {
        None
    } else if !params_valid(is[0].type_params@, td, al, te) {
        Some(CheckFault::Params(is[0].type_params@))
    } else {
        let tp = param_names(is[0].type_params@).insert("Self"@);
        first_of(type_fault(check, is[0].for_type@, Some(is[0].span), tp, res, td, al@),
            first_of(impl_methods_fault(check, is[0].methods@, tp, res, td, al@), impls_fault(check, is.drop_first(), res, td, al, te)))
    }
}

/// The first of two faults.
pub open spec fn first_of(a: Option<CheckFault>, b: Option<CheckFault>) -> Option<CheckFault> {
    match a {
        Some(f) => Some(f),
        None => b,
    }
}

/// The first fault of the program's declarations, in the order each check
/// walks them: resources, (for equatable keys) refined aliases, structs,
/// enums, (for supported types) refined aliases, functions, and (for
/// supported types) traits and impls.
pub open spec fn program_fault(check: DeclCheck, p: Program, res: Set<Seq<char>>, td: TypeDefs, al: AliasMap, te: TraitEnv) -> Option<CheckFault> {
    let rs = resources_fault(check, p.resources@, res, td, al@);
    let als = aliases_fault(check, p.refined_aliases@, res, td, al@);
    let ss = structs_fault(check, p.structs@, res, td, al, te);
    let es = enums_fault(check, p.enums@, res, td, al, te);
    let fs = funcs_fault(check, p.funcs@, res, td, al, te);
    match check {
        DeclCheck::ResourceCollections => first_of(rs, first_of(ss, first_of(es, fs))),
        DeclCheck::EquatableKeys => first_of(rs, first_of(als, first_of(ss, first_of(es, fs)))),
        DeclCheck::SupportedTypes => first_of(rs, first_of(ss, first_of(es, first_of(als, first_of(fs,
            first_of(traits_fault(check, p.traits@, res, td, al@), impls_fault(check, p.impls@, res, td, al, te))))))),
    }
}

/// `e` reports the fault `f` found in a type.
pub open spec fn reports_type_fault(e: DeclCheckError, f: CheckFault, al: AliasMap) -> bool {
    match f {
        CheckFault::ResourceCollection(found, span) => e matches DeclCheckError::Typer(t) && collection_error(t, found, span),
        CheckFault::NonEquatable(k, span) => e matches DeclCheckError::NonEquatableKey { offending, span: s } && offending@ == k && s == span,
        CheckFault::AliasCycle(x) => e matches DeclCheckError::Typer(t) && al@.contains_key(x) && is_cyclic_alias_error(t, x, al@[x].span),
        CheckFault::ParamWithArgs(n, span) => e matches DeclCheckError::TypeParamWithArgs { name, span: s } && name@ == n && s == span,
        CheckFault::ResourceField(k, n, sp) => e matches DeclCheckError::ResourceField { kind, name, span } && kind@ == k
            && name@ == n && span == sp,
        CheckFault::Params(_) => false,
    }
}

/// `e` reports the fault `f`.
pub open spec fn reports_check_fault(e: DeclCheckError, f: CheckFault, td: TypeDefs, al: AliasMap, te: TraitEnv) -> bool {
    match f {
        CheckFault::Params(ps) => e matches DeclCheckError::TypeParam(pf) && type_param_fault_is(pf, ps, td, al, te),
        _ => reports_type_fault(e, f, al),
    }
}

/// The outcome of a check matches the fault specified.
pub open spec fn outcome_is(r: Result<(), DeclCheckError>, f: Option<CheckFault>, td: TypeDefs, al: AliasMap, te: TraitEnv) -> bool {
    match f {
        None => r is Ok,
        Some(fault) => r matches Err(e) && reports_check_fault(e, fault, td, al, te),
    }
}

fn check_type(check: DeclCheck, ty: &Type, span: Option<Span>, tp: &NameSet, res: &NameSet, td: &TypeDefs, al: &AliasMap) -> (r: Result<(), DeclCheckError>)
    ensures
        match type_fault(check, ty@, span, tp@, res@, *td, al@) {
            None => r is Ok,
            Some(f) => r matches Err(e) && reports_type_fault(e, f, *al),
        },
{
    match check {
        DeclCheck::ResourceCollections => match ensure_no_resource_collections(ty, span, res, tp) {
            Ok(()) => Ok(()),
            Err(e) => Err(DeclCheckError::Typer(e)),
        },
        DeclCheck::EquatableKeys => match ensure_equatable_collection_keys(ty, span, td, al, tp) {
            Ok(()) => Ok(()),
            Err(CollectionKeyError::Typer(e)) => Err(DeclCheckError::Typer(e)),
            Err(CollectionKeyError::NonEquatableKey { offending, span }) => Err(DeclCheckError::NonEquatableKey { offending, span }),
        },
        DeclCheck::SupportedTypes => match ensure_supported_type(ty, span, tp) {
            Ok(()) => Ok(()),
            Err(f) => Err(DeclCheckError::TypeParamWithArgs { name: f.name, span: f.span }),
        },
    }
}

fn check_fields(check: DeclCheck, fs: &Vec<StructField>, tp: &NameSet, res: &NameSet, td: &TypeDefs, al: &AliasMap) -> (r: Result<(), DeclCheckError>)
    ensures
        match fields_fault(check, fs@, tp@, res@, *td, al@) {
            None => r is Ok,
            Some(f) => r matches Err(e) && reports_type_fault(e, f, *al),
        },
{
    let mut i: usize = 0;
    assert(fs@.subrange(0, fs@.len() as int) =~= fs@);
    while i < fs.len()
        invariant
            i <= fs@.len(),
            fields_fault(check, fs@, tp@, res@, *td, al@) == fields_fault(check, fs@.subrange(i as int, fs@.len() as int), tp@, res@, *td, al@),
        decreases fs.len() - i,
    {
        let ghost rest = fs@.subrange(i as int, fs@.len() as int);
        assert(rest.drop_first() =~= fs@.subrange(i as int + 1, fs@.len() as int));
        check_type(check, &fs[i].ty, Some(fs[i].span), tp, res, td, al)?;
        i = i + 1;
    }
    Ok(())
}

fn check_types(check: DeclCheck, ts: &Vec<Type>, span: Option<Span>, tp: &NameSet, res: &NameSet, td: &TypeDefs, al: &AliasMap) -> (r: Result<(), DeclCheckError>)
    ensures
        match types_fault(check, ts@, span, tp@, res@, *td, al@) {
            None => r is Ok,
            Some(f) => r matches Err(e) && reports_type_fault(e, f, *al),
        },
{
    let mut i: usize = 0;
    assert(ts@.subrange(0, ts@.len() as int) =~= ts@);
    while i < ts.len()
        invariant
            i <= ts@.len(),
            types_fault(check, ts@, span, tp@, res@, *td, al@) == types_fault(check, ts@.subrange(i as int, ts@.len() as int), span, tp@, res@, *td, al@),
        decreases ts.len() - i,
    {
        let ghost rest = ts@.subrange(i as int, ts@.len() as int);
        assert(rest.drop_first() =~= ts@.subrange(i as int + 1, ts@.len() as int));
        check_type(check, &ts[i], span, tp, res, td, al)?;
        i = i + 1;
    }
    Ok(())
}

fn check_param_types(check: DeclCheck, ps: &Vec<Param>, span: Option<Span>, tp: &NameSet, res: &NameSet, td: &TypeDefs, al: &AliasMap) -> (r: Result<(), DeclCheckError>)
    ensures
        match types_fault(check, param_types(ps@), span, tp@, res@, *td, al@) {
            None => r is Ok,
            Some(f) => r matches Err(e) && reports_type_fault(e, f, *al),
        },
{
    let ghost ts = param_types(ps@);
    let mut i: usize = 0;
    assert(ts.subrange(0, ts.len() as int) =~= ts);
    while i < ps.len()
        invariant
            i <= ps@.len(),
            ts == param_types(ps@),
            types_fault(check, ts, span, tp@, res@, *td, al@) == types_fault(check, ts.subrange(i as int, ts.len() as int), span, tp@, res@, *td, al@),
        decreases ps.len() - i,
    {
        let ghost rest = ts.subrange(i as int, ts.len() as int);
        assert(rest.drop_first() =~= ts.subrange(i as int + 1, ts.len() as int));
        assert(rest[0] == ps@[i as int].ty);
        check_type(check, &ps[i].ty, span, tp, res, td, al)?;
        i = i + 1;
    }
    Ok(())
}

fn check_params(ps: &Vec<TypeParam>, td: &TypeDefs, al: &AliasMap, te: &TraitEnv) -> (r: Result<NameSet, DeclCheckError>)
    ensures
        match r {
            Ok(tp) => params_valid(ps@, *td, *al, *te) && tp@ == param_names(ps@),
            Err(e) => !params_valid(ps@, *td, *al, *te) && reports_check_fault(e, CheckFault::Params(ps@), *td, *al, *te),
        },
{
    match validate_type_params(ps, td, al, te) {
        Ok(tp) => {
            proof {
                assert forall|j: int| 0 <= j < ps@.len() implies !param_names(ps@.subrange(0, j)).contains(#[trigger] ps@[j].name@)
                    && !taken_name(ps@[j].name@, *td, *al, *te) by {
                    assert(!param_names(ps@.subrange(0, j)).contains(ps@[j].name@));
                }
            }
            Ok(tp)
        },
        Err(f) => {
            proof {
                let i = choose|i: int| #[trigger] first_bad_param(ps@, *td, *al, *te, i);
                assert(!(!param_names(ps@.subrange(0, i)).contains(ps@[i].name@) && !taken_name(ps@[i].name@, *td, *al, *te)));
            }
            let e = DeclCheckError::TypeParam(f);
            assert(reports_check_fault(e, CheckFault::Params(ps@), *td, *al, *te));
            Err(e)
        },
    }
}

fn check_resources(check: DeclCheck, rs: &Vec<ResourceDecl>, res: &NameSet, td: &TypeDefs, al: &AliasMap) -> (r: Result<(), DeclCheckError>)
    ensures
        match resources_fault(check, rs@, res@, *td, al@) {
            None => r is Ok,
            Some(f) => r matches Err(e) && reports_type_fault(e, f, *al),
        },
{
    let empty = NameSet::new();
    let mut i: usize = 0;
    assert(rs@.subrange(0, rs@.len() as int) =~= rs@);
    while i < rs.len()
        invariant
            i <= rs@.len(),
            empty@ == Set::<Seq<char>>::empty(),
            resources_fault(check, rs@, res@, *td, al@) == resources_fault(check, rs@.subrange(i as int, rs@.len() as int), res@, *td, al@),
        decreases rs.len() - i,
    {
        let ghost rest = rs@.subrange(i as int, rs@.len() as int);
        assert(rest.drop_first() =~= rs@.subrange(i as int + 1, rs@.len() as int));
        check_fields(check, &rs[i].fields, &empty, res, td, al)?;
        i = i + 1;
    }
    Ok(())
}

fn check_aliases(check: DeclCheck, als: &Vec<RefinedAliasDecl>, res: &NameSet, td: &TypeDefs, al: &AliasMap) -> (r: Result<(), DeclCheckError>)
    ensures
        match aliases_fault(check, als@, res@, *td, al@) {
            None => r is Ok,
            Some(f) => r matches Err(e) && reports_type_fault(e, f, *al),
        },
{
    let empty = NameSet::new();
    let mut i: usize = 0;
    assert(als@.subrange(0, als@.len() as int) =~= als@);
    while i < als.len()
        invariant
            i <= als@.len(),
            empty@ == Set::<Seq<char>>::empty(),
            aliases_fault(check, als@, res@, *td, al@) == aliases_fault(check, als@.subrange(i as int, als@.len() as int), res@, *td, al@),
        decreases als.len() - i,
    {
        let ghost rest = als@.subrange(i as int, als@.len() as int);
        assert(rest.drop_first() =~= als@.subrange(i as int + 1, als@.len() as int));
        check_type(check, &als[i].base, Some(als[i].span), &empty, res, td, al)?;
        i = i + 1;
    }
    Ok(())
}

fn check_structs(check: DeclCheck, ss: &Vec<StructDecl>, res: &NameSet, td: &TypeDefs, al: &AliasMap, te: &TraitEnv) -> (r: Result<(), DeclCheckError>)
    ensures
        outcome_is(r, structs_fault(check, ss@, res@, *td, *al, *te), *td, *al, *te),
{
    let mut i: usize = 0;
    assert(ss@.subrange(0, ss@.len() as int) =~= ss@);
    while i < ss.len()
        invariant
            i <= ss@.len(),
            structs_fault(check, ss@, res@, *td, *al, *te) == structs_fault(check, ss@.subrange(i as int, ss@.len() as int), res@, *td, *al, *te),
        decreases ss.len() - i,
    {
        let ghost rest = ss@.subrange(i as int, ss@.len() as int);
        assert(rest.drop_first() =~= ss@.subrange(i as int + 1, ss@.len() as int));
        let tp = check_params(&ss[i].type_params, td, al, te)?;
        check_fields(check, &ss[i].fields, &tp, res, td, al)?;
        i = i + 1;
    }
    Ok(())
}

fn check_variants(check: DeclCheck, vs: &Vec<EnumVariant>, tp: &NameSet, res: &NameSet, td: &TypeDefs, al: &AliasMap) -> (r: Result<(), DeclCheckError>)
    ensures
        match variants_fault(check, vs@, tp@, res@, *td, al@) {
            None => r is Ok,
            Some(f) => r matches Err(e) && reports_type_fault(e, f, *al),
        },
{
    let mut i: usize = 0;
    assert(vs@.subrange(0, vs@.len() as int) =~= vs@);
    while i < vs.len()
        invariant
            i <= vs@.len(),
            variants_fault(check, vs@, tp@, res@, *td, al@) == variants_fault(check, vs@.subrange(i as int, vs@.len() as int), tp@, res@, *td, al@),
        decreases vs.len() - i,
    {
        let ghost rest = vs@.subrange(i as int, vs@.len() as int);
        assert(rest.drop_first() =~= vs@.subrange(i as int + 1, vs@.len() as int));
        check_types(check, &vs[i].fields, Some(vs[i].span), tp, res, td, al)?;
        i = i + 1;
    }
    Ok(())
}

fn check_enums(check: DeclCheck, es: &Vec<EnumDecl>, res: &NameSet, td: &TypeDefs, al: &AliasMap, te: &TraitEnv) -> (r: Result<(), DeclCheckError>)
    ensures
        outcome_is(r, enums_fault(check, es@, res@, *td, *al, *te), *td, *al, *te),
{
    let mut i: usize = 0;
    assert(es@.subrange(0, es@.len() as int) =~= es@);
    while i < es.len()
        invariant
            i <= es@.len(),
            enums_fault(check, es@, res@, *td, *al, *te) == enums_fault(check, es@.subrange(i as int, es@.len() as int), res@, *td, *al, *te),
        decreases es.len() - i,
    {
        let ghost rest = es@.subrange(i as int, es@.len() as int);
        assert(rest.drop_first() =~= es@.subrange(i as int + 1, es@.len() as int));
        let tp = check_params(&es[i].type_params, td, al, te)?;
        check_variants(check, &es[i].variants, &tp, res, td, al)?;
        i = i + 1;
    }
    Ok(())
}

fn check_funcs(check: DeclCheck, fs: &Vec<Func>, res: &NameSet, td: &TypeDefs, al: &AliasMap, te: &TraitEnv) -> (r: Result<(), DeclCheckError>)
    ensures
        outcome_is(r, funcs_fault(check, fs@, res@, *td, *al, *te), *td, *al, *te),
{
    let mut i: usize = 0;
    assert(fs@.subrange(0, fs@.len() as int) =~= fs@);
    while i < fs.len()
        invariant
            i <= fs@.len(),
            funcs_fault(check, fs@, res@, *td, *al, *te) == funcs_fault(check, fs@.subrange(i as int, fs@.len() as int), res@, *td, *al, *te),
        decreases fs.len() - i,
    {
        let ghost rest = fs@.subrange(i as int, fs@.len() as int);
        assert(rest.drop_first() =~= fs@.subrange(i as int + 1, fs@.len() as int));
        let tp = check_params(&fs[i].type_params, td, al, te)?;
        check_type(check, &fs[i].ret, None, &tp, res, td, al)?;
        check_param_types(check, &fs[i].params, None, &tp, res, td, al)?;
        i = i + 1;
    }
    Ok(())
}

fn check_trait_method(check: DeclCheck, m: &TraitMethod, self_params: &NameSet, res: &NameSet, td: &TypeDefs, al: &AliasMap) -> (r: Result<(), DeclCheckError>)
    requires
        self_params@ == set!["Self"@],
    ensures
        match trait_method_fault(check, *m, res@, *td, al@) {
            None => r is Ok,
            Some(f) => r matches Err(e) && reports_type_fault(e, f, *al),
        },
{
    proof {
        reveal(trait_method_fault);
    }
    check_type(check, &m.ret, Some(m.span), self_params, res, td, al)?;
    check_param_types(check, &m.params, Some(m.span), self_params, res, td, al)
}

fn check_trait_methods(check: DeclCheck, ms: &Vec<TraitMethod>, res: &NameSet, td: &TypeDefs, al: &AliasMap) -> (r: Result<(), DeclCheckError>)
    ensures
        match trait_methods_fault(check, ms@, res@, *td, al@) {
            None => r is Ok,
            Some(f) => r matches Err(e) && reports_type_fault(e, f, *al),
        },
{
    let mut self_params = NameSet::new();
    self_params.insert("Self".to_string());
    assert(self_params@ =~= set!["Self"@]);
    let mut i: usize = 0;
    assert(ms@.subrange(0, ms@.len() as int) =~= ms@);
    while i < ms.len()
        invariant
            i <= ms@.len(),
            self_params@ == set!["Self"@],
            trait_methods_fault(check, ms@, res@, *td, al@) == trait_methods_fault(check, ms@.subrange(i as int, ms@.len() as int), res@, *td, al@),
        decreases ms.len() - i,
    {
        let ghost rest = ms@.subrange(i as int, ms@.len() as int);
        assert(rest.drop_first() =~= ms@.subrange(i as int + 1, ms@.len() as int));
        assert(rest[0] == ms@[i as int]);
        check_trait_method(check, &ms[i], &self_params, res, td, al)?;
        i = i + 1;
    }
    Ok(())
}

fn check_traits(check: DeclCheck, ts: &Vec<TraitDecl>, res: &NameSet, td: &TypeDefs, al: &AliasMap) -> (r: Result<(), DeclCheckError>)
    ensures
        match traits_fault(check, ts@, res@, *td, al@) {
            None => r is Ok,
            Some(f) => r matches Err(e) && reports_type_fault(e, f, *al),
        },
{
    let mut i: usize = 0;
    assert(ts@.subrange(0, ts@.len() as int) =~= ts@);
    while i < ts.len()
        invariant
            i <= ts@.len(),
            traits_fault(check, ts@, res@, *td, al@) == traits_fault(check, ts@.subrange(i as int, ts@.len() as int), res@, *td, al@),
        decreases ts.len() - i,
    {
        let ghost rest = ts@.subrange(i as int, ts@.len() as int);
        assert(rest.drop_first() =~= ts@.subrange(i as int + 1, ts@.len() as int));
        check_trait_methods(check, &ts[i].methods, res, td, al)?;
        i = i + 1;
    }
    Ok(())
}

fn check_impl_method(check: DeclCheck, m: &Func, tp: &NameSet, res: &NameSet, td: &TypeDefs, al: &AliasMap) -> (r: Result<(), DeclCheckError>)
    ensures
        match impl_method_fault(check, *m, tp@, res@, *td, al@) {
            None => r is Ok,
            Some(f) => r matches Err(e) && reports_type_fault(e, f, *al),
        },
{
    proof {
        reveal(impl_method_fault);
    }
    let sp = Some(expr_span(&m.body));
    check_type(check, &m.ret, sp, tp, res, td, al)?;
    check_param_types(check, &m.params, sp, tp, res, td, al)
}

fn check_impl_methods(check: DeclCheck, ms: &Vec<Func>, tp: &NameSet, res: &NameSet, td: &TypeDefs, al: &AliasMap) -> (r: Result<(), DeclCheckError>)
    ensures
        match impl_methods_fault(check, ms@, tp@, res@, *td, al@) {
            None => r is Ok,
            Some(f) => r matches Err(e) && reports_type_fault(e, f, *al),
        },
{
    let mut i: usize = 0;
    assert(ms@.subrange(0, ms@.len() as int) =~= ms@);
    while i < ms.len()
        invariant
            i <= ms@.len(),
            impl_methods_fault(check, ms@, tp@, res@, *td, al@) == impl_methods_fault(check, ms@.subrange(i as int, ms@.len() as int), tp@, res@, *td, al@),
        decreases ms.len() - i,
    {
        let ghost rest = ms@.subrange(i as int, ms@.len() as int);
        assert(rest.drop_first() =~= ms@.subrange(i as int + 1, ms@.len() as int));
        assert(rest[0] == ms@[i as int]);
        check_impl_method(check, &ms[i], tp, res, td, al)?;
        i = i + 1;
    }
    Ok(())
}

fn check_impls(check: DeclCheck, is: &Vec<ImplDecl>, res: &NameSet, td: &TypeDefs, al: &AliasMap, te: &TraitEnv) -> (r: Result<(), DeclCheckError>)
    ensures
        outcome_is(r, impls_fault(check, is@, res@, *td, *al, *te), *td, *al, *te),
{
    let mut i: usize = 0;
    assert(is@.subrange(0, is@.len() as int) =~= is@);
    while i < is.len()
        invariant
            i <= is@.len(),
            impls_fault(check, is@, res@, *td, *al, *te) == impls_fault(check, is@.subrange(i as int, is@.len() as int), res@, *td, *al, *te),
        decreases is.len() - i,
    {
        let ghost rest = is@.subrange(i as int, is@.len() as int);
        assert(rest.drop_first() =~= is@.subrange(i as int + 1, is@.len() as int));
        let mut tp = check_params(&is[i].type_params, td, al, te)?;
        tp.insert("Self".to_string());
        check_type(check, &is[i].for_type, Some(is[i].span), &tp, res, td, al)?;
        check_impl_methods(check, &is[i].methods, &tp, res, td, al)?;
        i = i + 1;
    }
    Ok(())
}

fn check_program(check: DeclCheck, program: &Program, res: &NameSet, td: &TypeDefs, al: &AliasMap, te: &TraitEnv) -> (r: Result<(), DeclCheckError>)
    ensures
        outcome_is(r, program_fault(check, *program, res@, *td, *al, *te), *td, *al, *te),
{
    check_resources(check, &program.resources, res, td, al)?;
    if check == DeclCheck::EquatableKeys {
        check_aliases(check, &program.refined_aliases, res, td, al)?;
    }
    check_structs(check, &program.structs, res, td, al, te)?;
    check_enums(check, &program.enums, res, td, al, te)?;
    if check == DeclCheck::SupportedTypes {
        check_aliases(check, &program.refined_aliases, res, td, al)?;
    }
    check_funcs(check, &program.funcs, res, td, al, te)?;
    if check == DeclCheck::SupportedTypes {
        check_traits(check, &program.traits, res, td, al)?;
        check_impls(check, &program.impls, res, td, al, te)?;
    }
    Ok(())
}

/// Refuses declarations in which a list or set holds a resource: resource
/// fields, then struct fields, enum variant fields and function signatures
/// (after checking each declaration's type parameters), stopping at the
/// first problem.
pub fn validate_no_resource_collections(program: &Program, resource_names: &NameSet, aliases: &AliasMap, type_defs: &TypeDefs, trait_env: &TraitEnv) -> (r: Result<(), DeclCheckError>)
    ensures
        outcome_is(r, program_fault(DeclCheck::ResourceCollections, *program, resource_names@, *type_defs, *aliases, *trait_env),
            *type_defs, *aliases, *trait_env),
{
    check_program(DeclCheck::ResourceCollections, program, resource_names, type_defs, aliases, trait_env)
}

/// Refuses declarations that give a type parameter arguments: resource
/// fields, struct fields, enum variant fields, refined alias bases, function
/// signatures, trait method signatures (`Self` counting as a parameter) and
/// impls (their type and method signatures), after checking each generic
/// declaration's type parameters, stopping at the first problem.
pub fn validate_supported_types(program: &Program, aliases: &AliasMap, type_defs: &TypeDefs, trait_env: &TraitEnv) -> (r: Result<(), DeclCheckError>)
    ensures
        outcome_is(r, program_fault(DeclCheck::SupportedTypes, *program, type_defs.resources@, *type_defs, *aliases, *trait_env),
            *type_defs, *aliases, *trait_env),
{
    check_program(DeclCheck::SupportedTypes, program, &type_defs.resources, type_defs, aliases, trait_env)
}

/// Refuses declarations in which a set element or map key type cannot be
/// compared for equality: resource fields, refined alias bases, then struct
/// fields, enum variant fields and function signatures (after checking each
/// declaration's type parameters), stopping at the first problem.
pub fn validate_equatable_collections(program: &Program, aliases: &AliasMap, type_defs: &TypeDefs, trait_env: &TraitEnv) -> (r: Result<(), DeclCheckError>)
    ensures
        outcome_is(r, program_fault(DeclCheck::EquatableKeys, *program, type_defs.resources@, *type_defs, *aliases, *trait_env),
            *type_defs, *aliases, *trait_env),
{
    check_program(DeclCheck::EquatableKeys, program, &type_defs.resources, type_defs, aliases, trait_env)
}

/// The first field type of a plain declaration that, once aliases are
/// expanded, holds a resource.
pub open spec fn resource_field_fault(ts: Seq<(Ty, Span)>, kind: Seq<char>, name: Seq<char>, tp: Set<Seq<char>>, res: Set<Seq<char>>, al: Map<Seq<char>, AliasV>) -> Option<CheckFault>
    decreases ts.len(),
{
    if ts.len() == 0 {
        None
    } else {
        match base_of(ts[0].0, al) {
            Err(x) => Some(CheckFault::AliasCycle(x)),
            Ok(b) => if has_resource(b, res, tp) {
                Some(CheckFault::ResourceField(kind, name, ts[0].1))
            } else {
                resource_field_fault(ts.drop_first(), kind, name, tp, res, al)
            },
        }
    }
}

/// A struct's field types, each with its span.
pub open spec fn struct_field_list(fs: Seq<StructField>) -> Seq<(Ty, Span)> {
    fs.map_values(|f: StructField| (f.ty@, f.span))
}

/// The models of typed spans.
pub open spec fn pairs_view(v: Seq<(Type, Span)>) -> Seq<(Ty, Span)> {
    v.map_values(|p: (Type, Span)| (p.0@, p.1))
}

/// An enum's field types, variant by variant, each with its variant's span.
pub open spec fn variant_field_list(vs: Seq<EnumVariant>) -> Seq<(Ty, Span)>
    decreases vs.len(),
{
    if vs.len() == 0 {
        Seq::empty()
    } else {
        vs[0].fields@.map_values(|t: Type| (t@, vs[0].span)) + variant_field_list(vs.drop_first())
    }
}

pub open spec fn resource_structs_fault(ss: Seq<StructDecl>, res: Set<Seq<char>>, td: TypeDefs, al: AliasMap, te: TraitEnv) -> Option<CheckFault>
    decreases ss.len(),
{
    if ss.len() == 0 {
        None
    } else if !params_valid(ss[0].type_params@, td, al, te) {
        Some(CheckFault::Params(ss[0].type_params@))
    } else if ss[0].is_resource {
        resource_structs_fault(ss.drop_first(), res, td, al, te)
    } else {
        first_of(resource_field_fault(struct_field_list(ss[0].fields@), "struct"@, ss[0].name@, param_names(ss[0].type_params@), res, al@),
            resource_structs_fault(ss.drop_first(), res, td, al, te))
    }
}

pub open spec fn resource_enums_fault(es: Seq<EnumDecl>, res: Set<Seq<char>>, td: TypeDefs, al: AliasMap, te: TraitEnv) -> Option<CheckFault>
    decreases es.len(),
{
    if es.len() == 0 {
        None
    } else if !params_valid(es[0].type_params@, td, al, te) {
        Some(CheckFault::Params(es[0].type_params@))
    } else if es[0].is_resource {
        resource_enums_fault(es.drop_first(), res, td, al, te)
    } else {
        first_of(resource_field_fault(variant_field_list(es[0].variants@), "enum"@, es[0].name@, param_names(es[0].type_params@), res, al@),
            resource_enums_fault(es.drop_first(), res, td, al, te))
    }
}

fn check_resource_fields(fs: &Vec<(Type, Span)>, kind: &str, name: &str, tp: &NameSet, res: &NameSet, al: &AliasMap) -> (r: Result<(), DeclCheckError>)
    ensures
        match resource_field_fault(pairs_view(fs@), kind@, name@, tp@, res@, al@) {
            None => r is Ok,
            Some(f) => r matches Err(e) && reports_type_fault(e, f, *al),
        },
{
    let ghost pv = pairs_view(fs@);
    let mut i: usize = 0;
    assert(pv.subrange(0, pv.len() as int) =~= pv);
    while i < fs.len()
        invariant
            i <= fs@.len(),
            pv == pairs_view(fs@),
            resource_field_fault(pv, kind@, name@, tp@, res@, al@) == resource_field_fault(pv.subrange(i as int, pv.len() as int), kind@, name@, tp@, res@, al@),
        decreases fs.len() - i,
    {
        let ghost rest = pv.subrange(i as int, pv.len() as int);
        assert(rest.drop_first() =~= pv.subrange(i as int + 1, pv.len() as int));
        assert(rest[0] == (fs@[i as int].0@, fs@[i as int].1));
        let resolved = match base_type(&fs[i].0, al) {
            Ok(t) => t,
            Err(e) => return Err(DeclCheckError::Typer(e)),
        };
        if contains_named_resource(&resolved, res, tp) {
            return Err(DeclCheckError::ResourceField { kind: kind.to_string(), name: name.to_string(), span: fs[i].1 });
        }
        i = i + 1;
    }
    Ok(())
}

fn struct_fields_of(fs: &Vec<StructField>) -> (r: Vec<(Type, Span)>)
    ensures
        pairs_view(r@) == struct_field_list(fs@),
{
    let mut out: Vec<(Type, Span)> = Vec::new();
    let mut i: usize = 0;
    while i < fs.len()
        invariant
            i <= fs@.len(),
            out@.len() == i,
            forall|j: int| 0 <= j < i ==> (#[trigger] out@[j]).0@ == fs@[j].ty@ && out@[j].1 == fs@[j].span,
        decreases fs.len() - i,
    {
        out.push((copy_type(&fs[i].ty), fs[i].span));
        i = i + 1;
    }
    assert(pairs_view(out@) =~= struct_field_list(fs@));
    out
}

fn variant_fields_of(vs: &Vec<EnumVariant>) -> (r: Vec<(Type, Span)>)
    ensures
        pairs_view(r@) == variant_field_list(vs@),
{
    let mut out: Vec<(Type, Span)> = Vec::new();
    let mut v: usize = vs.len();
    assert(variant_field_list(vs@.subrange(vs@.len() as int, vs@.len() as int)) =~= Seq::<(Ty, Span)>::empty());
    assert(pairs_view(out@) =~= Seq::<(Ty, Span)>::empty());
    while v > 0
        invariant
            v <= vs@.len(),
            pairs_view(out@) == variant_field_list(vs@.subrange(v as int, vs@.len() as int)),
        decreases v,
    {
        v = v - 1;
        let ghost tail = variant_field_list(vs@.subrange(v as int + 1, vs@.len() as int));
        let ghost here = vs@[v as int].fields@.map_values(|t: Type| (t@, vs@[v as int].span));
        proof {
            assert(vs@.subrange(v as int, vs@.len() as int).drop_first() =~= vs@.subrange(v as int + 1, vs@.len() as int));
            assert(vs@.subrange(v as int, vs@.len() as int)[0] == vs@[v as int]);
            assert(variant_field_list(vs@.subrange(v as int, vs@.len() as int)) == here + tail);
        }
        let fields = &vs[v].fields;
        let mut block: Vec<(Type, Span)> = Vec::new();
        let mut k: usize = 0;
        while k < fields.len()
            invariant
                k <= fields@.len(),
                v < vs@.len(),
                fields@ == vs@[v as int].fields@,
                block@.len() == k,
                forall|j: int| 0 <= j < k ==> (#[trigger] block@[j]).0@ == fields@[j]@ && block@[j].1 == vs@[v as int].span,
            decreases fields.len() - k,
        {
            block.push((copy_type(&fields[k]), vs[v].span));
            k = k + 1;
        }
        let ghost old_out = out@;
        block.append(&mut out);
        out = block;
        proof {
            assert(pairs_view(out@) =~= here + tail) by {
                assert forall|j: int| 0 <= j < out@.len() implies #[trigger] pairs_view(out@)[j] == (here + tail)[j] by {
                    if j >= here.len() {
                        assert(out@[j] == old_out[j - here.len()]);
                        assert(pairs_view(old_out)[j - here.len()] == tail[j - here.len()]);
                    }
                }
            }
        }
    }
    assert(vs@.subrange(0, vs@.len() as int) =~= vs@);
    out
}

fn check_resource_structs(ss: &Vec<StructDecl>, aliases: &AliasMap, type_defs: &TypeDefs, trait_env: &TraitEnv) -> (r: Result<(), DeclCheckError>)
    ensures
        outcome_is(r, resource_structs_fault(ss@, type_defs.resources@, *type_defs, *aliases, *trait_env), *type_defs, *aliases, *trait_env),
{
    let res = &type_defs.resources;
    let mut i: usize = 0;
    assert(ss@.subrange(0, ss@.len() as int) =~= ss@);
    while i < ss.len()
        invariant
            i <= ss@.len(),
            res@ == type_defs.resources@,
            resource_structs_fault(ss@, res@, *type_defs, *aliases, *trait_env)
                == resource_structs_fault(ss@.subrange(i as int, ss@.len() as int), res@, *type_defs, *aliases, *trait_env),
        decreases ss.len() - i,
    {
        let ghost rest = ss@.subrange(i as int, ss@.len() as int);
        assert(rest.drop_first() =~= ss@.subrange(i as int + 1, ss@.len() as int));
        assert(rest[0] == ss@[i as int]);
        let tp = check_params(&ss[i].type_params, type_defs, aliases, trait_env)?;
        if !ss[i].is_resource {
            let fields = struct_fields_of(&ss[i].fields);
            check_resource_fields(&fields, "struct", ss[i].name.as_str(), &tp, res, aliases)?;
        }
        i = i + 1;
    }
    Ok(())
}

fn check_resource_enums(es: &Vec<EnumDecl>, aliases: &AliasMap, type_defs: &TypeDefs, trait_env: &TraitEnv) -> (r: Result<(), DeclCheckError>)
    ensures
        outcome_is(r, resource_enums_fault(es@, type_defs.resources@, *type_defs, *aliases, *trait_env), *type_defs, *aliases, *trait_env),
{
    let res = &type_defs.resources;
    let mut i: usize = 0;
    assert(es@.subrange(0, es@.len() as int) =~= es@);
    while i < es.len()
        invariant
            i <= es@.len(),
            res@ == type_defs.resources@,
            resource_enums_fault(es@, res@, *type_defs, *aliases, *trait_env)
                == resource_enums_fault(es@.subrange(i as int, es@.len() as int), res@, *type_defs, *aliases, *trait_env),
        decreases es.len() - i,
    {
        let ghost rest = es@.subrange(i as int, es@.len() as int);
        assert(rest.drop_first() =~= es@.subrange(i as int + 1, es@.len() as int));
        assert(rest[0] == es@[i as int]);
        let tp = check_params(&es[i].type_params, type_defs, aliases, trait_env)?;
        if !es[i].is_resource {
            let fields = variant_fields_of(&es[i].variants);
            check_resource_fields(&fields, "enum", es[i].name.as_str(), &tp, res, aliases)?;
        }
        i = i + 1;
    }
    Ok(())
}

/// Refuses plain (non-resource) structs and enums with a field that holds a
/// resource once aliases are expanded: structs, then enums, in order, after
/// checking each declaration's type parameters, stopping at the first problem.
pub fn validate_struct_enum_resources(program: &Program, aliases: &AliasMap, type_defs: &TypeDefs, trait_env: &TraitEnv) -> (r: Result<(), DeclCheckError>)
    ensures
        outcome_is(r, first_of(resource_structs_fault(program.structs@, type_defs.resources@, *type_defs, *aliases, *trait_env),
            resource_enums_fault(program.enums@, type_defs.resources@, *type_defs, *aliases, *trait_env)), *type_defs, *aliases, *trait_env),
{
    check_resource_structs(&program.structs, aliases, type_defs, trait_env)?;
    check_resource_enums(&program.enums, aliases, type_defs, trait_env)
}

} // verus!
