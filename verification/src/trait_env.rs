use vstd::prelude::*;
use crate::ast::{copy_expr, copy_exprs, same_expr, same_exprs, Func, Program, TraitDecl};
use crate::coherence::{impls_clash, overlaps, validate_impl_coherence, OverlappingImpl};
use crate::env::{ImplDecl, ImplInfo, TraitBound, TraitEnv, TraitInfo, TraitMethod, TraitMethodV, TypeDefs, TypeParam};
use crate::generics::{builtin_names, param_names, type_param_fault_is, validate_bounds, validate_type_params, BoundFault, TypeParamFault};
use crate::env::{enum_names, struct_names};
use crate::known::{ensure_known_type, known_fault, known_list_fault, reports_known, KnownFault, KnownTypeError, StdTypeMap};
use crate::known_decls::{name_repeats, seen_upto, lemma_seen_empty, lemma_seen_step};
use crate::literals::{expr_span, span_of};
use crate::names::{NameMap, NameSet};
use crate::ty::{copy_type, params_view, Param, Span, Ty, Type};
use crate::trait_impls::{signatures_agree, validate_impl_method_signature, MethodSignatureMismatch};
use crate::type_resolve::{AliasMap, AliasV};

verus! {

/// The names and spans of declared type parameters.
pub open spec fn tparams_view(s: Seq<TypeParam>) -> Seq<(Seq<char>, Span)> {
    s.map_values(|p: TypeParam| (p.name@, p.span))
}

/// The parameters, traits and spans of `where` bounds.
pub open spec fn bounds_view(s: Seq<TraitBound>) -> Seq<(Seq<char>, Seq<char>, Span)> {
    s.map_values(|b: TraitBound| (b.param@, b.trait_name@, b.span))
}

/// `b` is a copy of the function `a` in everything the checks read: its
/// name, generics, signature, effect, contract clauses, body and spans.
pub open spec fn func_copied(b: Func, a: Func) -> bool {
    &&& b.name@ == a.name@
    &&& tparams_view(b.type_params@) == tparams_view(a.type_params@)
    &&& bounds_view(b.where_bounds@) == bounds_view(a.where_bounds@)
    &&& params_view(b.params@) == params_view(a.params@)
    &&& b.ret@ == a.ret@
    &&& b.effect == a.effect
    &&& b.effect_span == a.effect_span
    &&& same_exprs(a.requires@, b.requires@)
    &&& same_exprs(a.ensures@, b.ensures@)
    &&& same_expr(a.body, b.body)
    &&& span_of(b.body) == span_of(a.body)
    &&& b.span == a.span
}

/// `b` is a copy of the implementation `a` in everything the checks read.
pub open spec fn impl_copied(b: ImplDecl, a: ImplDecl) -> bool {
    &&& b.trait_name@ == a.trait_name@
    &&& b.trait_name_span == a.trait_name_span
    &&& tparams_view(b.type_params@) == tparams_view(a.type_params@)
    &&& b.for_type@ == a.for_type@
    &&& bounds_view(b.where_bounds@) == bounds_view(a.where_bounds@)
    &&& b.methods@.len() == a.methods@.len()
    &&& forall|k: int| 0 <= k < a.methods@.len() ==> func_copied(#[trigger] b.methods@[k], a.methods@[k])
    &&& b.span == a.span
}

fn copy_tparams(s: &Vec<TypeParam>) -> (r: Vec<TypeParam>)
    ensures
        tparams_view(r@) == tparams_view(s@),
{
    let mut out: Vec<TypeParam> = Vec::new();
    let mut i: usize = 0;
    while i < s.len()
        invariant
            i <= s@.len(),
            out@.len() == i,
            forall|j: int| 0 <= j < i ==> (#[trigger] out@[j]).name@ == s@[j].name@ && out@[j].span == s@[j].span,
        decreases s.len() - i,
    {
        out.push(TypeParam { name: s[i].name.clone(), span: s[i].span });
        i = i + 1;
    }
    assert(tparams_view(out@) =~= tparams_view(s@));
    out
}

fn copy_bounds(s: &Vec<TraitBound>) -> (r: Vec<TraitBound>)
    ensures
        bounds_view(r@) == bounds_view(s@),
{
    let mut out: Vec<TraitBound> = Vec::new();
    let mut i: usize = 0;
    while i < s.len()
        invariant
            i <= s@.len(),
            out@.len() == i,
            forall|j: int| 0 <= j < i ==> (#[trigger] out@[j]).param@ == s@[j].param@ && out@[j].trait_name@ == s@[j].trait_name@
                && out@[j].span == s@[j].span,
        decreases s.len() - i,
    {
        out.push(TraitBound { param: s[i].param.clone(), trait_name: s[i].trait_name.clone(), span: s[i].span });
        i = i + 1;
    }
    assert(bounds_view(out@) =~= bounds_view(s@));
    out
}

pub fn copy_params(s: &Vec<Param>) -> (r: Vec<Param>)
    ensures
        params_view(r@) == params_view(s@),
{
    let mut out: Vec<Param> = Vec::new();
    let mut i: usize = 0;
    while i < s.len()
        invariant
            i <= s@.len(),
            out@.len() == i,
            forall|j: int| 0 <= j < i ==> (#[trigger] out@[j])@ == s@[j]@,
        decreases s.len() - i,
    {
        out.push(s[i].clone());
        i = i + 1;
    }
    assert(params_view(out@) =~= params_view(s@));
    out
}

/// An independent copy of a function.
pub fn copy_func(f: &Func) -> (r: Func)
    ensures
        func_copied(r, *f),
{
    Func {
        name: f.name.clone(),
        type_params: copy_tparams(&f.type_params),
        where_bounds: copy_bounds(&f.where_bounds),
        params: copy_params(&f.params),
        ret: copy_type(&f.ret),
        effect: f.effect,
        effect_span: f.effect_span,
        requires: copy_exprs(&f.requires),
        ensures: copy_exprs(&f.ensures),
        body: copy_expr(&f.body),
        span: f.span,
    }
}

/// An independent copy of an implementation.
pub fn copy_impl(d: &ImplDecl) -> (r: ImplDecl)
    ensures
        impl_copied(r, *d),
{
    let mut methods: Vec<Func> = Vec::new();
    let mut i: usize = 0;
    while i < d.methods.len()
        invariant
            i <= d.methods@.len(),
            methods@.len() == i,
            forall|j: int| 0 <= j < i ==> func_copied(#[trigger] methods@[j], d.methods@[j]),
        decreases d.methods.len() - i,
    {
        methods.push(copy_func(&d.methods[i]));
        i = i + 1;
    }
    ImplDecl {
        trait_name: d.trait_name.clone(),
        trait_name_span: d.trait_name_span,
        type_params: copy_tparams(&d.type_params),
        for_type: copy_type(&d.for_type),
        where_bounds: copy_bounds(&d.where_bounds),
        methods,
        span: d.span,
    }
}

/// An independent copy of a trait method.
pub fn copy_trait_method(m: &TraitMethod) -> (r: TraitMethod)
    ensures
        r@ == m@,
        r.name@ == m.name@,
        params_view(r.params@) == params_view(m.params@),
        r.span == m.span,
{
    TraitMethod { name: m.name.clone(), params: copy_params(&m.params), ret: copy_type(&m.ret), effect: m.effect, span: m.span }
}

/// Why the traits and their implementations were refused.
pub enum TraitEnvFault {
    /// A trait repeats the name of an earlier one (at its name).
    DuplicateTrait(Seq<char>, Span),
    /// A trait declares type parameters.
    TraitTypeParams(Seq<char>, Span),
    /// A trait or an impl repeats a method name: the trait, the method, the span.
    DuplicateTraitMethod(Seq<char>, Seq<char>, Span),
    /// A type names something unknown or applies it wrongly, at this span.
    Known(KnownFault, Option<Span>),
    /// An impl names a trait that is not declared.
    UnknownTrait(Seq<char>, Span),
    /// An impl's type parameters are refused, the declared traits being these.
    Params(Seq<TypeParam>, Set<Seq<char>>),
    /// A `where` bound names an undeclared type parameter.
    UnknownBoundParam(Seq<char>, Span),
    /// A `where` bound names an undeclared trait.
    UnknownBoundTrait(Seq<char>, Span),
    /// An impl method declares its own generics: the method, its effect's span.
    MethodGenerics(Seq<char>, Span),
    /// An impl lacks a method of its trait: the trait, the method, the impl's span.
    MissingMethod(Seq<char>, Seq<char>, Span),
    /// An impl method's signature differs from the trait's: the trait, the
    /// method, the trait method's span.
    SignatureMismatch(Seq<char>, Seq<char>, Span),
    /// An impl has a method its trait does not declare: the trait, the method,
    /// the impl's span.
    ExtraMethod(Seq<char>, Seq<char>, Span),
}

/// The first of two faults.
pub open spec fn first_fault(a: Option<TraitEnvFault>, b: Option<TraitEnvFault>) -> Option<TraitEnvFault> {
    match a {
        Some(f) => Some(f),
        None => b,
    }
}

pub open spec fn known_at(f: Option<KnownFault>, span: Option<Span>) -> Option<TraitEnvFault> {
    match f {
        Some(k) => Some(TraitEnvFault::Known(k, span)),
        None => None,
    }
}

pub open spec fn method_names(ms: Seq<TraitMethod>) -> Seq<Seq<char>> {
    ms.map_values(|m: TraitMethod| m.name@)
}

pub open spec fn trait_names(ts: Seq<TraitDecl>) -> Seq<Seq<char>> {
    ts.map_values(|t: TraitDecl| t.name@)
}

pub open spec fn func_names(fs: Seq<Func>) -> Seq<Seq<char>> {
    fs.map_values(|f: Func| f.name@)
}

/// The types of parameters.
pub open spec fn param_tys(ps: Seq<Param>) -> Seq<Ty> {
    ps.map_values(|p: Param| p.ty@)
}

/// Trait method signatures may name `Self` as a type.
pub open spec fn self_only() -> Set<Seq<char>> {
    set!["Self"@]
}

/// The fault of the `k`-th method of a trait: a repeated name, then the
/// parameter types, then the result type.
pub open spec fn trait_method_fault(t: TraitDecl, k: int, al: Map<Seq<char>, AliasV>, td: TypeDefs, std: Set<Seq<char>>) -> Option<TraitEnvFault> {
    let m = t.methods@[k];
    if name_repeats(method_names(t.methods@), k) {
        Some(TraitEnvFault::DuplicateTraitMethod(t.name@, m.name@, m.span))
    } else {
        first_fault(known_at(known_list_fault(param_tys(m.params@), al, td, self_only(), std), Some(m.span)),
            known_at(known_fault(m.ret@, al, td, self_only(), std), Some(m.span)))
    }
}

pub open spec fn trait_methods_from(t: TraitDecl, k: int, al: Map<Seq<char>, AliasV>, td: TypeDefs, std: Set<Seq<char>>) -> Option<TraitEnvFault>
    decreases t.methods@.len() - k,
{
    if k < 0 || k >= t.methods@.len() {
        None
    } else {
        first_fault(trait_method_fault(t, k, al, td, std), trait_methods_from(t, k + 1, al, td, std))
    }
}

/// The fault of the `i`-th trait: a repeated name, type parameters, then its methods.
pub open spec fn trait_fault(ts: Seq<TraitDecl>, i: int, al: Map<Seq<char>, AliasV>, td: TypeDefs, std: Set<Seq<char>>) -> Option<TraitEnvFault> {
    if name_repeats(trait_names(ts), i) {
        Some(TraitEnvFault::DuplicateTrait(ts[i].name@, ts[i].name_span))
    } else if ts[i].type_params@.len() > 0 {
        Some(TraitEnvFault::TraitTypeParams(ts[i].name@, ts[i].span))
    } else {
        trait_methods_from(ts[i], 0, al, td, std)
    }
}

pub open spec fn traits_from(ts: Seq<TraitDecl>, i: int, al: Map<Seq<char>, AliasV>, td: TypeDefs, std: Set<Seq<char>>) -> Option<TraitEnvFault>
    decreases ts.len() - i,
{
    if i < 0 || i >= ts.len() {
        None
    } else {
        first_fault(trait_fault(ts, i, al, td, std), traits_from(ts, i + 1, al, td, std))
    }
}

/// The first `n` methods by name.
pub open spec fn methods_map(ms: Seq<TraitMethod>, n: nat) -> Map<Seq<char>, TraitMethodV>
    decreases n,
{
    if n == 0 {
        Map::empty()
    } else {
        methods_map(ms, (n - 1) as nat).insert(ms[n - 1].name@, ms[n - 1]@)
    }
}

/// The first `n` traits by name, each with its methods by name.
pub open spec fn traits_map(ts: Seq<TraitDecl>, n: nat) -> Map<Seq<char>, Map<Seq<char>, TraitMethodV>>
    decreases n,
{
    if n == 0 {
        Map::empty()
    } else {
        traits_map(ts, (n - 1) as nat).insert(ts[n - 1].name@, methods_map(ts[n - 1].methods@, ts[n - 1].methods@.len()))
    }
}

/// Why the traits and their implementations were refused.
#[derive(Debug)]
pub enum TraitEnvError {
    DuplicateTrait { name: String, span: Span },
    TraitTypeParams { name: String, span: Span },
    DuplicateTraitMethod { trait_name: String, method: String, span: Span },
    Known(KnownTypeError),
    UnknownTrait { name: String, span: Span },
    TypeParam(TypeParamFault),
    Bound(BoundFault),
    MethodGenerics { method: String, span: Span },
    MissingMethod { trait_name: String, method: String, span: Span },
    Signature(MethodSignatureMismatch),
    ExtraMethod { trait_name: String, method: String, span: Span },
    Overlap(OverlappingImpl),
}

/// `e` reports the fault `f`.
pub open spec fn reports_env_fault(e: TraitEnvError, f: TraitEnvFault, td: TypeDefs, al: AliasMap) -> bool {
    match f {
        TraitEnvFault::DuplicateTrait(n, s) => e matches TraitEnvError::DuplicateTrait { name, span } && name@ == n && span == s,
        TraitEnvFault::TraitTypeParams(n, s) => e matches TraitEnvError::TraitTypeParams { name, span } && name@ == n && span == s,
        TraitEnvFault::DuplicateTraitMethod(t, m, s) => e matches TraitEnvError::DuplicateTraitMethod { trait_name, method, span }
            && trait_name@ == t && method@ == m && span == s,
        TraitEnvFault::Known(k, s) => e matches TraitEnvError::Known(ke) && reports_known(ke, k, s),
        TraitEnvFault::UnknownTrait(n, s) => e matches TraitEnvError::UnknownTrait { name, span } && name@ == n && span == s,
        TraitEnvFault::Params(ps, traits) => e matches TraitEnvError::TypeParam(pf) && params_fault_is(pf, ps, td, al, traits),
        TraitEnvFault::UnknownBoundParam(n, s) => e matches TraitEnvError::Bound(BoundFault::UnknownTypeParam { name, span })
            && name@ == n && span == s,
        TraitEnvFault::UnknownBoundTrait(n, s) => e matches TraitEnvError::Bound(BoundFault::UnknownTrait { name, span })
            && name@ == n && span == s,
        TraitEnvFault::MethodGenerics(n, s) => e matches TraitEnvError::MethodGenerics { method, span } && method@ == n && span == s,
        TraitEnvFault::MissingMethod(t, m, s) => e matches TraitEnvError::MissingMethod { trait_name, method, span }
            && trait_name@ == t && method@ == m && span == s,
        TraitEnvFault::SignatureMismatch(t, m, s) => e matches TraitEnvError::Signature(mm) && mm.trait_name@ == t
            && mm.method@ == m && mm.span == s,
        TraitEnvFault::ExtraMethod(t, m, s) => e matches TraitEnvError::ExtraMethod { trait_name, method, span }
            && trait_name@ == t && method@ == m && span == s,
    }
}

fn check_known(ty: &Type, tp: &NameSet, al: &AliasMap, td: &TypeDefs, std: &StdTypeMap, span: Option<Span>) -> (r: Result<(), TraitEnvError>)
    ensures
        match known_at(known_fault(ty@, al@, *td, tp@, std@.dom()), span) {
            None => r is Ok,
            Some(f) => r matches Err(e) && reports_env_fault(e, f, *td, *al),
        },
{
    match ensure_known_type(ty, al, td, tp, std, span) {
        Ok(()) => Ok(()),
        Err(e) => Err(TraitEnvError::Known(e)),
    }
}

fn check_param_types(ps: &Vec<Param>, tp: &NameSet, al: &AliasMap, td: &TypeDefs, std: &StdTypeMap, span: Option<Span>) -> (r: Result<(), TraitEnvError>)
    ensures
        match known_at(known_list_fault(param_tys(ps@), al@, *td, tp@, std@.dom()), span) {
            None => r is Ok,
            Some(f) => r matches Err(e) && reports_env_fault(e, f, *td, *al),
        },
{
    let ghost ts = param_tys(ps@);
    let mut i: usize = 0;
    assert(ts.subrange(0, ts.len() as int) =~= ts);
    while i < ps.len()
        invariant
            i <= ps@.len(),
            ts == param_tys(ps@),
            known_list_fault(ts, al@, *td, tp@, std@.dom()) == known_list_fault(ts.subrange(i as int, ts.len() as int), al@, *td, tp@, std@.dom()),
        decreases ps.len() - i,
    {
        let ghost rest = ts.subrange(i as int, ts.len() as int);
        assert(rest.drop_first() =~= ts.subrange(i as int + 1, ts.len() as int));
        assert(rest[0] == ps@[i as int].ty@);
        check_known(&ps[i].ty, tp, al, td, std, span)?;
        i = i + 1;
    }
    Ok(())
}

fn check_trait(t: &TraitDecl, self_params: &NameSet, al: &AliasMap, td: &TypeDefs, std: &StdTypeMap) -> (r: Result<TraitInfo, TraitEnvError>)
    requires
        self_params@ == self_only(),
    ensures
        match trait_methods_from(*t, 0, al@, *td, std@.dom()) {
            None => r matches Ok(info) && info@ == methods_map(t.methods@, t.methods@.len()),
            Some(f) => r matches Err(e) && reports_env_fault(e, f, *td, *al),
        },
{
    let mut methods: NameMap<TraitMethod> = NameMap::new();
    let mut seen = NameSet::new();
    let ghost ns = method_names(t.methods@);
    proof {
        lemma_seen_empty(ns);
        assert(methods@ =~= methods_map(t.methods@, 0));
    }
    let mut k: usize = 0;
    while k < t.methods.len()
        invariant
            k <= t.methods@.len(),
            ns == method_names(t.methods@),
            self_params@ == self_only(),
            seen@ == seen_upto(ns, k as int),
            methods@ == methods_map(t.methods@, k as nat),
            trait_methods_from(*t, 0, al@, *td, std@.dom()) == trait_methods_from(*t, k as int, al@, *td, std@.dom()),
        decreases t.methods.len() - k,
    {
        let m = &t.methods[k];
        proof {
            lemma_seen_step(ns, k as int);
        }
        assert(ns[k as int] == m.name@);
        let fresh = seen.insert(m.name.clone());
        if !fresh {
            return Err(TraitEnvError::DuplicateTraitMethod { trait_name: t.name.clone(), method: m.name.clone(), span: m.span });
        }
        check_param_types(&m.params, self_params, al, td, std, Some(m.span))?;
        check_known(&m.ret, self_params, al, td, std, Some(m.span))?;
        methods.insert(m.name.clone(), copy_trait_method(m));
        k = k + 1;
    }
    Ok(TraitInfo { methods })
}

fn self_param_set() -> (r: NameSet)
    ensures
        r@ == self_only(),
{
    let mut s = NameSet::new();
    s.insert("Self".to_string());
    assert(s@ =~= self_only());
    s
}

fn build_traits(ts: &Vec<TraitDecl>, al: &AliasMap, td: &TypeDefs, std: &StdTypeMap) -> (r: Result<NameMap<TraitInfo>, TraitEnvError>)
    ensures
        match traits_from(ts@, 0, al@, *td, std@.dom()) {
            None => r matches Ok(m) && m@ == traits_map(ts@, ts@.len()),
            Some(f) => r matches Err(e) && reports_env_fault(e, f, *td, *al),
        },
{
    let self_params = self_param_set();
    let mut traits: NameMap<TraitInfo> = NameMap::new();
    let mut seen = NameSet::new();
    let ghost ns = trait_names(ts@);
    proof {
        lemma_seen_empty(ns);
        assert(traits@ =~= traits_map(ts@, 0));
    }
    let mut i: usize = 0;
    while i < ts.len()
        invariant
            i <= ts@.len(),
            ns == trait_names(ts@),
            self_params@ == self_only(),
            seen@ == seen_upto(ns, i as int),
            traits@ == traits_map(ts@, i as nat),
            traits_from(ts@, 0, al@, *td, std@.dom()) == traits_from(ts@, i as int, al@, *td, std@.dom()),
        decreases ts.len() - i,
    {
        let t = &ts[i];
        proof {
            lemma_seen_step(ns, i as int);
        }
        assert(ns[i as int] == t.name@);
        let fresh = seen.insert(t.name.clone());
        if !fresh {
            return Err(TraitEnvError::DuplicateTrait { name: t.name.clone(), span: t.name_span });
        }
        if t.type_params.len() > 0 {
            return Err(TraitEnvError::TraitTypeParams { name: t.name.clone(), span: t.span });
        }
        let info = check_trait(t, &self_params, al, td, std)?;
        traits.insert(t.name.clone(), info);
        i = i + 1;
    }
    Ok(traits)
}

/// A name that an impl's type parameter may not take, the declared traits
/// being `traits`.
pub open spec fn taken_by(k: Seq<char>, td: TypeDefs, al: AliasMap, traits: Set<Seq<char>>) -> bool {
    builtin_names().contains(k) || td.resources@.contains(k) || struct_names(td.structs@).contains(k)
        || enum_names(td.enums@).contains(k) || al@.contains_key(k) || traits.contains(k)
}

/// Each type parameter is new in the list and not a taken name.
pub open spec fn params_ok(ps: Seq<TypeParam>, td: TypeDefs, al: AliasMap, traits: Set<Seq<char>>) -> bool {
    forall|j: int| 0 <= j < ps.len() ==> !param_names(ps.subrange(0, j)).contains(#[trigger] ps[j].name@)
        && !taken_by(ps[j].name@, td, al, traits)
}

/// The `i`-th type parameter is the first that repeats an earlier one or
/// takes a taken name.
pub open spec fn bad_param_at(ps: Seq<TypeParam>, td: TypeDefs, al: AliasMap, traits: Set<Seq<char>>, i: int) -> bool {
    &&& 0 <= i < ps.len()
    &&& (param_names(ps.subrange(0, i)).contains(ps[i].name@) || taken_by(ps[i].name@, td, al, traits))
    &&& forall|j: int| 0 <= j < i ==> !param_names(ps.subrange(0, j)).contains(#[trigger] ps[j].name@)
        && !taken_by(ps[j].name@, td, al, traits)
}

/// `f` reports the first refused type parameter: a repeated name, or one
/// already taken.
pub open spec fn params_fault_is(f: TypeParamFault, ps: Seq<TypeParam>, td: TypeDefs, al: AliasMap, traits: Set<Seq<char>>) -> bool {
    exists|i: int| #[trigger] bad_param_at(ps, td, al, traits, i) && match f {
        TypeParamFault::Duplicate { name, span } => name@ == ps[i].name@ && span == ps[i].span
            && param_names(ps.subrange(0, i)).contains(ps[i].name@),
        TypeParamFault::Conflict { name, span } => name@ == ps[i].name@ && span == ps[i].span
            && !param_names(ps.subrange(0, i)).contains(ps[i].name@),
    }
}

/// The first bad `where` bound from the `i`-th on.
pub open spec fn bounds_from(bs: Seq<TraitBound>, i: int, tp: Set<Seq<char>>, traits: Set<Seq<char>>) -> Option<TraitEnvFault>
    decreases bs.len() - i,
{
    if i < 0 || i >= bs.len() {
        None
    } else if !tp.contains(bs[i].param@) {
        Some(TraitEnvFault::UnknownBoundParam(bs[i].param@, bs[i].span))
    } else if !traits.contains(bs[i].trait_name@) {
        Some(TraitEnvFault::UnknownBoundTrait(bs[i].trait_name@, bs[i].span))
    } else {
        bounds_from(bs, i + 1, tp, traits)
    }
}

/// The fault of the `k`-th method of an impl: its own generics, then a
/// repeated name (reported at its body).
pub open spec fn impl_method_fault(d: ImplDecl, k: int) -> Option<TraitEnvFault> {
    let m = d.methods@[k];
    if m.type_params@.len() > 0 || m.where_bounds@.len() > 0 {
        Some(TraitEnvFault::MethodGenerics(m.name@, m.effect_span))
    } else if name_repeats(func_names(d.methods@), k) {
        Some(TraitEnvFault::DuplicateTraitMethod(d.trait_name@, m.name@, span_of(m.body)))
    } else {
        None
    }
}

pub open spec fn impl_methods_from(d: ImplDecl, k: int) -> Option<TraitEnvFault>
    decreases d.methods@.len() - k,
{
    if k < 0 || k >= d.methods@.len() {
        None
    } else {
        first_fault(impl_method_fault(d, k), impl_methods_from(d, k + 1))
    }
}

/// The first function named `n`.
pub open spec fn func_index(fs: Seq<Func>, n: Seq<char>) -> Option<int> {
    if func_names(fs).contains(n) {
        Some(choose|i: int| 0 <= i < fs.len() && fs[i].name@ == n && forall|j: int| 0 <= j < i ==> (#[trigger] fs[j]).name@ != n)
    } else {
        None
    }
}

/// The `q`-th method of the trait must be implemented, with the trait's signature.
pub open spec fn required_fault(d: ImplDecl, tms: Seq<TraitMethod>, q: int) -> Option<TraitEnvFault> {
    let tm = tms[q];
    match func_index(d.methods@, tm.name@) {
        None => Some(TraitEnvFault::MissingMethod(d.trait_name@, tm.name@, d.span)),
        Some(k) => if signatures_agree(tm, d.methods@[k], d.for_type@) {
            None
        } else {
            Some(TraitEnvFault::SignatureMismatch(d.trait_name@, tm.name@, tm.span))
        },
    }
}

pub open spec fn required_from(d: ImplDecl, tms: Seq<TraitMethod>, q: int) -> Option<TraitEnvFault>
    decreases tms.len() - q,
{
    if q < 0 || q >= tms.len() {
        None
    } else {
        first_fault(required_fault(d, tms, q), required_from(d, tms, q + 1))
    }
}

/// The `k`-th method of the impl must be one the trait declares.
pub open spec fn extras_from(d: ImplDecl, tms: Seq<TraitMethod>, k: int) -> Option<TraitEnvFault>
    decreases d.methods@.len() - k,
{
    if k < 0 || k >= d.methods@.len() {
        None
    } else if !method_names(tms).contains(d.methods@[k].name@) {
        Some(TraitEnvFault::ExtraMethod(d.trait_name@, d.methods@[k].name@, d.span))
    } else {
        extras_from(d, tms, k + 1)
    }
}

/// The first trait declaration named `n`.
pub open spec fn trait_index(ts: Seq<TraitDecl>, n: Seq<char>) -> int {
    choose|i: int| 0 <= i < ts.len() && ts[i].name@ == n && forall|j: int| 0 <= j < i ==> (#[trigger] ts[j]).name@ != n
}

/// The fault of an impl, the declared traits being `ts` (named `traits`):
/// an unknown trait, its type parameters, its bounds, its type, its methods'
/// generics and names, then each method of the trait (in the trait's order)
/// must be implemented with the trait's signature, then each impl method
/// must be declared by the trait.
pub open spec fn impl_fault(d: ImplDecl, ts: Seq<TraitDecl>, traits: Set<Seq<char>>, al: AliasMap, td: TypeDefs, std: Set<Seq<char>>) -> Option<TraitEnvFault> {
    let t = d.trait_name@;
    if !traits.contains(t) {
        Some(TraitEnvFault::UnknownTrait(t, d.trait_name_span))
    } else if !params_ok(d.type_params@, td, al, traits) {
        Some(TraitEnvFault::Params(d.type_params@, traits))
    } else {
        let tp = param_names(d.type_params@);
        let tms = ts[trait_index(ts, t)].methods@;
        first_fault(bounds_from(d.where_bounds@, 0, tp, traits),
            first_fault(known_at(known_fault(d.for_type@, al@, td, tp, std), Some(d.span)),
                first_fault(impl_methods_from(d, 0), first_fault(required_from(d, tms, 0), extras_from(d, tms, 0)))))
    }
}

pub open spec fn impls_from(ds: Seq<ImplDecl>, j: int, ts: Seq<TraitDecl>, traits: Set<Seq<char>>, al: AliasMap, td: TypeDefs, std: Set<Seq<char>>) -> Option<TraitEnvFault>
    decreases ds.len() - j,
{
    if j < 0 || j >= ds.len() {
        None
    } else {
        first_fault(impl_fault(ds[j], ts, traits, al, td, std), impls_from(ds, j + 1, ts, traits, al, td, std))
    }
}

/// Implementations `i < j` of the same declared trait overlap.
pub open spec fn decls_clash(traits: Set<Seq<char>>, ds: Seq<ImplDecl>, i: int, j: int) -> bool {
    &&& 0 <= i < j < ds.len()
    &&& ds[i].trait_name@ == ds[j].trait_name@
    &&& traits.contains(ds[i].trait_name@)
    &&& overlaps(ds[i].for_type@, param_names(ds[i].type_params@), ds[j].for_type@, param_names(ds[j].type_params@), Map::empty()).0
}

proof fn lemma_param_names_copied(a: Seq<TypeParam>, b: Seq<TypeParam>)
    requires
        tparams_view(a) == tparams_view(b),
    ensures
        param_names(a) == param_names(b),
{
    assert(a.len() == tparams_view(a).len());
    assert forall|k: Seq<char>| #[trigger] param_names(a).contains(k) <==> param_names(b).contains(k) by {
        if param_names(a).contains(k) {
            let i = choose|i: int| 0 <= i < a.len() && (#[trigger] a[i]).name@ == k;
            assert(tparams_view(a)[i] == tparams_view(b)[i]);
        }
        if param_names(b).contains(k) {
            let i = choose|i: int| 0 <= i < b.len() && (#[trigger] b[i]).name@ == k;
            assert(tparams_view(a)[i] == tparams_view(b)[i]);
        }
    }
    assert(param_names(a) =~= param_names(b));
}

proof fn lemma_traits_map_dom(ts: Seq<TraitDecl>, n: nat, k: Seq<char>)
    requires
        n <= ts.len(),
        traits_map(ts, n).contains_key(k),
    ensures
        exists|i: int| 0 <= i < n && (#[trigger] ts[i]).name@ == k,
    decreases n,
{
    if n > 0 && ts[n - 1].name@ != k {
        lemma_traits_map_dom(ts, (n - 1) as nat, k);
        let i = choose|i: int| 0 <= i < n - 1 && (#[trigger] ts[i]).name@ == k;
        assert(0 <= i < n && ts[i].name@ == k);
    }
}

proof fn lemma_bounds_skip(bs: Seq<TraitBound>, k: int, i: int, tp: Set<Seq<char>>, traits: Set<Seq<char>>)
    requires
        0 <= k <= i <= bs.len(),
        forall|j: int| k <= j < i ==> tp.contains((#[trigger] bs[j]).param@) && traits.contains(bs[j].trait_name@),
    ensures
        bounds_from(bs, k, tp, traits) == bounds_from(bs, i, tp, traits),
    decreases i - k,
{
    if k < i {
        lemma_bounds_skip(bs, k + 1, i, tp, traits);
    }
}

fn check_impl_params(ps: &Vec<TypeParam>, td: &TypeDefs, al: &AliasMap, te: &TraitEnv) -> (r: Result<NameSet, TraitEnvError>)
    ensures
        r matches Ok(tp) ==> params_ok(ps@, *td, *al, te.traits@.dom()) && tp@ == param_names(ps@),
        r matches Err(e) ==> !params_ok(ps@, *td, *al, te.traits@.dom()),
        r matches Err(e) ==> reports_env_fault(e, TraitEnvFault::Params(ps@, te.traits@.dom()), *td, *al),
{
    match validate_type_params(ps, td, al, te) {
        Ok(tp) => {
            proof {
                assert forall|j: int| 0 <= j < ps@.len() implies !param_names(ps@.subrange(0, j)).contains(#[trigger] ps@[j].name@)
                    && !taken_by(ps@[j].name@, *td, *al, te.traits@.dom()) by {
                    assert(!param_names(ps@.subrange(0, j)).contains(ps@[j].name@));
                    assert(!crate::generics::taken_name(ps@[j].name@, *td, *al, *te));
                }
                assert(params_ok(ps@, *td, *al, te.traits@.dom()));
                assert(tp@ == param_names(ps@));
            }
            Ok(tp)
        },
        Err(f) => {
            proof {
                let i = choose|i: int| #[trigger] crate::generics::first_bad_param(ps@, *td, *al, *te, i);
                assert(crate::generics::first_bad_param(ps@, *td, *al, *te, i));
                assert(!(!param_names(ps@.subrange(0, i)).contains(ps@[i].name@) && !taken_by(ps@[i].name@, *td, *al, te.traits@.dom())));
                assert(type_param_fault_is(f, ps@, *td, *al, *te));
                assert forall|j: int| 0 <= j < i implies !param_names(ps@.subrange(0, j)).contains(#[trigger] ps@[j].name@)
                    && !taken_by(ps@[j].name@, *td, *al, te.traits@.dom()) by {
                    assert(!param_names(ps@.subrange(0, j)).contains(ps@[j].name@));
                    assert(!crate::generics::taken_name(ps@[j].name@, *td, *al, *te));
                }
                assert(bad_param_at(ps@, *td, *al, te.traits@.dom(), i));
                assert(params_fault_is(f, ps@, *td, *al, te.traits@.dom()));
            }
            let e = TraitEnvError::TypeParam(f);
            Err(e)
        },
    }
}

fn check_bounds(bs: &Vec<TraitBound>, tp: &NameSet, te: &TraitEnv, td: &TypeDefs, al: &AliasMap) -> (r: Result<(), TraitEnvError>)
    ensures
        match bounds_from(bs@, 0, tp@, te.traits@.dom()) {
            None => r is Ok,
            Some(f) => r matches Err(e) && reports_env_fault(e, f, *td, *al),
        },
{
    match validate_bounds(bs, tp, te) {
        Ok(_) => {
            proof {
                assert forall|j: int| 0 <= j < bs@.len() implies tp@.contains((#[trigger] bs@[j]).param@) && te.traits@.dom().contains(bs@[j].trait_name@) by {
                    assert(crate::generics::bound_ok(bs@[j], tp@, *te));
                }
                lemma_bounds_skip(bs@, 0, bs@.len() as int, tp@, te.traits@.dom());
            }
            Ok(())
        },
        Err(f) => {
            proof {
                let i = choose|i: int| 0 <= i < bs@.len() && !#[trigger] crate::generics::bound_ok(bs@[i], tp@, *te)
                    && (forall|j: int| 0 <= j < i ==> crate::generics::bound_ok(bs@[j], tp@, *te)) && match f {
                    BoundFault::UnknownTypeParam { name, span } => !tp@.contains(bs@[i].param@)
                        && name@ == bs@[i].param@ && span == bs@[i].span,
                    BoundFault::UnknownTrait { name, span } => tp@.contains(bs@[i].param@)
                        && name@ == bs@[i].trait_name@ && span == bs@[i].span,
                };
                assert forall|j: int| 0 <= j < i implies tp@.contains((#[trigger] bs@[j]).param@) && te.traits@.dom().contains(bs@[j].trait_name@) by {
                    assert(crate::generics::bound_ok(bs@[j], tp@, *te));
                }
                lemma_bounds_skip(bs@, 0, i, tp@, te.traits@.dom());
            }
            Err(TraitEnvError::Bound(f))
        },
    }
}

fn check_impl_methods(d: &ImplDecl, td: &TypeDefs, al: &AliasMap) -> (r: Result<(), TraitEnvError>)
    ensures
        match impl_methods_from(*d, 0) {
            None => r is Ok,
            Some(f) => r matches Err(e) && reports_env_fault(e, f, *td, *al),
        },
{
    let mut seen = NameSet::new();
    let ghost ns = func_names(d.methods@);
    proof {
        lemma_seen_empty(ns);
    }
    let mut k: usize = 0;
    while k < d.methods.len()
        invariant
            k <= d.methods@.len(),
            ns == func_names(d.methods@),
            seen@ == seen_upto(ns, k as int),
            impl_methods_from(*d, 0) == impl_methods_from(*d, k as int),
        decreases d.methods.len() - k,
    {
        let m = &d.methods[k];
        proof {
            lemma_seen_step(ns, k as int);
        }
        assert(ns[k as int] == m.name@);
        if m.type_params.len() > 0 || m.where_bounds.len() > 0 {
            return Err(TraitEnvError::MethodGenerics { method: m.name.clone(), span: m.effect_span });
        }
        let fresh = seen.insert(m.name.clone());
        if !fresh {
            return Err(TraitEnvError::DuplicateTraitMethod { trait_name: d.trait_name.clone(), method: m.name.clone(), span: expr_span(&m.body) });
        }
        k = k + 1;
    }
    Ok(())
}

fn find_trait(ts: &Vec<TraitDecl>, name: &str) -> (r: usize)
    requires
        exists|i: int| 0 <= i < ts@.len() && (#[trigger] ts@[i]).name@ == name@,
    ensures
        r < ts@.len(),
        r as int == trait_index(ts@, name@),
{
    let mut i: usize = 0;
    while i < ts.len()
        invariant
            i <= ts@.len(),
            exists|i: int| 0 <= i < ts@.len() && (#[trigger] ts@[i]).name@ == name@,
            forall|j: int| 0 <= j < i ==> (#[trigger] ts@[j]).name@ != name@,
        decreases ts.len() - i,
    {
        if crate::text::str_eq(ts[i].name.as_str(), name) {
            proof {
                assert(0 <= i < ts@.len() && ts@[i as int].name@ == name@ && forall|j: int| 0 <= j < i ==> (#[trigger] ts@[j]).name@ != name@);
                let k = trait_index(ts@, name@);
                assert(k == i as int) by {
                    if k < i {
                    } else if k > i {
                    }
                }
            }
            return i;
        }
        i = i + 1;
    }
    proof {
        let w = choose|w: int| 0 <= w < ts@.len() && (#[trigger] ts@[w]).name@ == name@;
        assert(ts@[w].name@ != name@);
    }
    0
}

fn find_func(fs: &Vec<Func>, name: &str) -> (r: Option<usize>)
    ensures
        match r {
            Some(k) => k < fs@.len() && func_index(fs@, name@) == Some(k as int),
            None => func_index(fs@, name@) is None,
        },
{
    let mut i: usize = 0;
    while i < fs.len()
        invariant
            i <= fs@.len(),
            forall|j: int| 0 <= j < i ==> (#[trigger] fs@[j]).name@ != name@,
        decreases fs.len() - i,
    {
        if crate::text::str_eq(fs[i].name.as_str(), name) {
            proof {
                assert(func_names(fs@)[i as int] == name@);
                assert(func_names(fs@).contains(name@));
                assert(0 <= i < fs@.len() && fs@[i as int].name@ == name@ && forall|j: int| 0 <= j < i ==> (#[trigger] fs@[j]).name@ != name@);
                let k = func_index(fs@, name@)->Some_0;
                assert(k == i as int) by {
                    if k < i {
                    } else if k > i {
                    }
                }
            }
            return Some(i);
        }
        i = i + 1;
    }
    proof {
        if func_names(fs@).contains(name@) {
            let j = choose|j: int| 0 <= j < func_names(fs@).len() && func_names(fs@)[j] == name@;
            assert(fs@[j].name@ == name@);
        }
    }
    None
}

fn check_one_required(d: &ImplDecl, tms: &Vec<TraitMethod>, q: usize, td: &TypeDefs, al: &AliasMap) -> (r: Result<(), TraitEnvError>)
    requires
        q < tms@.len(),
    ensures
        match required_fault(*d, tms@, q as int) {
            None => r is Ok,
            Some(f) => r matches Err(e) && reports_env_fault(e, f, *td, *al),
        },
{
    let tm = &tms[q];
    match find_func(&d.methods, tm.name.as_str()) {
        None => Err(TraitEnvError::MissingMethod { trait_name: d.trait_name.clone(), method: tm.name.clone(), span: d.span }),
        Some(k) => match validate_impl_method_signature(d.trait_name.as_str(), tm, &d.methods[k], &d.for_type) {
            Ok(()) => Ok(()),
            Err(m) => Err(TraitEnvError::Signature(m)),
        },
    }
}

fn check_required(d: &ImplDecl, tms: &Vec<TraitMethod>, td: &TypeDefs, al: &AliasMap) -> (r: Result<(), TraitEnvError>)
    ensures
        match required_from(*d, tms@, 0) {
            None => r is Ok,
            Some(f) => r matches Err(e) && reports_env_fault(e, f, *td, *al),
        },
{
    let mut q: usize = 0;
    while q < tms.len()
        invariant
            q <= tms@.len(),
            required_from(*d, tms@, 0) == required_from(*d, tms@, q as int),
        decreases tms.len() - q,
    {
        check_one_required(d, tms, q, td, al)?;
        q = q + 1;
    }
    Ok(())
}

fn check_extras(d: &ImplDecl, tms: &Vec<TraitMethod>, td: &TypeDefs, al: &AliasMap) -> (r: Result<(), TraitEnvError>)
    ensures
        match extras_from(*d, tms@, 0) {
            None => r is Ok,
            Some(f) => r matches Err(e) && reports_env_fault(e, f, *td, *al),
        },
{
    let mut declared = NameSet::new();
    let ghost ns = method_names(tms@);
    proof {
        lemma_seen_empty(ns);
    }
    let mut q: usize = 0;
    while q < tms.len()
        invariant
            q <= tms@.len(),
            ns == method_names(tms@),
            declared@ == seen_upto(ns, q as int),
        decreases tms.len() - q,
    {
        proof {
            lemma_seen_step(ns, q as int);
        }
        assert(ns[q as int] == tms@[q as int].name@);
        declared.insert(tms[q].name.clone());
        q = q + 1;
    }
    assert forall|n: Seq<char>| #[trigger] declared@.contains(n) <==> ns.contains(n) by {
        if declared@.contains(n) {
            let l = choose|l: int| 0 <= l < ns.len() && ns[l] == n;
            assert(ns[l] == n);
        }
        if ns.contains(n) {
            let l = choose|l: int| 0 <= l < ns.len() && ns[l] == n;
            assert(seen_upto(ns, ns.len() as int).contains(n));
        }
    }
    let mut k: usize = 0;
    while k < d.methods.len()
        invariant
            k <= d.methods@.len(),
            ns == method_names(tms@),
            forall|n: Seq<char>| #[trigger] declared@.contains(n) <==> ns.contains(n),
            extras_from(*d, tms@, 0) == extras_from(*d, tms@, k as int),
        decreases d.methods.len() - k,
    {
        if !declared.contains(d.methods[k].name.as_str()) {
            return Err(TraitEnvError::ExtraMethod { trait_name: d.trait_name.clone(), method: d.methods[k].name.clone(), span: d.span });
        }
        k = k + 1;
    }
    Ok(())
}

fn check_impl(d: &ImplDecl, ts: &Vec<TraitDecl>, te: &TraitEnv, al: &AliasMap, td: &TypeDefs, std: &StdTypeMap) -> (r: Result<(), TraitEnvError>)
    requires
        te.traits@ == traits_map(ts@, ts@.len()),
    ensures
        match impl_fault(*d, ts@, te.traits@.dom(), *al, *td, std@.dom()) {
            None => r is Ok,
            Some(f) => r matches Err(e) && reports_env_fault(e, f, *td, *al),
        },
{
    if !te.traits.contains_key(d.trait_name.as_str()) {
        return Err(TraitEnvError::UnknownTrait { name: d.trait_name.clone(), span: d.trait_name_span });
    }
    proof {
        lemma_traits_map_dom(ts@, ts@.len(), d.trait_name@);
    }
    let tp = check_impl_params(&d.type_params, td, al, te)?;
    check_bounds(&d.where_bounds, &tp, te, td, al)?;
    check_known(&d.for_type, &tp, al, td, std, Some(d.span))?;
    check_impl_methods(d, td, al)?;
    let ti = find_trait(ts, d.trait_name.as_str());
    check_required(d, &ts[ti].methods, td, al)?;
    check_extras(d, &ts[ti].methods, td, al)
}

/// Builds the traits of a program and checks their implementations.
///
/// Traits come first, in order (see `traits_from`): a name must not repeat,
/// a trait takes no type parameters, its method names must not repeat, and
/// its methods' types (where `Self` may stand) must be known. Then each
/// implementation, in order (see `impl_fault`): its trait must be declared,
/// its type parameters, bounds and type accepted, its methods free of their
/// own generics and of repeated names, every method of the trait implemented
/// with the trait's signature, and no other. Last, no two implementations of
/// one trait may overlap. The first refusal is reported; on success the
/// environment holds the traits by name and a copy of each implementation,
/// in order.
pub fn build_trait_env(program: &Program, aliases: &AliasMap, type_defs: &TypeDefs, std_types: &StdTypeMap) -> (r: Result<TraitEnv, TraitEnvError>)
    ensures
        match traits_from(program.traits@, 0, aliases@, *type_defs, std_types@.dom()) {
            Some(f) => r matches Err(e) && reports_env_fault(e, f, *type_defs, *aliases),
            None => {
                let traits = traits_map(program.traits@, program.traits@.len());
                let ds = program.impls@;
                match impls_from(ds, 0, program.traits@, traits.dom(), *aliases, *type_defs, std_types@.dom()) {
                    Some(f) => r matches Err(e) && reports_env_fault(e, f, *type_defs, *aliases),
                    None => if exists|i: int, j: int| #[trigger] decls_clash(traits.dom(), ds, i, j) {
                        r matches Err(TraitEnvError::Overlap(o)) && exists|i: int, j: int| #[trigger] decls_clash(traits.dom(), ds, i, j)
                            && o.trait_name@ == ds[i].trait_name@ && o.first == ds[i].span && o.second == ds[j].span
                    } else {
                        r matches Ok(env) && env.traits@ == traits && env.impls@.len() == ds.len()
                            && forall|k: int| 0 <= k < ds.len() ==> impl_copied(#[trigger] env.impls@[k].decl, ds[k])
                    },
                }
            },
        },
{
    let ts = &program.traits;
    let ds = &program.impls;
    let traits = build_traits(ts, aliases, type_defs, std_types)?;
    let mut env = TraitEnv { traits, impls: Vec::new() };
    let ghost tmap = traits_map(ts@, ts@.len());
    let mut i: usize = 0;
    while i < ds.len()
        invariant
            i <= ds@.len(),
            ts == &program.traits,
            ds == &program.impls,
            env.traits@ == tmap,
            tmap == traits_map(ts@, ts@.len()),
            traits_from(ts@, 0, aliases@, *type_defs, std_types@.dom()) is None,
            env.impls@.len() == i,
            forall|k: int| 0 <= k < i ==> impl_copied(#[trigger] env.impls@[k].decl, ds@[k]),
            impls_from(ds@, 0, ts@, tmap.dom(), *aliases, *type_defs, std_types@.dom())
                == impls_from(ds@, i as int, ts@, tmap.dom(), *aliases, *type_defs, std_types@.dom()),
        decreases ds.len() - i,
    {
        check_impl(&ds[i], ts, &env, aliases, type_defs, std_types)?;
        env.impls.push(ImplInfo { decl: copy_impl(&ds[i]) });
        i = i + 1;
    }
    proof {
        assert forall|a: int, b: int|
            #![trigger impls_clash(tmap.dom(), env.impls@, a, b)]
            #![trigger decls_clash(tmap.dom(), ds@, a, b)]
            impls_clash(tmap.dom(), env.impls@, a, b) == decls_clash(tmap.dom(), ds@, a, b) by {
            if 0 <= a < b < ds@.len() {
                lemma_param_names_copied(env.impls@[a].decl.type_params@, ds@[a].type_params@);
                lemma_param_names_copied(env.impls@[b].decl.type_params@, ds@[b].type_params@);
            }
        }
    }
    match validate_impl_coherence(&env) {
        Ok(()) => Ok(env),
        Err(o) => {
            proof {
                let (a, b) = choose|a: int, b: int| #[trigger] impls_clash(tmap.dom(), env.impls@, a, b)
                    && o.trait_name@ == env.impls@[a].decl.trait_name@ && o.first == env.impls@[a].decl.span
                    && o.second == env.impls@[b].decl.span;
                assert(decls_clash(tmap.dom(), ds@, a, b));
            }
            Err(TraitEnvError::Overlap(o))
        },
    }
}

/// Every implementation that the checks accept implements a declared trait
/// and defines exactly the methods that the trait declares.
pub proof fn lemma_accepted_impls_implement_declared_traits(ds: Seq<ImplDecl>, j: int, ts: Seq<TraitDecl>, traits: Set<Seq<char>>, al: AliasMap, td: TypeDefs, std: Set<Seq<char>>)
    requires
        0 <= j,
        impls_from(ds, j, ts, traits, al, td, std) is None,
    ensures
        forall|k: int| j <= k < ds.len() ==> traits.contains((#[trigger] ds[k]).trait_name@)
            && required_from(ds[k], ts[trait_index(ts, ds[k].trait_name@)].methods@, 0) is None
            && extras_from(ds[k], ts[trait_index(ts, ds[k].trait_name@)].methods@, 0) is None,
    decreases ds.len() - j,
{
    if j < ds.len() {
        lemma_accepted_impls_implement_declared_traits(ds, j + 1, ts, traits, al, td, std);
    }
}

} // verus!
