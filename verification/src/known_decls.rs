use vstd::prelude::*;
use crate::ast::{ContractDecl, EnumDecl, EnumVariant, EventDecl, Func, Program, RefinedAliasDecl, ResourceDecl, StructDecl, StructField};
use crate::collections::{contains_named_resource, has_resource, is_persistable_state_type, persistable};
use crate::env::{TraitEnv, TypeDefs, TypeParam};
use crate::generics::{first_bad_param, param_names, taken_name, type_param_fault_is, validate_type_params, TypeParamFault};
use crate::known::{ensure_known_type, known_fault, reports_known, KnownFault, KnownTypeError, StdTypeMap};
use crate::names::{names_view, NameSet};
use crate::ty::{copy_type, Param, Span, Ty, Type};
use crate::type_resolve::{AliasMap, AliasV};
use crate::validation::{param_types, params_valid};

verus! {

/// Why a declaration was refused by the check that every type it names is
/// declared, and that contract state and events can be persisted.
pub enum KnownDeclFault {
    /// A type names something unknown or applies it wrongly, at this span.
    Known(KnownFault, Option<Span>),
    /// The declaration's type parameters are refused.
    Params(Seq<TypeParam>),
    /// A contract repeats the name of an earlier one.
    DuplicateContract(Seq<char>, Span),
    /// A contract's state field repeats the name of an earlier one.
    DuplicateStateField(Seq<char>, Span),
    /// A state field's type cannot be persisted, or holds a resource.
    InvalidStateType(Ty, Span),
    /// A contract's event repeats the name of an earlier one.
    DuplicateEvent(Seq<char>, Span),
    /// An event's field repeats the name of an earlier one.
    DuplicateEventField(Seq<char>, Span),
    /// An event field's type cannot be persisted, or holds a resource.
    InvalidEventType(Ty, Span),
}

/// The `k`-th name repeats an earlier one.
pub open spec fn name_repeats(ns: Seq<Seq<char>>, k: int) -> bool {
    0 <= k < ns.len() && exists|l: int| 0 <= l < k && ns[l] == ns[k]
}

/// The names among the first `i`.
pub open spec fn seen_upto(ns: Seq<Seq<char>>, i: int) -> Set<Seq<char>> {
    Set::new(|n: Seq<char>| exists|l: int| 0 <= l < i && ns[l] == n)
}

pub open spec fn field_names(fs: Seq<StructField>) -> Seq<Seq<char>> {
    fs.map_values(|f: StructField| f.name@)
}

pub open spec fn event_names(es: Seq<EventDecl>) -> Seq<Seq<char>> {
    es.map_values(|e: EventDecl| e.name@)
}

pub open spec fn contract_names(cs: Seq<ContractDecl>) -> Seq<Seq<char>> {
    cs.map_values(|c: ContractDecl| c.name@)
}

/// The type parameters of a refined alias.
pub open spec fn alias_params(a: RefinedAliasDecl) -> Set<Seq<char>> {
    seen_upto(names_view(a.type_params@), a.type_params@.len() as int)
}

/// The first of two faults.
pub open spec fn first_of(a: Option<KnownDeclFault>, b: Option<KnownDeclFault>) -> Option<KnownDeclFault> {
    match a {
        Some(f) => Some(f),
        None => b,
    }
}

/// The fault of one type, checked at `span` with type parameters `tp`.
pub open spec fn type_known(t: Ty, span: Option<Span>, tp: Set<Seq<char>>, al: Map<Seq<char>, AliasV>, td: TypeDefs, std: Set<Seq<char>>) -> Option<KnownDeclFault> {
    match known_fault(t, al, td, tp, std) {
        Some(f) => Some(KnownDeclFault::Known(f, span)),
        None => None,
    }
}


/// The fault of the `k`-th field of a contract's state (`state`) or of an
/// event: a repeated name, an unknown type, or a type that cannot be
/// persisted or holds a resource.
pub open spec fn persisted_field_fault(fs: Seq<StructField>, k: int, state: bool, al: Map<Seq<char>, AliasV>, td: TypeDefs, std: Set<Seq<char>>) -> Option<KnownDeclFault> {
    let f = fs[k];
    if name_repeats(field_names(fs), k) {
        Some(if state { KnownDeclFault::DuplicateStateField(f.name@, f.span) } else { KnownDeclFault::DuplicateEventField(f.name@, f.span) })
    } else {
        first_of(type_known(f.ty@, Some(f.span), Set::empty(), al, td, std),
            if !persistable(f.ty@) || has_resource(f.ty@, td.resources@, Set::empty()) {
                Some(if state { KnownDeclFault::InvalidStateType(f.ty@, f.span) } else { KnownDeclFault::InvalidEventType(f.ty@, f.span) })
            } else {
                None
            })
    }
}

/// The first fault among the persisted fields from the `i`-th on.
pub open spec fn persisted_fields_from(fs: Seq<StructField>, i: int, state: bool, al: Map<Seq<char>, AliasV>, td: TypeDefs, std: Set<Seq<char>>) -> Option<KnownDeclFault>
    decreases fs.len() - i,
{
    if i < 0 || i >= fs.len() {
        None
    } else {
        first_of(persisted_field_fault(fs, i, state, al, td, std), persisted_fields_from(fs, i + 1, state, al, td, std))
    }
}

/// The fault of the `j`-th event of a contract.
pub open spec fn event_fault(es: Seq<EventDecl>, j: int, al: Map<Seq<char>, AliasV>, td: TypeDefs, std: Set<Seq<char>>) -> Option<KnownDeclFault> {
    if name_repeats(event_names(es), j) {
        Some(KnownDeclFault::DuplicateEvent(es[j].name@, es[j].name_span))
    } else {
        persisted_fields_from(es[j].fields@, 0, false, al, td, std)
    }
}

pub open spec fn events_from(es: Seq<EventDecl>, j: int, al: Map<Seq<char>, AliasV>, td: TypeDefs, std: Set<Seq<char>>) -> Option<KnownDeclFault>
    decreases es.len() - j,
{
    if j < 0 || j >= es.len() {
        None
    } else {
        first_of(event_fault(es, j, al, td, std), events_from(es, j + 1, al, td, std))
    }
}

/// The fault of the `i`-th contract: a repeated name, then its state fields,
/// then its events.
pub open spec fn contract_fault(cs: Seq<ContractDecl>, i: int, al: Map<Seq<char>, AliasV>, td: TypeDefs, std: Set<Seq<char>>) -> Option<KnownDeclFault> {
    if name_repeats(contract_names(cs), i) {
        Some(KnownDeclFault::DuplicateContract(cs[i].name@, cs[i].name_span))
    } else {
        first_of(persisted_fields_from(cs[i].fields@, 0, true, al, td, std), events_from(cs[i].events@, 0, al, td, std))
    }
}

pub open spec fn contracts_from(cs: Seq<ContractDecl>, i: int, al: Map<Seq<char>, AliasV>, td: TypeDefs, std: Set<Seq<char>>) -> Option<KnownDeclFault>
    decreases cs.len() - i,
{
    if i < 0 || i >= cs.len() {
        None
    } else {
        first_of(contract_fault(cs, i, al, td, std), contracts_from(cs, i + 1, al, td, std))
    }
}

/// The first fault among fields, each checked at its own span.
pub open spec fn fields_known(fs: Seq<StructField>, tp: Set<Seq<char>>, al: Map<Seq<char>, AliasV>, td: TypeDefs, std: Set<Seq<char>>) -> Option<KnownDeclFault>
    decreases fs.len(),
{
    if fs.len() == 0 {
        None
    } else {
        first_of(type_known(fs[0].ty@, Some(fs[0].span), tp, al, td, std), fields_known(fs.drop_first(), tp, al, td, std))
    }
}

/// The first fault among types that share a span.
pub open spec fn types_known(ts: Seq<Type>, span: Option<Span>, tp: Set<Seq<char>>, al: Map<Seq<char>, AliasV>, td: TypeDefs, std: Set<Seq<char>>) -> Option<KnownDeclFault>
    decreases ts.len(),
{
    if ts.len() == 0 {
        None
    } else {
        first_of(type_known(ts[0]@, span, tp, al, td, std), types_known(ts.drop_first(), span, tp, al, td, std))
    }
}

/// The first fault among enum variants, each field at its variant's span.
pub open spec fn variants_known(vs: Seq<EnumVariant>, tp: Set<Seq<char>>, al: Map<Seq<char>, AliasV>, td: TypeDefs, std: Set<Seq<char>>) -> Option<KnownDeclFault>
    decreases vs.len(),
{
    if vs.len() == 0 {
        None
    } else {
        first_of(types_known(vs[0].fields@, Some(vs[0].span), tp, al, td, std), variants_known(vs.drop_first(), tp, al, td, std))
    }
}

pub open spec fn resources_known(rs: Seq<ResourceDecl>, al: Map<Seq<char>, AliasV>, td: TypeDefs, std: Set<Seq<char>>) -> Option<KnownDeclFault>
    decreases rs.len(),
{
    if rs.len() == 0 {
        None
    } else {
        first_of(fields_known(rs[0].fields@, Set::empty(), al, td, std), resources_known(rs.drop_first(), al, td, std))
    }
}

pub open spec fn structs_known(ss: Seq<StructDecl>, al: AliasMap, td: TypeDefs, te: TraitEnv, std: Set<Seq<char>>) -> Option<KnownDeclFault>
    decreases ss.len(),
{
    if ss.len() == 0 {
        None
    } else if !params_valid(ss[0].type_params@, td, al, te) {
        Some(KnownDeclFault::Params(ss[0].type_params@))
    } else {
        first_of(fields_known(ss[0].fields@, param_names(ss[0].type_params@), al@, td, std), structs_known(ss.drop_first(), al, td, te, std))
    }
}

pub open spec fn enums_known(es: Seq<EnumDecl>, al: AliasMap, td: TypeDefs, te: TraitEnv, std: Set<Seq<char>>) -> Option<KnownDeclFault>
    decreases es.len(),
{
    if es.len() == 0 {
        None
    } else if !params_valid(es[0].type_params@, td, al, te) {
        Some(KnownDeclFault::Params(es[0].type_params@))
    } else {
        first_of(variants_known(es[0].variants@, param_names(es[0].type_params@), al@, td, std), enums_known(es.drop_first(), al, td, te, std))
    }
}

pub open spec fn aliases_known(als: Seq<RefinedAliasDecl>, al: Map<Seq<char>, AliasV>, td: TypeDefs, std: Set<Seq<char>>) -> Option<KnownDeclFault>
    decreases als.len(),
{
    if als.len() == 0 {
        None
    } else {
        first_of(type_known(als[0].base@, Some(als[0].span), alias_params(als[0]), al, td, std), aliases_known(als.drop_first(), al, td, std))
    }
}

/// A function: its type parameters, then its return type, then its
/// parameters' types (all without a span).
pub open spec fn funcs_known(fs: Seq<Func>, al: AliasMap, td: TypeDefs, te: TraitEnv, std: Set<Seq<char>>) -> Option<KnownDeclFault>
    decreases fs.len(),
{
    if fs.len() == 0 {
        None
    } else if !params_valid(fs[0].type_params@, td, al, te) {
        Some(KnownDeclFault::Params(fs[0].type_params@))
    } else {
        let tp = param_names(fs[0].type_params@);
        first_of(type_known(fs[0].ret@, None, tp, al@, td, std),
            first_of(types_known(param_types(fs[0].params@), None, tp, al@, td, std), funcs_known(fs.drop_first(), al, td, te, std)))
    }
}

/// The first fault of the program's declarations, in this order: contracts
/// (their names, state fields and events), resource fields, structs, enums,
/// refined aliases, functions.
pub open spec fn program_known_fault(p: Program, al: AliasMap, td: TypeDefs, te: TraitEnv, std: Set<Seq<char>>) -> Option<KnownDeclFault> {
    first_of(contracts_from(p.contracts@, 0, al@, td, std),
        first_of(resources_known(p.resources@, al@, td, std),
            first_of(structs_known(p.structs@, al, td, te, std),
                first_of(enums_known(p.enums@, al, td, te, std),
                    first_of(aliases_known(p.refined_aliases@, al@, td, std), funcs_known(p.funcs@, al, td, te, std))))))
}

/// Why the declarations' types were refused. A repeated contract name is
/// reported as a repeated state field, naming the contract.
#[derive(Debug)]
pub enum KnownTypesError {
    Known(KnownTypeError),
    TypeParam(TypeParamFault),
    DuplicateStateField { name: String, span: Span },
    InvalidStateType { ty: Type, span: Span },
    DuplicateEvent { name: String, span: Span },
    DuplicateEventField { name: String, span: Span },
    InvalidEventType { ty: Type, span: Span },
}

/// `e` reports the fault `f`, found in a type or a name.
pub open spec fn reports_known_fault(e: KnownTypesError, f: KnownDeclFault) -> bool {
    match f {
        KnownDeclFault::Known(k, span) => e matches KnownTypesError::Known(ke) && reports_known(ke, k, span),
        KnownDeclFault::Params(_) => false,
        KnownDeclFault::DuplicateContract(n, s) => e matches KnownTypesError::DuplicateStateField { name, span } && name@ == n && span == s,
        KnownDeclFault::DuplicateStateField(n, s) => e matches KnownTypesError::DuplicateStateField { name, span } && name@ == n && span == s,
        KnownDeclFault::InvalidStateType(t, s) => e matches KnownTypesError::InvalidStateType { ty, span } && ty@ == t && span == s,
        KnownDeclFault::DuplicateEvent(n, s) => e matches KnownTypesError::DuplicateEvent { name, span } && name@ == n && span == s,
        KnownDeclFault::DuplicateEventField(n, s) => e matches KnownTypesError::DuplicateEventField { name, span } && name@ == n && span == s,
        KnownDeclFault::InvalidEventType(t, s) => e matches KnownTypesError::InvalidEventType { ty, span } && ty@ == t && span == s,
    }
}

/// `e` reports the fault `f`.
pub open spec fn reports_known_decl(e: KnownTypesError, f: KnownDeclFault, td: TypeDefs, al: AliasMap, te: TraitEnv) -> bool {
    match f {
        KnownDeclFault::Params(ps) => e matches KnownTypesError::TypeParam(pf) && type_param_fault_is(pf, ps, td, al, te),
        _ => reports_known_fault(e, f),
    }
}

/// A check that finds no type-parameter fault has the outcome specified.
pub open spec fn plain_outcome(r: Result<(), KnownTypesError>, f: Option<KnownDeclFault>) -> bool {
    match f {
        None => r is Ok,
        Some(fault) => r matches Err(e) && reports_known_fault(e, fault),
    }
}

/// The outcome of a check matches the fault specified.
pub open spec fn known_outcome(r: Result<(), KnownTypesError>, f: Option<KnownDeclFault>, td: TypeDefs, al: AliasMap, te: TraitEnv) -> bool {
    match f {
        None => r is Ok,
        Some(fault) => r matches Err(e) && reports_known_decl(e, fault, td, al, te),
    }
}

pub proof fn lemma_seen_step(ns: Seq<Seq<char>>, i: int)
    requires
        0 <= i < ns.len(),
    ensures
        seen_upto(ns, i + 1) == seen_upto(ns, i).insert(ns[i]),
        name_repeats(ns, i) <==> seen_upto(ns, i).contains(ns[i]),
{
    assert forall|n: Seq<char>| #[trigger] seen_upto(ns, i + 1).contains(n) <==> seen_upto(ns, i).insert(ns[i]).contains(n) by {
        if seen_upto(ns, i + 1).contains(n) {
            let l = choose|l: int| 0 <= l < i + 1 && ns[l] == n;
            if l < i {
                assert(seen_upto(ns, i).contains(n));
            }
        }
        if seen_upto(ns, i).contains(n) {
            let l = choose|l: int| 0 <= l < i && ns[l] == n;
            assert(0 <= l < i + 1 && ns[l] == n);
        }
        if n == ns[i] {
            assert(0 <= i < i + 1 && ns[i] == n);
        }
    }
    assert(seen_upto(ns, i + 1) =~= seen_upto(ns, i).insert(ns[i]));
    if name_repeats(ns, i) {
        let l = choose|l: int| 0 <= l < i && ns[l] == ns[i];
        assert(seen_upto(ns, i).contains(ns[i]));
    }
    if seen_upto(ns, i).contains(ns[i]) {
        let l = choose|l: int| 0 <= l < i && ns[l] == ns[i];
        assert(name_repeats(ns, i));
    }
}

pub proof fn lemma_seen_empty(ns: Seq<Seq<char>>)
    ensures
        seen_upto(ns, 0) == Set::<Seq<char>>::empty(),
{
    assert(seen_upto(ns, 0) =~= Set::<Seq<char>>::empty());
}

fn known_in(ty: &Type, span: Option<Span>, tp: &NameSet, al: &AliasMap, td: &TypeDefs, std: &StdTypeMap) -> (r: Result<(), KnownTypesError>)
    ensures
        plain_outcome(r, type_known(ty@, span, tp@, al@, *td, std@.dom())),
{
    match ensure_known_type(ty, al, td, tp, std, span) {
        Ok(()) => Ok(()),
        Err(e) => Err(KnownTypesError::Known(e)),
    }
}

fn check_persisted_fields(fs: &Vec<StructField>, state: bool, al: &AliasMap, td: &TypeDefs, std: &StdTypeMap) -> (r: Result<(), KnownTypesError>)
    ensures
        plain_outcome(r, persisted_fields_from(fs@, 0, state, al@, *td, std@.dom())),
{
    let empty = NameSet::new();
    let mut seen = NameSet::new();
    let ghost ns = field_names(fs@);
    proof {
        lemma_seen_empty(ns);
    }
    let mut i: usize = 0;
    while i < fs.len()
        invariant
            i <= fs@.len(),
            ns == field_names(fs@),
            empty@ == Set::<Seq<char>>::empty(),
            seen@ == seen_upto(ns, i as int),
            persisted_fields_from(fs@, 0, state, al@, *td, std@.dom()) == persisted_fields_from(fs@, i as int, state, al@, *td, std@.dom()),
        decreases fs.len() - i,
    {
        proof {
            lemma_seen_step(ns, i as int);
        }
        assert(ns[i as int] == fs@[i as int].name@);
        let fresh = seen.insert(fs[i].name.clone());
        if !fresh {
            let name = fs[i].name.clone();
            let span = fs[i].span;
            if state {
                return Err(KnownTypesError::DuplicateStateField { name, span });
            } else {
                return Err(KnownTypesError::DuplicateEventField { name, span });
            }
        }
        known_in(&fs[i].ty, Some(fs[i].span), &empty, al, td, std)?;
        if !is_persistable_state_type(&fs[i].ty) || contains_named_resource(&fs[i].ty, &td.resources, &empty) {
            let ty = copy_type(&fs[i].ty);
            let span = fs[i].span;
            if state {
                return Err(KnownTypesError::InvalidStateType { ty, span });
            } else {
                return Err(KnownTypesError::InvalidEventType { ty, span });
            }
        }
        i = i + 1;
    }
    Ok(())
}

fn check_events(es: &Vec<EventDecl>, al: &AliasMap, td: &TypeDefs, std: &StdTypeMap) -> (r: Result<(), KnownTypesError>)
    ensures
        plain_outcome(r, events_from(es@, 0, al@, *td, std@.dom())),
{
    let mut seen = NameSet::new();
    let ghost ns = event_names(es@);
    proof {
        lemma_seen_empty(ns);
    }
    let mut j: usize = 0;
    while j < es.len()
        invariant
            j <= es@.len(),
            ns == event_names(es@),
            seen@ == seen_upto(ns, j as int),
            events_from(es@, 0, al@, *td, std@.dom()) == events_from(es@, j as int, al@, *td, std@.dom()),
        decreases es.len() - j,
    {
        proof {
            lemma_seen_step(ns, j as int);
        }
        assert(ns[j as int] == es@[j as int].name@);
        let fresh = seen.insert(es[j].name.clone());
        if !fresh {
            return Err(KnownTypesError::DuplicateEvent { name: es[j].name.clone(), span: es[j].name_span });
        }
        check_persisted_fields(&es[j].fields, false, al, td, std)?;
        j = j + 1;
    }
    Ok(())
}

fn check_contracts(cs: &Vec<ContractDecl>, al: &AliasMap, td: &TypeDefs, std: &StdTypeMap) -> (r: Result<(), KnownTypesError>)
    ensures
        plain_outcome(r, contracts_from(cs@, 0, al@, *td, std@.dom())),
{
    let mut seen = NameSet::new();
    let ghost ns = contract_names(cs@);
    proof {
        lemma_seen_empty(ns);
    }
    let mut i: usize = 0;
    while i < cs.len()
        invariant
            i <= cs@.len(),
            ns == contract_names(cs@),
            seen@ == seen_upto(ns, i as int),
            contracts_from(cs@, 0, al@, *td, std@.dom()) == contracts_from(cs@, i as int, al@, *td, std@.dom()),
        decreases cs.len() - i,
    {
        proof {
            lemma_seen_step(ns, i as int);
        }
        assert(ns[i as int] == cs@[i as int].name@);
        let fresh = seen.insert(cs[i].name.clone());
        if !fresh {
            return Err(KnownTypesError::DuplicateStateField { name: cs[i].name.clone(), span: cs[i].name_span });
        }
        check_persisted_fields(&cs[i].fields, true, al, td, std)?;
        check_events(&cs[i].events, al, td, std)?;
        i = i + 1;
    }
    Ok(())
}

fn check_fields(fs: &Vec<StructField>, tp: &NameSet, al: &AliasMap, td: &TypeDefs, std: &StdTypeMap) -> (r: Result<(), KnownTypesError>)
    ensures
        plain_outcome(r, fields_known(fs@, tp@, al@, *td, std@.dom())),
{
    let mut i: usize = 0;
    assert(fs@.subrange(0, fs@.len() as int) =~= fs@);
    while i < fs.len()
        invariant
            i <= fs@.len(),
            fields_known(fs@, tp@, al@, *td, std@.dom()) == fields_known(fs@.subrange(i as int, fs@.len() as int), tp@, al@, *td, std@.dom()),
        decreases fs.len() - i,
    {
        let ghost rest = fs@.subrange(i as int, fs@.len() as int);
        assert(rest.drop_first() =~= fs@.subrange(i as int + 1, fs@.len() as int));
        known_in(&fs[i].ty, Some(fs[i].span), tp, al, td, std)?;
        i = i + 1;
    }
    Ok(())
}

fn check_types(ts: &Vec<Type>, span: Option<Span>, tp: &NameSet, al: &AliasMap, td: &TypeDefs, std: &StdTypeMap) -> (r: Result<(), KnownTypesError>)
    ensures
        plain_outcome(r, types_known(ts@, span, tp@, al@, *td, std@.dom())),
{
    let mut i: usize = 0;
    assert(ts@.subrange(0, ts@.len() as int) =~= ts@);
    while i < ts.len()
        invariant
            i <= ts@.len(),
            types_known(ts@, span, tp@, al@, *td, std@.dom()) == types_known(ts@.subrange(i as int, ts@.len() as int), span, tp@, al@, *td, std@.dom()),
        decreases ts.len() - i,
    {
        let ghost rest = ts@.subrange(i as int, ts@.len() as int);
        assert(rest.drop_first() =~= ts@.subrange(i as int + 1, ts@.len() as int));
        known_in(&ts[i], span, tp, al, td, std)?;
        i = i + 1;
    }
    Ok(())
}

fn check_param_types(ps: &Vec<Param>, tp: &NameSet, al: &AliasMap, td: &TypeDefs, std: &StdTypeMap) -> (r: Result<(), KnownTypesError>)
    ensures
        plain_outcome(r, types_known(param_types(ps@), None, tp@, al@, *td, std@.dom())),
{
    let ghost ts = param_types(ps@);
    let mut i: usize = 0;
    assert(ts.subrange(0, ts.len() as int) =~= ts);
    while i < ps.len()
        invariant
            i <= ps@.len(),
            ts == param_types(ps@),
            types_known(ts, None, tp@, al@, *td, std@.dom()) == types_known(ts.subrange(i as int, ts.len() as int), None, tp@, al@, *td, std@.dom()),
        decreases ps.len() - i,
    {
        let ghost rest = ts.subrange(i as int, ts.len() as int);
        assert(rest.drop_first() =~= ts.subrange(i as int + 1, ts.len() as int));
        assert(rest[0] == ps@[i as int].ty);
        known_in(&ps[i].ty, None, tp, al, td, std)?;
        i = i + 1;
    }
    Ok(())
}

fn check_variants(vs: &Vec<EnumVariant>, tp: &NameSet, al: &AliasMap, td: &TypeDefs, std: &StdTypeMap) -> (r: Result<(), KnownTypesError>)
    ensures
        plain_outcome(r, variants_known(vs@, tp@, al@, *td, std@.dom())),
{
    let mut i: usize = 0;
    assert(vs@.subrange(0, vs@.len() as int) =~= vs@);
    while i < vs.len()
        invariant
            i <= vs@.len(),
            variants_known(vs@, tp@, al@, *td, std@.dom()) == variants_known(vs@.subrange(i as int, vs@.len() as int), tp@, al@, *td, std@.dom()),
        decreases vs.len() - i,
    {
        let ghost rest = vs@.subrange(i as int, vs@.len() as int);
        assert(rest.drop_first() =~= vs@.subrange(i as int + 1, vs@.len() as int));
        check_types(&vs[i].fields, Some(vs[i].span), tp, al, td, std)?;
        i = i + 1;
    }
    Ok(())
}

fn check_params(ps: &Vec<TypeParam>, td: &TypeDefs, al: &AliasMap, te: &TraitEnv) -> (r: Result<NameSet, KnownTypesError>)
    ensures
        match r {
            Ok(tp) => params_valid(ps@, *td, *al, *te) && tp@ == param_names(ps@),
            Err(e) => !params_valid(ps@, *td, *al, *te) && reports_known_decl(e, KnownDeclFault::Params(ps@), *td, *al, *te),
        },
{
    match validate_type_params(ps, td, al, te) {
        Ok(tp) => {
            proof {
                assert forall|j: int| 0 <= j < ps@.len() implies !param_names(ps@.subrange(0, j)).contains(#[trigger] ps@[j].name@)
                    && !taken_name(ps@[j].name@, *td, *al, *te) by {
                    assert(!param_names(ps@.subrange(0, j)).contains(ps@[j].name@));
                }
            }
            Ok(tp)
        },
        Err(f) => {
            proof {
                let i = choose|i: int| #[trigger] first_bad_param(ps@, *td, *al, *te, i);
                assert(!(!param_names(ps@.subrange(0, i)).contains(ps@[i].name@) && !taken_name(ps@[i].name@, *td, *al, *te)));
            }
            Err(KnownTypesError::TypeParam(f))
        },
    }
}

fn alias_param_set(a: &RefinedAliasDecl) -> (r: NameSet)
    ensures
        r@ == alias_params(*a),
{
    let ghost ns = names_view(a.type_params@);
    let mut out = NameSet::new();
    proof {
        lemma_seen_empty(ns);
    }
    let mut i: usize = 0;
    while i < a.type_params.len()
        invariant
            i <= a.type_params@.len(),
            ns == names_view(a.type_params@),
            out@ == seen_upto(ns, i as int),
        decreases a.type_params.len() - i,
    {
        proof {
            lemma_seen_step(ns, i as int);
        }
        assert(ns[i as int] == a.type_params@[i as int]@);
        out.insert(a.type_params[i].clone());
        i = i + 1;
    }
    out
}

fn check_resources(rs: &Vec<ResourceDecl>, al: &AliasMap, td: &TypeDefs, std: &StdTypeMap) -> (r: Result<(), KnownTypesError>)
    ensures
        plain_outcome(r, resources_known(rs@, al@, *td, std@.dom())),
{
    let empty = NameSet::new();
    let mut i: usize = 0;
    assert(rs@.subrange(0, rs@.len() as int) =~= rs@);
    while i < rs.len()
        invariant
            i <= rs@.len(),
            empty@ == Set::<Seq<char>>::empty(),
            resources_known(rs@, al@, *td, std@.dom()) == resources_known(rs@.subrange(i as int, rs@.len() as int), al@, *td, std@.dom()),
        decreases rs.len() - i,
    {
        let ghost rest = rs@.subrange(i as int, rs@.len() as int);
        assert(rest.drop_first() =~= rs@.subrange(i as int + 1, rs@.len() as int));
        check_fields(&rs[i].fields, &empty, al, td, std)?;
        i = i + 1;
    }
    Ok(())
}

fn check_structs(ss: &Vec<StructDecl>, al: &AliasMap, td: &TypeDefs, te: &TraitEnv, std: &StdTypeMap) -> (r: Result<(), KnownTypesError>)
    ensures
        known_outcome(r, structs_known(ss@, *al, *td, *te, std@.dom()), *td, *al, *te),
{
    let mut i: usize = 0;
    assert(ss@.subrange(0, ss@.len() as int) =~= ss@);
    while i < ss.len()
        invariant
            i <= ss@.len(),
            structs_known(ss@, *al, *td, *te, std@.dom()) == structs_known(ss@.subrange(i as int, ss@.len() as int), *al, *td, *te, std@.dom()),
        decreases ss.len() - i,
    {
        let ghost rest = ss@.subrange(i as int, ss@.len() as int);
        assert(rest.drop_first() =~= ss@.subrange(i as int + 1, ss@.len() as int));
        let tp = check_params(&ss[i].type_params, td, al, te)?;
        check_fields(&ss[i].fields, &tp, al, td, std)?;
        i = i + 1;
    }
    Ok(())
}

fn check_enums(es: &Vec<EnumDecl>, al: &AliasMap, td: &TypeDefs, te: &TraitEnv, std: &StdTypeMap) -> (r: Result<(), KnownTypesError>)
    ensures
        known_outcome(r, enums_known(es@, *al, *td, *te, std@.dom()), *td, *al, *te),
{
    let mut i: usize = 0;
    assert(es@.subrange(0, es@.len() as int) =~= es@);
    while i < es.len()
        invariant
            i <= es@.len(),
            enums_known(es@, *al, *td, *te, std@.dom()) == enums_known(es@.subrange(i as int, es@.len() as int), *al, *td, *te, std@.dom()),
        decreases es.len() - i,
    {
        let ghost rest = es@.subrange(i as int, es@.len() as int);
        assert(rest.drop_first() =~= es@.subrange(i as int + 1, es@.len() as int));
        let tp = check_params(&es[i].type_params, td, al, te)?;
        check_variants(&es[i].variants, &tp, al, td, std)?;
        i = i + 1;
    }
    Ok(())
}

fn check_aliases(als: &Vec<RefinedAliasDecl>, al: &AliasMap, td: &TypeDefs, std: &StdTypeMap) -> (r: Result<(), KnownTypesError>)
    ensures
        plain_outcome(r, aliases_known(als@, al@, *td, std@.dom())),
{
    let mut i: usize = 0;
    assert(als@.subrange(0, als@.len() as int) =~= als@);
    while i < als.len()
        invariant
            i <= als@.len(),
            aliases_known(als@, al@, *td, std@.dom()) == aliases_known(als@.subrange(i as int, als@.len() as int), al@, *td, std@.dom()),
        decreases als.len() - i,
    {
        let ghost rest = als@.subrange(i as int, als@.len() as int);
        assert(rest.drop_first() =~= als@.subrange(i as int + 1, als@.len() as int));
        let tp = alias_param_set(&als[i]);
        known_in(&als[i].base, Some(als[i].span), &tp, al, td, std)?;
        i = i + 1;
    }
    Ok(())
}

fn check_funcs(fs: &Vec<Func>, al: &AliasMap, td: &TypeDefs, te: &TraitEnv, std: &StdTypeMap) -> (r: Result<(), KnownTypesError>)
    ensures
        known_outcome(r, funcs_known(fs@, *al, *td, *te, std@.dom()), *td, *al, *te),
{
    let mut i: usize = 0;
    assert(fs@.subrange(0, fs@.len() as int) =~= fs@);
    while i < fs.len()
        invariant
            i <= fs@.len(),
            funcs_known(fs@, *al, *td, *te, std@.dom()) == funcs_known(fs@.subrange(i as int, fs@.len() as int), *al, *td, *te, std@.dom()),
        decreases fs.len() - i,
    {
        let ghost rest = fs@.subrange(i as int, fs@.len() as int);
        assert(rest.drop_first() =~= fs@.subrange(i as int + 1, fs@.len() as int));
        let tp = check_params(&fs[i].type_params, td, al, te)?;
        known_in(&fs[i].ret, None, &tp, al, td, std)?;
        check_param_types(&fs[i].params, &tp, al, td, std)?;
        i = i + 1;
    }
    Ok(())
}

/// Checks the program's declarations (see `program_known_fault`): contract
/// names, state fields and events must not repeat, their field types must be
/// known, persistable and free of resources; every type named by a resource,
/// struct, enum, refined alias or function must be declared and applied to
/// as many arguments as it takes, with each declaration's type parameters
/// accepted first. The first fault found is reported.
pub fn validate_known_types(program: &Program, aliases: &AliasMap, type_defs: &TypeDefs, trait_env: &TraitEnv, std_types: &StdTypeMap) -> (r: Result<(), KnownTypesError>)
    ensures
        known_outcome(r, program_known_fault(*program, *aliases, *type_defs, *trait_env, std_types@.dom()), *type_defs, *aliases, *trait_env),
{
    check_contracts(&program.contracts, aliases, type_defs, std_types)?;
    check_resources(&program.resources, aliases, type_defs, std_types)?;
    check_structs(&program.structs, aliases, type_defs, trait_env, std_types)?;
    check_enums(&program.enums, aliases, type_defs, trait_env, std_types)?;
    check_aliases(&program.refined_aliases, aliases, type_defs, std_types)?;
    check_funcs(&program.funcs, aliases, type_defs, trait_env, std_types)
}

} // verus!
