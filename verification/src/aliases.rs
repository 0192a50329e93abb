use vstd::prelude::*;
use crate::ast::{copy_expr, same_expr, Program, RefinedAliasDecl};
use crate::collections::{collection_error, contains_named_resource, ensure_no_resource_collections, has_resource, resource_collection};
use crate::env::{enum_names, find_enum, find_struct, struct_names, TypeDefs};
use crate::type_defs::refined_alias_names;
use crate::equatable::{ensure_equatable_collection_keys, non_equatable_key, CollectionKeyError};
use crate::errors::{at_span, TyperError};
use crate::names::{names_view, NameSet};
use crate::ty::{Span, Ty, Type};
use crate::type_resolve::{is_cyclic_alias_error, resolve, resolve_aliases, AliasDef, AliasMap, AliasV};

verus! {

/// Why a refined alias declaration was refused.
pub enum AliasFault {
    /// The alias declares type parameters.
    Generic(Seq<char>, Span),
    /// The name is already an alias, a struct or an enum.
    Duplicate(Seq<char>, Span),
    /// The name is a resource's.
    ConflictsWithResource(Seq<char>, Span),
    /// Expanding the base ran into a cycle through this alias, declared at this span.
    Cycle(Seq<char>, Span),
    /// The expanded base holds a resource.
    RefinedResource(Seq<char>, Span),
    /// The expanded base puts a resource in a collection.
    ResourceCollection(Ty, Span),
    /// The expanded base has a set element or map key type that cannot be compared.
    NonEquatable(Ty, Span),
}

/// What one declaration does to the aliases declared before it: it is
/// refused, or its base, with every earlier alias expanded, is added under
/// its name.
pub open spec fn alias_step(a: RefinedAliasDecl, m: Map<Seq<char>, AliasV>, td: TypeDefs) -> Result<Map<Seq<char>, AliasV>, AliasFault> {
    let name = a.name@;
    let res = td.resources@;
    if a.type_params@.len() > 0 {
        Err(AliasFault::Generic(name, a.span))
    } else if m.contains_key(name) {
        Err(AliasFault::Duplicate(name, a.name_span))
    } else if res.contains(name) {
        Err(AliasFault::ConflictsWithResource(name, a.name_span))
    } else if struct_names(td.structs@).contains(name) || enum_names(td.enums@).contains(name) {
        Err(AliasFault::Duplicate(name, a.name_span))
    } else {
        match resolve(a.base@, m, Seq::empty(), Set::empty()) {
            Err(x) => Err(AliasFault::Cycle(x, m[x].span)),
            Ok(b) => if has_resource(b, res, Set::empty()) {
                Err(AliasFault::RefinedResource(name, a.span))
            } else {
                match resource_collection(b, res, Set::empty()) {
                    Some(found) => Err(AliasFault::ResourceCollection(found, a.span)),
                    None => match non_equatable_key(b, td, m, Set::empty(), Set::empty(), Set::empty()) {
                        Err(x) => Err(AliasFault::Cycle(x, m[x].span)),
                        Ok(Some(k)) => Err(AliasFault::NonEquatable(k, a.span)),
                        Ok(None) => Ok(m.insert(name, AliasV { type_params: Seq::empty(), base: b, span: a.span })),
                    },
                }
            },
        }
    }
}

/// The aliases that the first `n` declarations define, or the first refusal.
pub open spec fn alias_fold(als: Seq<RefinedAliasDecl>, n: nat, td: TypeDefs) -> Result<Map<Seq<char>, AliasV>, AliasFault>
    decreases n,
{
    if n == 0 {
        Ok(Map::empty())
    } else {
        match alias_fold(als, (n - 1) as nat, td) {
            Err(f) => Err(f),
            Ok(m) => alias_step(als[n - 1], m, td),
        }
    }
}

/// A refusal stands, whatever declarations follow.
proof fn lemma_fold_err_stays(als: Seq<RefinedAliasDecl>, n: nat, m: nat, td: TypeDefs)
    requires
        n <= m,
        alias_fold(als, n, td) is Err,
    ensures
        alias_fold(als, m, td) == alias_fold(als, n, td),
    decreases m - n,
{
    if n < m {
        lemma_fold_err_stays(als, n, (m - 1) as nat, td);
    }
}

/// The aliases that a run of declarations defines are exactly the names
/// declared, and none of them is the name of a resource, a struct or an enum.
pub proof fn lemma_alias_names(als: Seq<RefinedAliasDecl>, n: nat, td: TypeDefs)
    requires
        n <= als.len(),
        alias_fold(als, n, td) is Ok,
    ensures
        alias_fold(als, n, td)->Ok_0.dom() == refined_alias_names(als.take(n as int)),
        forall|k: Seq<char>| #[trigger] alias_fold(als, n, td)->Ok_0.contains_key(k) ==> !td.resources@.contains(k)
            && !struct_names(td.structs@).contains(k) && !enum_names(td.enums@).contains(k),
    decreases n,
{
    if n == 0 {
        assert(refined_alias_names(als.take(0)) =~= Set::<Seq<char>>::empty());
        assert(alias_fold(als, 0, td)->Ok_0.dom() =~= Set::<Seq<char>>::empty());
    } else {
        let p = (n - 1) as nat;
        lemma_alias_names(als, p, td);
        let a = als[p as int];
        let before = refined_alias_names(als.take(p as int));
        let after = refined_alias_names(als.take(n as int));
        assert forall|k: Seq<char>| #[trigger] after.contains(k) <==> before.insert(a.name@).contains(k) by {
            if after.contains(k) {
                let j = choose|j: int| 0 <= j < als.take(n as int).len() && (#[trigger] als.take(n as int)[j]).name@ == k;
                if j < p {
                    assert(als.take(p as int)[j] == als.take(n as int)[j]);
                }
            }
            if before.contains(k) {
                let j = choose|j: int| 0 <= j < als.take(p as int).len() && (#[trigger] als.take(p as int)[j]).name@ == k;
                assert(als.take(n as int)[j] == als.take(p as int)[j]);
            }
            if k == a.name@ {
                assert(als.take(n as int)[p as int] == a);
            }
        }
        assert(after =~= before.insert(a.name@));
    }
}

/// The binder's name, if any.
pub open spec fn binder_view(b: Option<String>) -> Option<Seq<char>> {
    match b {
        Some(n) => Some(n@),
        None => None,
    }
}

/// The stored alias carries the declaration's refinement: the same binder
/// and a copy of its predicate.
pub open spec fn refinement_kept(a: RefinedAliasDecl, d: AliasDef) -> bool {
    same_expr(a.predicate, d.predicate) && binder_view(d.binder) == binder_view(a.binder)
}

/// Why the refined aliases were refused.
#[derive(Debug)]
pub enum AliasMapError {
    GenericAlias { name: String, span: Span },
    Typer(TyperError),
    NonEquatableKey { offending: Type, span: Option<Span> },
}

/// `e` reports the fault `f`.
pub open spec fn reports_alias_fault(e: AliasMapError, f: AliasFault) -> bool {
    match f {
        AliasFault::Generic(n, s) => e matches AliasMapError::GenericAlias { name, span } && name@ == n && span == s,
        AliasFault::Duplicate(n, s) => e matches AliasMapError::Typer(t) && t.code@ == "T701"@
            && t.message@ == at_span(s) + "duplicate type `"@ + n + "`"@ && t.start == s.start && t.end == s.end,
        AliasFault::ConflictsWithResource(n, s) => e matches AliasMapError::Typer(t) && t.code@ == "T702"@
            && t.message@ == at_span(s) + "type `"@ + n + "` conflicts with an existing resource name"@
            && t.start == s.start && t.end == s.end,
        AliasFault::Cycle(x, s) => e matches AliasMapError::Typer(t) && is_cyclic_alias_error(t, x, s),
        AliasFault::RefinedResource(n, s) => e matches AliasMapError::Typer(t) && t.code@ == "T706"@
            && t.message@ == at_span(s) + "refined alias `"@ + n + "` cannot wrap resource types yet"@
            && t.start == s.start && t.end == s.end,
        AliasFault::ResourceCollection(found, s) => e matches AliasMapError::Typer(t) && collection_error(t, found, Some(s)),
        AliasFault::NonEquatable(k, s) => e matches AliasMapError::NonEquatableKey { offending, span } && offending@ == k && span == Some(s),
    }
}

/// Checks one declaration against the aliases before it and adds it (see
/// `alias_step`).
fn add_alias(a: &RefinedAliasDecl, aliases: &mut AliasMap, type_defs: &TypeDefs) -> (r: Result<(), AliasMapError>)
    ensures
        match alias_step(*a, old(aliases)@, *type_defs) {
            Ok(m) => r is Ok && final(aliases)@ == m,
            Err(f) => r matches Err(e) && reports_alias_fault(e, f),
        },
        r is Ok ==> refinement_kept(*a, final(aliases).value_of(a.name@)),
        r is Ok ==> forall|k: Seq<char>| k != a.name@ ==> #[trigger] final(aliases).value_of(k) == old(aliases).value_of(k),
{
    let empty = NameSet::new();
    if a.type_params.len() > 0 {
        return Err(AliasMapError::GenericAlias { name: a.name.clone(), span: a.span });
    }
    if aliases.contains_key(a.name.as_str()) {
        return Err(AliasMapError::Typer(TyperError::duplicate_type(a.name.as_str(), a.name_span)));
    }
    if type_defs.resources.contains(a.name.as_str()) {
        return Err(AliasMapError::Typer(TyperError::type_conflicts_with_resource(a.name.as_str(), a.name_span)));
    }
    let in_structs = find_struct(&type_defs.structs, a.name.as_str()).is_some();
    let in_enums = find_enum(&type_defs.enums, a.name.as_str()).is_some();
    if in_structs || in_enums {
        return Err(AliasMapError::Typer(TyperError::duplicate_type(a.name.as_str(), a.name_span)));
    }
    let mut visiting: Vec<String> = Vec::new();
    assert(names_view(visiting@) =~= Seq::<Seq<char>>::empty());
    let resolved = match resolve_aliases(&a.base, aliases, &mut visiting, &empty) {
        Ok(t) => t,
        Err(e) => return Err(AliasMapError::Typer(e)),
    };
    if contains_named_resource(&resolved, &type_defs.resources, &empty) {
        return Err(AliasMapError::Typer(TyperError::refined_resource_not_supported(a.name.as_str(), a.span)));
    }
    if let Err(e) = ensure_no_resource_collections(&resolved, Some(a.span), &type_defs.resources, &empty) {
        return Err(AliasMapError::Typer(e));
    }
    match ensure_equatable_collection_keys(&resolved, Some(a.span), type_defs, aliases, &empty) {
        Ok(()) => {},
        Err(CollectionKeyError::Typer(e)) => return Err(AliasMapError::Typer(e)),
        Err(CollectionKeyError::NonEquatableKey { offending, span }) => return Err(AliasMapError::NonEquatableKey { offending, span }),
    }
    let binder = match &a.binder {
        Some(b) => Some(b.clone()),
        None => None,
    };
    let def = AliasDef { type_params: Vec::new(), base: resolved, predicate: copy_expr(&a.predicate), binder, span: a.span };
    assert(names_view(def.type_params@) =~= Seq::<Seq<char>>::empty());
    aliases.insert(a.name.clone(), def);
    Ok(())
}

/// Builds the refined aliases of a program, in declaration order: each must
/// be non-generic and take a fresh name (not an earlier alias's, a
/// resource's, a struct's or an enum's); its base is stored with the earlier
/// aliases expanded, and must hold no resource, put none in a collection,
/// and key sets and maps by comparable types (see `alias_step`).
pub fn build_alias_map(program: &Program, type_defs: &TypeDefs) -> (r: Result<AliasMap, AliasMapError>)
    ensures
        match alias_fold(program.refined_aliases@, program.refined_aliases@.len(), *type_defs) {
            Ok(m) => r matches Ok(a) && a@ == m,
            Err(f) => r matches Err(e) && reports_alias_fault(e, f),
        },
        r matches Ok(a) ==> forall|i: int| 0 <= i < program.refined_aliases@.len()
            ==> #[trigger] refinement_kept(program.refined_aliases@[i], a.value_of(program.refined_aliases@[i].name@)),
{
    let als = &program.refined_aliases;
    let mut aliases = AliasMap::new();
    let mut i: usize = 0;
    while i < als.len()
        invariant
            i <= als@.len(),
            als == &program.refined_aliases,
            alias_fold(als@, i as nat, *type_defs) == Ok::<Map<Seq<char>, AliasV>, AliasFault>(aliases@),
            forall|j: int| 0 <= j < i ==> #[trigger] refinement_kept(als@[j], aliases.value_of(als@[j].name@)),
        decreases als.len() - i,
    {
        proof {
            lemma_alias_names(als@, i as nat, *type_defs);
        }
        let ghost before = aliases;
        assert(alias_fold(als@, (i + 1) as nat, *type_defs) == alias_step(als@[i as int], aliases@, *type_defs));
        if let Err(e) = add_alias(&als[i], &mut aliases, type_defs) {
            proof {
                lemma_fold_err_stays(als@, (i + 1) as nat, als@.len(), *type_defs);
            }
            return Err(e);
        }
        proof {
            assert forall|j: int| 0 <= j < i + 1 implies #[trigger] refinement_kept(als@[j], aliases.value_of(als@[j].name@)) by {
                if j < i {
                    assert(als@.take(i as int)[j] == als@[j]);
                    assert(refined_alias_names(als@.take(i as int)).contains(als@[j].name@));
                    assert(before@.contains_key(als@[j].name@));
                    assert(!before@.contains_key(als@[i as int].name@));
                }
            }
        }
        i = i + 1;
    }
    Ok(aliases)
}

} // verus!
