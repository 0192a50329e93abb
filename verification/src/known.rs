use vstd::prelude::*;
use crate::env::{enum_index, enum_names, find_enum, find_struct, struct_index, struct_names, TypeDefs};
use crate::names::{NameMap, NameSet};
use crate::ty::{types_view, Span, Ty, Type};
use crate::type_resolve::{AliasMap, AliasV};

verus! {

/// Layout of a type that the standard library provides.
#[derive(Clone, Copy, Debug, PartialEq, Eq, Structural)]
pub struct StdTypeInfo {
    pub byte_len: u32,
    pub align: u32,
}

impl View for StdTypeInfo {
    type V = StdTypeInfo;

    open spec fn view(&self) -> StdTypeInfo {
        *self
    }
}

/// The standard library's types, by name.
pub type StdTypeMap = NameMap<StdTypeInfo>;

/// Why a type was refused as unknown or wrongly applied.
pub enum KnownFault {
    /// A type parameter was given arguments.
    ParamWithArgs(Seq<char>),
    /// A named type was given the wrong number of arguments.
    ArgCount(Seq<char>, nat, nat),
    /// No type of that name is declared.
    Unknown(Seq<char>),
}

/// The first problem with the names in `t`, left to right: every name must
/// be a type parameter (used bare), an alias, struct or enum applied to as
/// many arguments as it declares, or a resource or standard type used bare.
pub open spec fn known_fault(t: Ty, al: Map<Seq<char>, AliasV>, td: TypeDefs, tp: Set<Seq<char>>, std: Set<Seq<char>>) -> Option<KnownFault>
    decreases t, 1nat,
{
    match t {
        Ty::Named { name, args } => if tp.contains(name) {
            if args.len() > 0 { Some(KnownFault::ParamWithArgs(name)) } else { None }
        } else if al.contains_key(name) {
            if al[name].type_params.len() != args.len() {
                Some(KnownFault::ArgCount(name, al[name].type_params.len(), args.len()))
            } else {
                known_list_fault(args, al, td, tp, std)
            }
        } else if struct_names(td.structs@).contains(name) {
            let expected = td.structs@[struct_index(td.structs@, name)->Some_0].type_params@.len();
            if expected != args.len() {
                Some(KnownFault::ArgCount(name, expected, args.len()))
            } else {
                known_list_fault(args, al, td, tp, std)
            }
        } else if enum_names(td.enums@).contains(name) {
            let expected = td.enums@[enum_index(td.enums@, name)->Some_0].type_params@.len();
            if expected != args.len() {
                Some(KnownFault::ArgCount(name, expected, args.len()))
            } else {
                known_list_fault(args, al, td, tp, std)
            }
        } else if td.resources@.contains(name) || std.contains(name) {
            if args.len() > 0 { Some(KnownFault::ArgCount(name, 0, args.len())) } else { None }
        } else {
            Some(KnownFault::Unknown(name))
        },
        Ty::Option(inner) => known_fault(*inner, al, td, tp, std),
        Ty::List(inner) => known_fault(*inner, al, td, tp, std),
        Ty::SetOf(inner) => known_fault(*inner, al, td, tp, std),
        Ty::Slice(inner) => known_fault(*inner, al, td, tp, std),
        Ty::Array(inner, _) => known_fault(*inner, al, td, tp, std),
        Ty::Tuple(elems) => known_list_fault(elems, al, td, tp, std),
        Ty::Result(a, b) => match known_fault(*a, al, td, tp, std) {
            Some(f) => Some(f),
            None => known_fault(*b, al, td, tp, std),
        },
        Ty::MapOf(a, b) => match known_fault(*a, al, td, tp, std) {
            Some(f) => Some(f),
            None => known_fault(*b, al, td, tp, std),
        },
        Ty::Fn { params, ret } => match known_list_fault(params, al, td, tp, std) {
            Some(f) => Some(f),
            None => known_fault(*ret, al, td, tp, std),
        },
        _ => None,
    }
}

pub open spec fn known_list_fault(ts: Seq<Ty>, al: Map<Seq<char>, AliasV>, td: TypeDefs, tp: Set<Seq<char>>, std: Set<Seq<char>>) -> Option<KnownFault>
    decreases ts, 0nat,
{
    if ts.len() == 0 {
        None
    } else {
        match known_fault(ts[0], al, td, tp, std) {
            Some(f) => Some(f),
            None => known_list_fault(ts.drop_first(), al, td, tp, std),
        }
    }
}

/// Why a type was refused, with the span it was checked at.
#[derive(Debug)]
pub enum KnownTypeError {
    TypeParamWithArgs { name: String, span: Option<Span> },
    TypeArgCountMismatch { name: String, expected: usize, found: usize, span: Option<Span> },
    UnknownType { name: String, span: Option<Span> },
}

/// `e` reports the fault `f` at `span`.
pub open spec fn reports_known(e: KnownTypeError, f: KnownFault, span: Option<Span>) -> bool {
    match f {
        KnownFault::ParamWithArgs(n) => e matches KnownTypeError::TypeParamWithArgs { name, span: s } && name@ == n && s == span,
        KnownFault::ArgCount(n, x, y) => e matches KnownTypeError::TypeArgCountMismatch { name, expected, found, span: s }
            && name@ == n && expected == x && found == y && s == span,
        KnownFault::Unknown(n) => e matches KnownTypeError::UnknownType { name, span: s } && name@ == n && s == span,
    }
}

fn known_list(v: &Vec<Type>, aliases: &AliasMap, type_defs: &TypeDefs, type_params: &NameSet, std_types: &StdTypeMap, span: Option<Span>) -> (r: Result<(), KnownTypeError>)
    ensures
        match known_list_fault(types_view(v@), aliases@, *type_defs, type_params@, std_types@.dom()) {
            None => r is Ok,
            Some(f) => r matches Err(e) && reports_known(e, f, span),
        },
    decreases v, 0nat,
{
    let ghost tv = types_view(v@);
    let mut i: usize = 0;
    assert(tv.subrange(0, tv.len() as int) =~= tv);
    while i < v.len()
        invariant
            i <= v@.len(),
            tv == types_view(v@),
            known_list_fault(tv, aliases@, *type_defs, type_params@, std_types@.dom())
                == known_list_fault(tv.subrange(i as int, tv.len() as int), aliases@, *type_defs, type_params@, std_types@.dom()),
        decreases v.len() - i,
    {
        assert(decreases_to!(v => v@[i as int]));
        let ghost rest = tv.subrange(i as int, tv.len() as int);
        assert(rest.drop_first() =~= tv.subrange(i as int + 1, tv.len() as int));
        assert(rest[0] == v@[i as int]@);
        ensure_known_type(&v[i], aliases, type_defs, type_params, std_types, span)?;
        i = i + 1;
    }
    Ok(())
}

/// Checks that every name in `ty` is known and applied to the right number
/// of arguments (see `known_fault`); a refusal carries `span`.
pub fn ensure_known_type(ty: &Type, aliases: &AliasMap, type_defs: &TypeDefs, type_params: &NameSet, std_types: &StdTypeMap, span: Option<Span>) -> (r: Result<(), KnownTypeError>)
    ensures
        match known_fault(ty@, aliases@, *type_defs, type_params@, std_types@.dom()) {
            None => r is Ok,
            Some(f) => r matches Err(e) && reports_known(e, f, span),
        },
    decreases ty, 1nat,
{
    match ty {
        Type::Named { name, args } => {
            let n = name.as_str();
            proof {
                assert(types_view(args@).len() == args@.len());
            }
            if type_params.contains(n) {
                if args.len() > 0 {
                    return Err(KnownTypeError::TypeParamWithArgs { name: name.clone(), span });
                }
                return Ok(());
            }
            if let Some(alias) = aliases.get(n) {
                let expected = alias.type_params.len();
                proof {
                    assert(aliases@[name@].type_params.len() == expected);
                }
                if expected != args.len() {
                    return Err(KnownTypeError::TypeArgCountMismatch { name: name.clone(), expected, found: args.len(), span });
                }
                return known_list(args, aliases, type_defs, type_params, std_types, span);
            }
            if let Some(idx) = find_struct(&type_defs.structs, n) {
                let expected = type_defs.structs[idx].type_params.len();
                if expected != args.len() {
                    return Err(KnownTypeError::TypeArgCountMismatch { name: name.clone(), expected, found: args.len(), span });
                }
                return known_list(args, aliases, type_defs, type_params, std_types, span);
            }
            if let Some(idx) = find_enum(&type_defs.enums, n) {
                let expected = type_defs.enums[idx].type_params.len();
                if expected != args.len() {
                    return Err(KnownTypeError::TypeArgCountMismatch { name: name.clone(), expected, found: args.len(), span });
                }
                return known_list(args, aliases, type_defs, type_params, std_types, span);
            }
            if type_defs.resources.contains(n) || std_types.contains_key(n) {
                if args.len() > 0 {
                    return Err(KnownTypeError::TypeArgCountMismatch { name: name.clone(), expected: 0, found: args.len(), span });
                }
                return Ok(());
            }
            Err(KnownTypeError::UnknownType { name: name.clone(), span })
        },
        Type::Option(inner) | Type::List(inner) | Type::SetOf(inner) | Type::Slice(inner) => {
            ensure_known_type(inner, aliases, type_defs, type_params, std_types, span)
        },
        Type::Array(inner, _) => ensure_known_type(inner, aliases, type_defs, type_params, std_types, span),
        Type::Tuple(elems) => known_list(elems, aliases, type_defs, type_params, std_types, span),
        Type::Result(a, b) | Type::MapOf(a, b) => {
            ensure_known_type(a, aliases, type_defs, type_params, std_types, span)?;
            ensure_known_type(b, aliases, type_defs, type_params, std_types, span)
        },
        Type::Fn { params, ret } => {
            known_list(params, aliases, type_defs, type_params, std_types, span)?;
            ensure_known_type(ret, aliases, type_defs, type_params, std_types, span)
        },
        _ => Ok(()),
    }
}

} // verus!
