use vstd::prelude::*;
use crate::effects::EffectLevel;
use crate::names::{names_view, NameMap, NameSet};
use crate::ty::{params_view, Effect, Param, ParamV, Span, Ty, Type};
use crate::ast::{EnumDecl, Func, StructDecl};
use crate::text::str_eq;

verus! {

/// A declared type parameter.
#[derive(Debug)]
pub struct TypeParam {
    pub name: String,
    pub span: Span,
}

/// A `where` bound `param: Trait`.
#[derive(Debug)]
pub struct TraitBound {
    pub param: String,
    pub trait_name: String,
    pub span: Span,
}

pub struct TraitBoundV {
    pub param: Seq<char>,
    pub trait_name: Seq<char>,
}

impl View for TraitBound {
    type V = TraitBoundV;

    open spec fn view(&self) -> TraitBoundV {
        TraitBoundV { param: self.param@, trait_name: self.trait_name@ }
    }
}

/// The signature of a callable function.
#[derive(Debug)]
pub struct FnSig {
    pub params: Vec<Param>,
    pub ret: Type,
    pub effect: EffectLevel,
    pub type_params: Vec<String>,
    pub bounds: Vec<TraitBound>,
}

pub struct FnSigV {
    pub params: Seq<ParamV>,
    pub ret: Ty,
    pub effect: EffectLevel,
    pub type_params: Seq<Seq<char>>,
    pub bounds: Seq<TraitBoundV>,
}

impl View for FnSig {
    type V = FnSigV;

    open spec fn view(&self) -> FnSigV {
        FnSigV {
            params: params_view(self.params@),
            ret: self.ret@,
            effect: self.effect,
            type_params: names_view(self.type_params@),
            bounds: self.bounds@.map_values(|b: TraitBound| b@),
        }
    }
}

/// A method declared by a trait.
#[derive(Debug)]
pub struct TraitMethod {
    pub name: String,
    pub params: Vec<Param>,
    pub ret: Type,
    pub effect: Effect,
    pub span: Span,
}

pub struct TraitMethodV {
    pub params: Seq<ParamV>,
    pub ret: Ty,
    pub effect: Effect,
}

impl View for TraitMethod {
    type V = TraitMethodV;

    open spec fn view(&self) -> TraitMethodV {
        TraitMethodV { params: params_view(self.params@), ret: self.ret@, effect: self.effect }
    }
}

/// A trait and its methods by name.
#[derive(Debug)]
pub struct TraitInfo {
    pub methods: NameMap<TraitMethod>,
}

impl View for TraitInfo {
    type V = Map<Seq<char>, TraitMethodV>;

    open spec fn view(&self) -> Map<Seq<char>, TraitMethodV> {
        self.methods@
    }
}

/// An implementation of a trait for a type.
#[derive(Debug)]
pub struct ImplDecl {
    pub trait_name: String,
    pub trait_name_span: Span,
    pub type_params: Vec<TypeParam>,
    pub for_type: Type,
    pub where_bounds: Vec<TraitBound>,
    pub methods: Vec<Func>,
    pub span: Span,
}

/// A checked implementation.
#[derive(Debug)]
pub struct ImplInfo {
    pub decl: ImplDecl,
}

/// The traits of a program and their implementations.
#[derive(Debug)]
pub struct TraitEnv {
    pub traits: NameMap<TraitInfo>,
    pub impls: Vec<ImplInfo>,
}

/// The user-declared types: resource names, and the struct and enum
/// declarations.
#[derive(Debug)]
pub struct TypeDefs {
    pub resources: NameSet,
    pub structs: Vec<StructDecl>,
    pub enums: Vec<EnumDecl>,
}

/// The names of the struct declarations.
pub open spec fn struct_names(s: Seq<StructDecl>) -> Set<Seq<char>> {
    Set::new(|n: Seq<char>| exists|i: int| 0 <= i < s.len() && (#[trigger] s[i]).name@ == n)
}

/// The names of the enum declarations.
pub open spec fn enum_names(s: Seq<EnumDecl>) -> Set<Seq<char>> {
    Set::new(|n: Seq<char>| exists|i: int| 0 <= i < s.len() && (#[trigger] s[i]).name@ == n)
}

/// The first struct declaration named `n`.
pub open spec fn struct_index(s: Seq<StructDecl>, n: Seq<char>) -> Option<int> {
    if struct_names(s).contains(n) {
        Some(choose|i: int| 0 <= i < s.len() && s[i].name@ == n && forall|j: int| 0 <= j < i ==> (#[trigger] s[j]).name@ != n)
    } else {
        None
    }
}

/// The first enum declaration named `n`.
pub open spec fn enum_index(s: Seq<EnumDecl>, n: Seq<char>) -> Option<int> {
    if enum_names(s).contains(n) {
        Some(choose|i: int| 0 <= i < s.len() && s[i].name@ == n && forall|j: int| 0 <= j < i ==> (#[trigger] s[j]).name@ != n)
    } else {
        None
    }
}

/// Looks up the first struct declaration named `name`.
pub fn find_struct(structs: &Vec<StructDecl>, name: &str) -> (r: Option<usize>)
    ensures
        match r {
            Some(i) => i < structs@.len() && structs@[i as int].name@ == name@ && struct_index(structs@, name@) == Some(i as int),
            None => struct_index(structs@, name@) is None,
        },
{
    let mut i: usize = 0;
    while i < structs.len()
        invariant
            i <= structs@.len(),
            forall|j: int| 0 <= j < i ==> (#[trigger] structs@[j]).name@ != name@,
        decreases structs.len() - i,
    {
        if str_eq(structs[i].name.as_str(), name) {
            proof {
                assert(struct_names(structs@).contains(name@));
                let k = struct_index(structs@, name@)->Some_0;
                assert(k == i as int) by {
                    if k < i {
                    } else if k > i {
                    }
                }
            }
            return Some(i);
        }
        i = i + 1;
    }
    proof {
        if struct_names(structs@).contains(name@) {
            let j = choose|j: int| 0 <= j < structs@.len() && (#[trigger] structs@[j]).name@ == name@;
        }
    }
    None
}

/// Looks up the first enum declaration named `name`.
pub fn find_enum(enums: &Vec<EnumDecl>, name: &str) -> (r: Option<usize>)
    ensures
        match r {
            Some(i) => i < enums@.len() && enums@[i as int].name@ == name@ && enum_index(enums@, name@) == Some(i as int),
            None => enum_index(enums@, name@) is None,
        },
{
    let mut i: usize = 0;
    while i < enums.len()
        invariant
            i <= enums@.len(),
            forall|j: int| 0 <= j < i ==> (#[trigger] enums@[j]).name@ != name@,
        decreases enums.len() - i,
    {
        if str_eq(enums[i].name.as_str(), name) {
            proof {
                assert(enum_names(enums@).contains(name@));
                let k = enum_index(enums@, name@)->Some_0;
                assert(k == i as int) by {
                    if k < i {
                    } else if k > i {
                    }
                }
            }
            return Some(i);
        }
        i = i + 1;
    }
    proof {
        if enum_names(enums@).contains(name@) {
            let j = choose|j: int| 0 <= j < enums@.len() && (#[trigger] enums@[j]).name@ == name@;
        }
    }
    None
}

} // verus!
