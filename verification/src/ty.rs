use vstd::prelude::*;

verus! {

/// A half-open source range.
#[derive(Clone, Copy, Debug, PartialEq, Eq, Structural)]
pub struct Span {
    pub start: usize,
    pub end: usize,
}

impl View for Span {
    type V = Span;

    open spec fn view(&self) -> Span {
        *self
    }
}

/// The declared effect of a function.
#[derive(Clone, Copy, Debug, PartialEq, Eq, Structural)]
pub enum Effect {
    Omitted,
    Pure,
    Mut,
    Io,
}

/// How a parameter is passed.
#[derive(Clone, Copy, Debug, PartialEq, Eq, Structural)]
pub enum ParamKind {
    Borrow,
    Consume,
}

/// Surface types of the language.
#[derive(Debug)]
pub enum Type {
    Int,
    U8,
    U64,
    U128,
    U256,
    Bool,
    String,
    Bytes,
    Named { name: String, args: Vec<Type> },
    Option(Box<Type>),
    Result(Box<Type>, Box<Type>),
    List(Box<Type>),
    SetOf(Box<Type>),
    MapOf(Box<Type>, Box<Type>),
    Array(Box<Type>, Option<u32>),
    Slice(Box<Type>),
    Tuple(Vec<Type>),
    Fn { params: Vec<Type>, ret: Box<Type> },
}

/// Mathematical model of a `Type`: names become character sequences and
/// argument lists become sequences.
pub enum Ty {
    Int,
    U8,
    U64,
    U128,
    U256,
    Bool,
    Str,
    Bytes,
    Named { name: Seq<char>, args: Seq<Ty> },
    Option(Box<Ty>),
    Result(Box<Ty>, Box<Ty>),
    List(Box<Ty>),
    SetOf(Box<Ty>),
    MapOf(Box<Ty>, Box<Ty>),
    Array(Box<Ty>, Option<u32>),
    Slice(Box<Ty>),
    Tuple(Seq<Ty>),
    Fn { params: Seq<Ty>, ret: Box<Ty> },
}

/// A function parameter.
#[derive(Debug)]
pub struct Param {
    pub kind: ParamKind,
    pub name: String,
    pub ty: Type,
}

/// Model of a parameter.
pub struct ParamV {
    pub kind: ParamKind,
    pub name: Seq<char>,
    pub ty: Ty,
}

impl View for Param {
    type V = ParamV;

    open spec fn view(&self) -> ParamV {
        ParamV { kind: self.kind, name: self.name@, ty: self.ty@ }
    }
}

pub open spec fn params_view(s: Seq<Param>) -> Seq<ParamV> {
    s.map_values(|p: Param| p@)
}

pub open spec fn types_view(s: Seq<Type>) -> Seq<Ty>
    decreases s, 0nat,
{
    Seq::new(s.len(), |i: int| if 0 <= i < s.len() { type_view(s[i]) } else { Ty::Int })
}

pub open spec fn type_view(t: Type) -> Ty
    decreases t, 1nat,
{
    match t {
        Type::Int => Ty::Int,
        Type::U8 => Ty::U8,
        Type::U64 => Ty::U64,
        Type::U128 => Ty::U128,
        Type::U256 => Ty::U256,
        Type::Bool => Ty::Bool,
        Type::String => Ty::Str,
        Type::Bytes => Ty::Bytes,
        Type::Named { name, args } => Ty::Named { name: name@, args: types_view(args@) },
        Type::Option(inner) => Ty::Option(Box::new(type_view(*inner))),
        Type::Result(ok, err) => Ty::Result(Box::new(type_view(*ok)), Box::new(type_view(*err))),
        Type::List(inner) => Ty::List(Box::new(type_view(*inner))),
        Type::SetOf(inner) => Ty::SetOf(Box::new(type_view(*inner))),
        Type::MapOf(k, v) => Ty::MapOf(Box::new(type_view(*k)), Box::new(type_view(*v))),
        Type::Array(inner, len) => Ty::Array(Box::new(type_view(*inner)), len),
        Type::Slice(inner) => Ty::Slice(Box::new(type_view(*inner))),
        Type::Tuple(elems) => Ty::Tuple(types_view(elems@)),
        Type::Fn { params, ret } => Ty::Fn { params: types_view(params@), ret: Box::new(type_view(*ret)) },
    }
}

impl View for Type {
    type V = Ty;

    open spec fn view(&self) -> Ty {
        type_view(*self)
    }
}


pub proof fn lemma_types_view_index(s: Seq<Type>, i: int)
    requires
        0 <= i < s.len(),
    ensures
        types_view(s).len() == s.len(),
        types_view(s)[i] == type_view(s[i]),
{
}

/// A structural copy of a type.
pub fn copy_type(t: &Type) -> (r: Type)
    ensures
        r@ == t@,
    decreases t, 1nat,
{
    match t {
        Type::Int => Type::Int,
        Type::U8 => Type::U8,
        Type::U64 => Type::U64,
        Type::U128 => Type::U128,
        Type::U256 => Type::U256,
        Type::Bool => Type::Bool,
        Type::String => Type::String,
        Type::Bytes => Type::Bytes,
        Type::Named { name, args } => Type::Named { name: name.clone(), args: copy_types(args) },
        Type::Option(inner) => Type::Option(Box::new(copy_type(inner))),
        Type::Result(ok, err) => Type::Result(Box::new(copy_type(ok)), Box::new(copy_type(err))),
        Type::List(inner) => Type::List(Box::new(copy_type(inner))),
        Type::SetOf(inner) => Type::SetOf(Box::new(copy_type(inner))),
        Type::MapOf(k, v) => Type::MapOf(Box::new(copy_type(k)), Box::new(copy_type(v))),
        Type::Array(inner, len) => Type::Array(Box::new(copy_type(inner)), *len),
        Type::Slice(inner) => Type::Slice(Box::new(copy_type(inner))),
        Type::Tuple(elems) => Type::Tuple(copy_types(elems)),
        Type::Fn { params, ret } => Type::Fn { params: copy_types(params), ret: Box::new(copy_type(ret)) },
    }
}

/// A structural copy of a list of types.
impl Clone for Param {
    /// An independent copy of the parameter.
    fn clone(&self) -> (r: Self)
        ensures
            r@ == self@,
    {
        Param { kind: self.kind, name: self.name.clone(), ty: copy_type(&self.ty) }
    }
}

pub fn copy_types(v: &Vec<Type>) -> (r: Vec<Type>)
    ensures
        types_view(r@) == types_view(v@),
    decreases v, 0nat,
{
    let mut out: Vec<Type> = Vec::new();
    let mut i: usize = 0;
    while i < v.len()
        invariant
            i <= v.len(),
            out@.len() == i,
            forall|j: int| 0 <= j < i ==> type_view(#[trigger] out@[j]) == type_view(v@[j]),
        decreases v.len() - i,
    {
        assert(decreases_to!(v => v@[i as int]));
        let c = copy_type(&v[i]);
        out.push(c);
        i = i + 1;
    }
    assert(types_view(out@) =~= types_view(v@));
    out
}

/// Structural equality of two types.
pub fn type_eq(a: &Type, b: &Type) -> (r: bool)
    ensures
        r == (a@ == b@),
    decreases a, 1nat,
{
    match (a, b) {
        (Type::Int, Type::Int) => true,
        (Type::U8, Type::U8) => true,
        (Type::U64, Type::U64) => true,
        (Type::U128, Type::U128) => true,
        (Type::U256, Type::U256) => true,
        (Type::Bool, Type::Bool) => true,
        (Type::String, Type::String) => true,
        (Type::Bytes, Type::Bytes) => true,
        (Type::Named { name: n1, args: a1 }, Type::Named { name: n2, args: a2 }) => {
            *n1 == *n2 && types_eq(a1, a2)
        },
        (Type::Option(x), Type::Option(y)) => type_eq(x, y),
        (Type::Result(x1, x2), Type::Result(y1, y2)) => type_eq(x1, y1) && type_eq(x2, y2),
        (Type::List(x), Type::List(y)) => type_eq(x, y),
        (Type::SetOf(x), Type::SetOf(y)) => type_eq(x, y),
        (Type::MapOf(x1, x2), Type::MapOf(y1, y2)) => type_eq(x1, y1) && type_eq(x2, y2),
        (Type::Array(x, l1), Type::Array(y, l2)) => {
            let same_len = match (l1, l2) {
                (None, None) => true,
                (Some(p), Some(q)) => *p == *q,
                _ => false,
            };
            same_len && type_eq(x, y)
        },
        (Type::Slice(x), Type::Slice(y)) => type_eq(x, y),
        (Type::Tuple(x), Type::Tuple(y)) => types_eq(x, y),
        (Type::Fn { params: p1, ret: r1 }, Type::Fn { params: p2, ret: r2 }) => {
            types_eq(p1, p2) && type_eq(r1, r2)
        },
        _ => false,
    }
}

/// Element-wise structural equality of two type lists.
pub fn types_eq(a: &Vec<Type>, b: &Vec<Type>) -> (r: bool)
    ensures
        r == (types_view(a@) == types_view(b@)),
    decreases a, 0nat,
{
    if a.len() != b.len() {
        proof {
            assert(types_view(a@).len() != types_view(b@).len());
        }
        return false;
    }
    let mut i: usize = 0;
    while i < a.len()
        invariant
            i <= a.len(),
            a.len() == b.len(),
            forall|j: int| 0 <= j < i ==> type_view(#[trigger] a@[j]) == type_view(b@[j]),
        decreases a.len() - i,
    {
        assert(decreases_to!(a => a@[i as int]));
        if !type_eq(&a[i], &b[i]) {
            proof {
                assert(types_view(a@)[i as int] != types_view(b@)[i as int]);
            }
            return false;
        }
        i = i + 1;
    }
    assert(types_view(a@) =~= types_view(b@));
    true
}

} // verus!
