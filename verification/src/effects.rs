use vstd::prelude::*;
use crate::ty::Effect;
use crate::text::str_eq;

verus! {

/// The effect lattice `Pure < Mut < Io`.
#[derive(Clone, Copy, Debug, PartialEq, Eq, PartialOrd, Ord, Structural)]
pub enum EffectLevel {
    Pure,
    Mut,
    Io,
}

impl View for EffectLevel {
    type V = EffectLevel;

    open spec fn view(&self) -> EffectLevel {
        *self
    }
}

/// The position of a level in the lattice.
pub open spec fn rank(level: EffectLevel) -> nat {
    match level {
        EffectLevel::Pure => 0,
        EffectLevel::Mut => 1,
        EffectLevel::Io => 2,
    }
}

/// The least upper bound of two levels.
pub open spec fn join_spec(a: EffectLevel, b: EffectLevel) -> EffectLevel {
    if rank(a) >= rank(b) { a } else { b }
}

impl EffectLevel {
    /// The position of the level in the lattice.
    pub fn rank(self) -> (r: u8)
        ensures
            r == rank(self),
    {
        match self {
            EffectLevel::Pure => 0,
            EffectLevel::Mut => 1,
            EffectLevel::Io => 2,
        }
    }

    /// The least upper bound of two levels.
    pub fn join(self, other: EffectLevel) -> (r: EffectLevel)
        ensures
            r == join_spec(self, other),
    {
        if self.rank() >= other.rank() {
            self
        } else {
            other
        }
    }
}

/// `join` is the least upper bound: it is above both arguments and below
/// every common upper bound; it is commutative, associative and idempotent.
pub proof fn lemma_join_lattice(a: EffectLevel, b: EffectLevel, c: EffectLevel)
    ensures
        rank(join_spec(a, b)) >= rank(a),
        rank(join_spec(a, b)) >= rank(b),
        rank(a) <= rank(c) && rank(b) <= rank(c) ==> rank(join_spec(a, b)) <= rank(c),
        join_spec(a, b) == join_spec(b, a),
        join_spec(join_spec(a, b), c) == join_spec(a, join_spec(b, c)),
        join_spec(a, a) == a,
        join_spec(EffectLevel::Pure, a) == a,
{
}

/// The keyword of a level.
pub open spec fn effect_label_spec(level: EffectLevel) -> Seq<char> {
    match level {
        EffectLevel::Pure => "pure"@,
        EffectLevel::Mut => "mut"@,
        EffectLevel::Io => "io"@,
    }
}

pub fn effect_label(level: EffectLevel) -> (r: &'static str)
    ensures
        r@ == effect_label_spec(level),
{
    match level {
        EffectLevel::Pure => "pure",
        EffectLevel::Mut => "mut",
        EffectLevel::Io => "io",
    }
}

/// The level of a declared effect; an omitted effect is pure.
pub open spec fn level_of(effect: Effect) -> EffectLevel {
    match effect {
        Effect::Omitted | Effect::Pure => EffectLevel::Pure,
        Effect::Mut => EffectLevel::Mut,
        Effect::Io => EffectLevel::Io,
    }
}

pub fn level_from_effect(effect: Effect) -> (r: EffectLevel)
    ensures
        r == level_of(effect),
{
    match effect {
        Effect::Omitted | Effect::Pure => EffectLevel::Pure,
        Effect::Mut => EffectLevel::Mut,
        Effect::Io => EffectLevel::Io,
    }
}

/// Builtins that mutate the collection they are given.
pub open spec fn is_mut_collection_builtin(s: Seq<char>) -> bool {
    s == "std::list::push_mut"@ || s == "std::list::insert_mut"@ || s == "std::list::remove_mut"@
        || s == "std::list::pop_mut"@ || s == "std::set::insert_mut"@ || s == "std::set::remove_mut"@
        || s == "std::map::insert_mut"@ || s == "std::map::remove_mut"@
}

/// The fixed effect of a builtin callee, if it has one.
pub open spec fn builtin_effect_spec(s: Seq<char>) -> Option<EffectLevel> {
    if is_mut_collection_builtin(s) {
        Some(EffectLevel::Mut)
    } else if s == "Some"@ || s == "None"@ || s == "Ok"@ || s == "Err"@ || s == "U8"@ || s == "U64"@
        || s == "U128"@ || s == "U256"@ || s == "std::list::push"@ || s == "std::list::insert"@
        || s == "std::list::insert_checked"@ || s == "std::list::remove_take"@
        || s == "std::list::remove_checked"@ || s == "std::map::insert_take"@ || s == "std::map::remove_take"@ {
        Some(EffectLevel::Pure)
    } else if s == "std::wasi::print"@ || s == "std::env::time"@ || s == "std::env::chain_id"@
        || s == "std::env::random"@ {
        Some(EffectLevel::Io)
    } else {
        None
    }
}

pub fn builtin_effect(callee: &str) -> (r: Option<EffectLevel>)
    ensures
        r == builtin_effect_spec(callee@),
{
    if str_eq(callee, "std::list::push_mut") || str_eq(callee, "std::list::insert_mut")
        || str_eq(callee, "std::list::remove_mut") || str_eq(callee, "std::list::pop_mut")
        || str_eq(callee, "std::set::insert_mut") || str_eq(callee, "std::set::remove_mut")
        || str_eq(callee, "std::map::insert_mut") || str_eq(callee, "std::map::remove_mut") {
        return Some(EffectLevel::Mut);
    }
    if str_eq(callee, "Some") || str_eq(callee, "None") || str_eq(callee, "Ok") || str_eq(callee, "Err")
        || str_eq(callee, "U8") || str_eq(callee, "U64") || str_eq(callee, "U128") || str_eq(callee, "U256")
        || str_eq(callee, "std::list::push") || str_eq(callee, "std::list::insert")
        || str_eq(callee, "std::list::insert_checked") || str_eq(callee, "std::list::remove_take")
        || str_eq(callee, "std::list::remove_checked") || str_eq(callee, "std::map::insert_take")
        || str_eq(callee, "std::map::remove_take") {
        return Some(EffectLevel::Pure);
    }
    if str_eq(callee, "std::wasi::print") || str_eq(callee, "std::env::time")
        || str_eq(callee, "std::env::chain_id") || str_eq(callee, "std::env::random") {
        return Some(EffectLevel::Io);
    }
    None
}

} // verus!
