use vstd::prelude::*;
use std::collections::HashSet;
use crate::ast::{BinOp, Expr, UnaryOp};
use crate::text::str_eq;
use crate::ty::{Ty, Type};

verus! {

broadcast use vstd::std_specs::hash::group_hash_axioms;

/// A one-sided bound on an integer.
#[derive(Clone, Copy, Debug, PartialEq, Eq, Structural)]
pub struct IntBound {
    pub value: i64,
    pub inclusive: bool,
}

/// An atomic constraint on the refined integer.
#[derive(Clone, Copy, Debug, PartialEq, Eq, Structural)]
pub enum IntConstraint {
    Lower(IntBound),
    Upper(IntBound),
    Eq(i64),
    Neq(i64),
}

/// The values a refinement predicate and its variables can take.
pub enum Value {
    IntVal(int),
    BoolVal(bool),
}

// ---------------------------------------------------------------------------
// Bounds

pub open spec fn satisfies_lower_spec(v: int, bound: IntBound) -> bool {
    v > bound.value || (v == bound.value && bound.inclusive)
}

pub open spec fn satisfies_upper_spec(v: int, bound: IntBound) -> bool {
    v < bound.value || (v == bound.value && bound.inclusive)
}

pub open spec fn stricter_lower_spec(new: IntBound, existing: IntBound) -> bool {
    new.value > existing.value || (new.value == existing.value && !new.inclusive && existing.inclusive)
}

pub open spec fn stricter_upper_spec(new: IntBound, existing: IntBound) -> bool {
    new.value < existing.value || (new.value == existing.value && !new.inclusive && existing.inclusive)
}

/// The least `i64` above a lower bound, if any.
pub open spec fn min_from_lower_spec(bound: IntBound) -> Option<i64> {
    if bound.inclusive {
        Some(bound.value)
    } else if bound.value < i64::MAX {
        Some((bound.value + 1) as i64)
    } else {
        None
    }
}

/// The greatest `i64` below an upper bound, if any.
pub open spec fn max_from_upper_spec(bound: IntBound) -> Option<i64> {
    if bound.inclusive {
        Some(bound.value)
    } else if bound.value > i64::MIN {
        Some((bound.value - 1) as i64)
    } else {
        None
    }
}

fn stricter_lower(new: IntBound, existing: IntBound) -> (r: bool)
    ensures
        r == stricter_lower_spec(new, existing),
{
    new.value > existing.value || (new.value == existing.value && !new.inclusive && existing.inclusive)
}

fn stricter_upper(new: IntBound, existing: IntBound) -> (r: bool)
    ensures
        r == stricter_upper_spec(new, existing),
{
    new.value < existing.value || (new.value == existing.value && !new.inclusive && existing.inclusive)
}

fn satisfies_lower(value: i64, bound: IntBound) -> (r: bool)
    ensures
        r == satisfies_lower_spec(value as int, bound),
{
    value > bound.value || (value == bound.value && bound.inclusive)
}

fn satisfies_upper(value: i64, bound: IntBound) -> (r: bool)
    ensures
        r == satisfies_upper_spec(value as int, bound),
{
    value < bound.value || (value == bound.value && bound.inclusive)
}

fn min_from_lower(bound: IntBound) -> (r: Option<i64>)
    ensures
        r == min_from_lower_spec(bound),
{
    if bound.inclusive {
        Some(bound.value)
    } else {
        bound.value.checked_add(1)
    }
}

fn max_from_upper(bound: IntBound) -> (r: Option<i64>)
    ensures
        r == max_from_upper_spec(bound),
{
    if bound.inclusive {
        Some(bound.value)
    } else {
        bound.value.checked_sub(1)
    }
}

// ---------------------------------------------------------------------------
// Constraint sets

/// Mathematical state of a constraint set.
pub struct ConstraintModel {
    pub lower: Option<IntBound>,
    pub upper: Option<IntBound>,
    pub eq: Option<i64>,
    pub neq: Set<i64>,
    pub unsat: bool,
}

/// Whether `x` meets an atomic constraint.
pub open spec fn holds(c: IntConstraint, x: int) -> bool {
    match c {
        IntConstraint::Lower(b) => satisfies_lower_spec(x, b),
        IntConstraint::Upper(b) => satisfies_upper_spec(x, b),
        IntConstraint::Eq(v) => x == v,
        IntConstraint::Neq(v) => x != v,
    }
}

impl ConstraintModel {
    pub open spec fn empty() -> ConstraintModel {
        ConstraintModel { lower: None, upper: None, eq: None, neq: Set::empty(), unsat: false }
    }

    /// The `i64` values that every recorded constraint admits.
    pub open spec fn admits(self, x: int) -> bool {
        &&& i64::MIN <= x <= i64::MAX
        &&& (self.lower matches Some(b) ==> satisfies_lower_spec(x, b))
        &&& (self.upper matches Some(b) ==> satisfies_upper_spec(x, b))
        &&& (self.eq matches Some(e) ==> x == e)
        &&& !self.neq.contains(x as i64)
    }

    pub open spec fn satisfies_bounds(self, v: i64) -> bool {
        &&& (self.lower matches Some(b) ==> satisfies_lower_spec(v as int, b))
        &&& (self.upper matches Some(b) ==> satisfies_upper_spec(v as int, b))
    }

    pub open spec fn bounds_allow_values(self) -> bool {
        let min = match self.lower {
            None => None,
            Some(b) => min_from_lower_spec(b),
        };
        match min {
            Some(lo) => match self.upper {
                None => true,
                Some(b) => match max_from_upper_spec(b) {
                    Some(hi) => lo <= hi,
                    None => false,
                },
            },
            None => match self.upper {
                Some(b) => max_from_upper_spec(b) is Some,
                None => true,
            },
        }
    }

    pub open spec fn single_value(self) -> Option<i64> {
        match (self.lower, self.upper) {
            (Some(l), Some(u)) => match (min_from_lower_spec(l), max_from_upper_spec(u)) {
                (Some(lo), Some(hi)) => if lo == hi { Some(lo) } else { None },
                _ => None,
            },
            _ => None,
        }
    }

    pub open spec fn apply_eq(self, value: i64) -> (ConstraintModel, bool) {
        if self.eq matches Some(e) && e != value {
            (self, false)
        } else if !self.satisfies_bounds(value) {
            (self, false)
        } else if self.neq.contains(value) {
            (self, false)
        } else {
            (ConstraintModel { eq: Some(value), ..self }, true)
        }
    }

    pub open spec fn apply_neq(self, value: i64) -> (ConstraintModel, bool) {
        if self.eq == Some(value) {
            (self, false)
        } else {
            let s = ConstraintModel { neq: self.neq.insert(value), ..self };
            if s.single_value() == Some(value) {
                (s, false)
            } else {
                (s, true)
            }
        }
    }

    pub open spec fn apply_lower(self, bound: IntBound) -> (ConstraintModel, bool) {
        if self.eq is Some {
            (self, satisfies_lower_spec(self.eq->0 as int, bound))
        } else {
            let lower = match self.lower {
                None => bound,
                Some(existing) => if stricter_lower_spec(bound, existing) { bound } else { existing },
            };
            let s = ConstraintModel { lower: Some(lower), ..self };
            if !s.bounds_allow_values() {
                (s, false)
            } else if s.single_value() matches Some(only) && s.neq.contains(only) {
                (s, false)
            } else {
                (s, true)
            }
        }
    }

    pub open spec fn apply_upper(self, bound: IntBound) -> (ConstraintModel, bool) {
        if self.eq is Some {
            (self, satisfies_upper_spec(self.eq->0 as int, bound))
        } else {
            let upper = match self.upper {
                None => bound,
                Some(existing) => if stricter_upper_spec(bound, existing) { bound } else { existing },
            };
            let s = ConstraintModel { upper: Some(upper), ..self };
            if !s.bounds_allow_values() {
                (s, false)
            } else if s.single_value() matches Some(only) && s.neq.contains(only) {
                (s, false)
            } else {
                (s, true)
            }
        }
    }

    pub open spec fn apply(self, c: IntConstraint) -> ConstraintModel {
        if self.unsat {
            self
        } else {
            let (s, ok) = match c {
                IntConstraint::Lower(b) => self.apply_lower(b),
                IntConstraint::Upper(b) => self.apply_upper(b),
                IntConstraint::Eq(v) => self.apply_eq(v),
                IntConstraint::Neq(v) => self.apply_neq(v),
            };
            if ok { s } else { ConstraintModel { unsat: true, ..s } }
        }
    }
}

/// A conjunction of integer constraints on one variable, with an
/// unsatisfiability flag that is raised as soon as they contradict.
pub struct IntConstraintSet {
    lower: Option<IntBound>,
    upper: Option<IntBound>,
    eq: Option<i64>,
    neq: HashSet<i64>,
    unsat: bool,
}

impl View for IntConstraintSet {
    type V = ConstraintModel;

    closed spec fn view(&self) -> ConstraintModel {
        ConstraintModel {
            lower: self.lower,
            upper: self.upper,
            eq: self.eq,
            neq: self.neq@,
            unsat: self.unsat,
        }
    }
}

impl IntConstraintSet {
    /// The set with no constraints.
    pub fn new() -> (s: Self)
        ensures
            s@ == ConstraintModel::empty(),
    {
        IntConstraintSet { lower: None, upper: None, eq: None, neq: HashSet::new(), unsat: false }
    }

    /// Whether the constraints have been found contradictory.
    pub fn is_unsat(&self) -> (r: bool)
        ensures
            r == self@.unsat,
    {
        self.unsat
    }

    /// Adds a constraint; raises the flag when it contradicts the others.
    pub fn apply(&mut self, constraint: IntConstraint)
        ensures
            final(self)@ == old(self)@.apply(constraint),
    {
        if self.unsat {
            return;
        }
        let ok = match constraint {
            IntConstraint::Lower(bound) => self.apply_lower(bound),
            IntConstraint::Upper(bound) => self.apply_upper(bound),
            IntConstraint::Eq(value) => self.apply_eq(value),
            IntConstraint::Neq(value) => self.apply_neq(value),
        };
        if !ok {
            self.unsat = true;
        }
    }

    fn apply_eq(&mut self, value: i64) -> (ok: bool)
        ensures
            (final(self)@, ok) == old(self)@.apply_eq(value),
    {
        if let Some(existing) = self.eq {
            if existing != value {
                return false;
            }
        }
        if !self.satisfies_bounds(value) {
            return false;
        }
        if self.neq.contains(&value) {
            return false;
        }
        self.eq = Some(value);
        true
    }

    fn apply_neq(&mut self, value: i64) -> (ok: bool)
        ensures
            (final(self)@, ok) == old(self)@.apply_neq(value),
    {
        if let Some(eq) = self.eq {
            if eq == value {
                return false;
            }
        }
        self.neq.insert(value);
        if let Some(only) = self.single_value() {
            if only == value {
                return false;
            }
        }
        true
    }

    fn apply_lower(&mut self, bound: IntBound) -> (ok: bool)
        ensures
            (final(self)@, ok) == old(self)@.apply_lower(bound),
    {
        if let Some(eq) = self.eq {
            if !satisfies_lower(eq, bound) {
                return false;
            }
            return true;
        }
        match self.lower {
            None => self.lower = Some(bound),
            Some(existing) => {
                if stricter_lower(bound, existing) {
                    self.lower = Some(bound);
                }
            },
        }
        if !self.bounds_allow_values() {
            return false;
        }
        if let Some(only) = self.single_value() {
            if self.neq.contains(&only) {
                return false;
            }
        }
        true
    }

    fn apply_upper(&mut self, bound: IntBound) -> (ok: bool)
        ensures
            (final(self)@, ok) == old(self)@.apply_upper(bound),
    {
        if let Some(eq) = self.eq {
            if !satisfies_upper(eq, bound) {
                return false;
            }
            return true;
        }
        match self.upper {
            None => self.upper = Some(bound),
            Some(existing) => {
                if stricter_upper(bound, existing) {
                    self.upper = Some(bound);
                }
            },
        }
        if !self.bounds_allow_values() {
            return false;
        }
        if let Some(only) = self.single_value() {
            if self.neq.contains(&only) {
                return false;
            }
        }
        true
    }

    fn satisfies_bounds(&self, value: i64) -> (r: bool)
        ensures
            r == self@.satisfies_bounds(value),
    {
        if let Some(lower) = self.lower {
            if !satisfies_lower(value, lower) {
                return false;
            }
        }
        if let Some(upper) = self.upper {
            if !satisfies_upper(value, upper) {
                return false;
            }
        }
        true
    }

    fn bounds_allow_values(&self) -> (r: bool)
        ensures
            r == self@.bounds_allow_values(),
    {
        let min = match self.lower {
            None => None,
            Some(bound) => min_from_lower(bound),
        };
        if let Some(val) = min {
            let max = match self.upper {
                None => return true,
                Some(bound) => max_from_upper(bound),
            };
            if let Some(upper_val) = max {
                return val <= upper_val;
            }
            return false;
        }
        if let Some(bound) = self.upper {
            return max_from_upper(bound).is_some();
        }
        true
    }

    fn single_value(&self) -> (r: Option<i64>)
        ensures
            r == self@.single_value(),
    {
        let lower = match self.lower {
            Some(l) => l,
            None => return None,
        };
        let upper = match self.upper {
            Some(u) => u,
            None => return None,
        };
        let min = match min_from_lower(lower) {
            Some(m) => m,
            None => return None,
        };
        let max = match max_from_upper(upper) {
            Some(m) => m,
            None => return None,
        };
        if min == max {
            Some(min)
        } else {
            None
        }
    }
}

// ---------------------------------------------------------------------------
// Meaning of predicates

/// Integer division truncating toward zero.
pub open spec fn trunc_div(x: int, d: int) -> int {
    if x == 0 {
        0
    } else if x > 0 && d > 0 {
        x / d
    } else if x < 0 && d < 0 {
        (x * -1) / (d * -1)
    } else if x < 0 {
        ((x * -1) / d) * -1
    } else {
        (x / (d * -1)) * -1
    }
}

pub open spec fn int_binop(op: BinOp, a: int, b: int) -> Option<Value> {
    match op {
        BinOp::Add => Some(Value::IntVal(a + b)),
        BinOp::Sub => Some(Value::IntVal(a - b)),
        BinOp::Mul => Some(Value::IntVal(a * b)),
        BinOp::Div => if b == 0 { None } else { Some(Value::IntVal(trunc_div(a, b))) },
        BinOp::Eq => Some(Value::BoolVal(a == b)),
        BinOp::Neq => Some(Value::BoolVal(a != b)),
        BinOp::Lt => Some(Value::BoolVal(a < b)),
        BinOp::Le => Some(Value::BoolVal(a <= b)),
        BinOp::Gt => Some(Value::BoolVal(a > b)),
        BinOp::Ge => Some(Value::BoolVal(a >= b)),
        _ => None,
    }
}

pub open spec fn is_arith_or_comparison(op: BinOp) -> bool {
    match op {
        BinOp::Add | BinOp::Sub | BinOp::Mul | BinOp::Div | BinOp::Eq | BinOp::Neq | BinOp::Lt
        | BinOp::Le | BinOp::Gt | BinOp::Ge => true,
        _ => false,
    }
}

/// The value of `e` when its variables take the values in `env`.
/// Arithmetic is on mathematical integers; `&&` and `||` short-circuit.
/// Forms that a refinement predicate does not give a meaning to of its own
/// (calls, field accesses, bit operations, ...) take their value from
/// `other`, which is arbitrary.
pub open spec fn eval(e: Expr, env: Map<Seq<char>, Value>, other: spec_fn(Expr) -> Option<Value>) -> Option<Value>
    decreases e,
{
    match e {
        Expr::Int(v, _) => Some(Value::IntVal(v as int)),
        Expr::Bool(v, _) => Some(Value::BoolVal(v)),
        Expr::Var(name, _) => if env.contains_key(name@) { Some(env[name@]) } else { None },
        Expr::Unary { op, expr, .. } => match (op, eval(*expr, env, other)) {
            (UnaryOp::Not, Some(Value::BoolVal(b))) => Some(Value::BoolVal(!b)),
            _ => None,
        },
        Expr::Bin { op, lhs, rhs, .. } => match op {
            BinOp::And => match eval(*lhs, env, other) {
                Some(Value::BoolVal(false)) => Some(Value::BoolVal(false)),
                Some(Value::BoolVal(true)) => match eval(*rhs, env, other) {
                    Some(Value::BoolVal(r)) => Some(Value::BoolVal(r)),
                    _ => None,
                },
                _ => None,
            },
            BinOp::Or => match eval(*lhs, env, other) {
                Some(Value::BoolVal(true)) => Some(Value::BoolVal(true)),
                Some(Value::BoolVal(false)) => match eval(*rhs, env, other) {
                    Some(Value::BoolVal(r)) => Some(Value::BoolVal(r)),
                    _ => None,
                },
                _ => None,
            },
            _ => if is_arith_or_comparison(op) {
                match (eval(*lhs, env, other), eval(*rhs, env, other)) {
                    (Some(Value::IntVal(a)), Some(Value::IntVal(b))) => int_binop(op, a, b),
                    (Some(Value::BoolVal(a)), Some(Value::BoolVal(b))) => match op {
                        BinOp::Eq => Some(Value::BoolVal(a == b)),
                        BinOp::Neq => Some(Value::BoolVal(a != b)),
                        _ => None,
                    },
                    _ => None,
                }
            } else {
                other(e)
            },
        },
        _ => other(e),
    }
}

// ---------------------------------------------------------------------------
// Constant folding and constraint extraction

/// The value of a closed integer expression, computed in `i64` (absent on
/// overflow, division by zero, or anything but literals and `+ - * /`).
pub open spec fn const_int(e: Expr) -> Option<i64>
    decreases e,
{
    match e {
        Expr::Int(v, _) => Some(v),
        Expr::Bin { op, lhs, rhs, .. } => match (const_int(*lhs), const_int(*rhs)) {
            (Some(l), Some(r)) => match op {
                BinOp::Add => l.checked_add(r),
                BinOp::Sub => l.checked_sub(r),
                BinOp::Mul => l.checked_mul(r),
                BinOp::Div => if r == 0 { None } else { l.checked_div(r) },
                _ => None,
            },
            _ => None,
        },
        _ => None,
    }
}

/// The value of a closed boolean expression built from literals, `!`, `&&`,
/// `||` and comparisons of closed integer expressions.
pub open spec fn const_bool(e: Expr) -> Option<bool>
    decreases e,
{
    match e {
        Expr::Bool(v, _) => Some(v),
        Expr::Unary { op: UnaryOp::Not, expr, .. } => match const_bool(*expr) {
            Some(v) => Some(!v),
            None => None,
        },
        Expr::Bin { op, lhs, rhs, .. } => match op {
            BinOp::And => match (const_bool(*lhs), const_bool(*rhs)) {
                (Some(a), Some(b)) => Some(a && b),
                _ => None,
            },
            BinOp::Or => match (const_bool(*lhs), const_bool(*rhs)) {
                (Some(a), Some(b)) => Some(a || b),
                _ => None,
            },
            BinOp::Eq | BinOp::Neq | BinOp::Lt | BinOp::Le | BinOp::Gt | BinOp::Ge => {
                match (const_int(*lhs), const_int(*rhs)) {
                    (Some(a), Some(b)) => Some(match op {
                        BinOp::Eq => a == b,
                        BinOp::Neq => a != b,
                        BinOp::Lt => a < b,
                        BinOp::Le => a <= b,
                        BinOp::Gt => a > b,
                        _ => a >= b,
                    }),
                    _ => None,
                }
            },
            _ => None,
        },
        _ => None,
    }
}

/// For an expression of the shape `binder + c1 - c2 ...`, the constant that
/// is added to the binder.
pub open spec fn binder_offset(e: Expr, binder: Seq<char>) -> Option<i64>
    decreases e,
{
    match e {
        Expr::Var(name, _) => if name@ == binder { Some(0) } else { None },
        Expr::Bin { op: BinOp::Add, lhs, rhs, .. } => match binder_offset(*lhs, binder) {
            Some(offset) => match const_int(*rhs) {
                Some(c) => offset.checked_add(c),
                None => None,
            },
            None => match binder_offset(*rhs, binder) {
                Some(offset) => match const_int(*lhs) {
                    Some(c) => offset.checked_add(c),
                    None => None,
                },
                None => None,
            },
        },
        Expr::Bin { op: BinOp::Sub, lhs, rhs, .. } => match binder_offset(*lhs, binder) {
            Some(offset) => match const_int(*rhs) {
                Some(c) => offset.checked_sub(c),
                None => None,
            },
            None => None,
        },
        _ => None,
    }
}

pub open spec fn constraint_for_comparison_spec(op: BinOp, value: i64) -> Option<IntConstraint> {
    match op {
        BinOp::Lt => Some(IntConstraint::Upper(IntBound { value, inclusive: false })),
        BinOp::Le => Some(IntConstraint::Upper(IntBound { value, inclusive: true })),
        BinOp::Gt => Some(IntConstraint::Lower(IntBound { value, inclusive: false })),
        BinOp::Ge => Some(IntConstraint::Lower(IntBound { value, inclusive: true })),
        BinOp::Eq => Some(IntConstraint::Eq(value)),
        BinOp::Neq => Some(IntConstraint::Neq(value)),
        _ => None,
    }
}

/// The comparison with its operands swapped.
pub open spec fn invert_comparison_spec(op: BinOp) -> Option<BinOp> {
    match op {
        BinOp::Lt => Some(BinOp::Gt),
        BinOp::Le => Some(BinOp::Ge),
        BinOp::Gt => Some(BinOp::Lt),
        BinOp::Ge => Some(BinOp::Le),
        BinOp::Eq => Some(BinOp::Eq),
        BinOp::Neq => Some(BinOp::Neq),
        _ => None,
    }
}

/// The constraint on the binder that `lhs op rhs` expresses, when one side
/// is the binder plus a constant and the other side a constant.
pub open spec fn comparison_constraint_spec(op: BinOp, lhs: Expr, rhs: Expr, binder: Seq<char>) -> Option<IntConstraint> {
    if binder_offset(lhs, binder) is Some && const_int(rhs) is Some {
        let offset = binder_offset(lhs, binder)->0;
        let value = const_int(rhs)->0;
        match value.checked_sub(offset) {
            Some(target) => constraint_for_comparison_spec(op, target),
            None => None,
        }
    } else if const_int(lhs) is Some && binder_offset(rhs, binder) is Some {
        let value = const_int(lhs)->0;
        let offset = binder_offset(rhs, binder)->0;
        match value.checked_sub(offset) {
            Some(target) => match invert_comparison_spec(op) {
                Some(inverted) => constraint_for_comparison_spec(inverted, target),
                None => None,
            },
            None => None,
        }
    } else {
        None
    }
}

/// Records in `s` the constraints of the conjunction `e`; the flag says
/// whether every conjunct was understood.
pub open spec fn collect_spec(e: Expr, binder: Seq<char>, s: ConstraintModel) -> (ConstraintModel, bool)
    decreases e,
{
    if s.unsat {
        (s, true)
    } else if const_bool(e) is Some {
        if !const_bool(e)->0 {
            (ConstraintModel { unsat: true, ..s }, true)
        } else {
            (s, true)
        }
    } else {
        match e {
            Expr::Bin { op: BinOp::And, lhs, rhs, .. } => {
                let (s1, left_ok) = collect_spec(*lhs, binder, s);
                if s1.unsat {
                    (s1, true)
                } else {
                    let (s2, right_ok) = collect_spec(*rhs, binder, s1);
                    if s2.unsat {
                        (s2, true)
                    } else {
                        (s2, left_ok && right_ok)
                    }
                }
            },
            Expr::Bin { op, lhs, rhs, .. } => match comparison_constraint_spec(op, *lhs, *rhs, binder) {
                Some(c) => (s.apply(c), true),
                None => (s, false),
            },
            _ => (s, false),
        }
    }
}

/// Whether the refinement predicate `e` on a value of type `base`, bound to
/// `binder`, is recognized as unsatisfiable.
pub open spec fn is_contradiction(e: Expr, binder: Option<Seq<char>>, base: Ty) -> bool {
    if const_bool(e) is Some {
        !const_bool(e)->0
    } else if base != Ty::Int {
        false
    } else {
        match binder {
            None => false,
            Some(b) => {
                let (s, ok) = collect_spec(e, b, ConstraintModel::empty());
                if ok { s.unsat } else { false }
            },
        }
    }
}

fn eval_const_int(expr: &Expr) -> (r: Option<i64>)
    ensures
        r == const_int(*expr),
    decreases expr,
{
    match expr {
        Expr::Int(value, _) => Some(*value),
        Expr::Bin { op, lhs, rhs, .. } => {
            let left = match eval_const_int(lhs) {
                Some(v) => v,
                None => return None,
            };
            let right = match eval_const_int(rhs) {
                Some(v) => v,
                None => return None,
            };
            match op {
                BinOp::Add => left.checked_add(right),
                BinOp::Sub => left.checked_sub(right),
                BinOp::Mul => left.checked_mul(right),
                BinOp::Div => {
                    if right == 0 {
                        None
                    } else {
                        left.checked_div(right)
                    }
                },
                _ => None,
            }
        },
        _ => None,
    }
}

fn eval_const_bool(expr: &Expr) -> (r: Option<bool>)
    ensures
        r == const_bool(*expr),
    decreases expr,
{
    match expr {
        Expr::Bool(value, _) => Some(*value),
        Expr::Unary { op: UnaryOp::Not, expr, .. } => match eval_const_bool(expr) {
            Some(v) => Some(!v),
            None => None,
        },
        Expr::Bin { op, lhs, rhs, .. } => match op {
            BinOp::And => {
                let l = match eval_const_bool(lhs) {
                    Some(v) => v,
                    None => return None,
                };
                let r = match eval_const_bool(rhs) {
                    Some(v) => v,
                    None => return None,
                };
                Some(l && r)
            },
            BinOp::Or => {
                let l = match eval_const_bool(lhs) {
                    Some(v) => v,
                    None => return None,
                };
                let r = match eval_const_bool(rhs) {
                    Some(v) => v,
                    None => return None,
                };
                Some(l || r)
            },
            BinOp::Eq | BinOp::Neq | BinOp::Lt | BinOp::Le | BinOp::Gt | BinOp::Ge => {
                let left = match eval_const_int(lhs) {
                    Some(v) => v,
                    None => return None,
                };
                let right = match eval_const_int(rhs) {
                    Some(v) => v,
                    None => return None,
                };
                Some(match op {
                    BinOp::Eq => left == right,
                    BinOp::Neq => left != right,
                    BinOp::Lt => left < right,
                    BinOp::Le => left <= right,
                    BinOp::Gt => left > right,
                    _ => left >= right,
                })
            },
            _ => None,
        },
        _ => None,
    }
}

fn extract_binder_offset(expr: &Expr, binder: &str) -> (r: Option<i64>)
    ensures
        r == binder_offset(*expr, binder@),
    decreases expr,
{
    match expr {
        Expr::Var(name, _) => {
            if str_eq(name.as_str(), binder) {
                Some(0)
            } else {
                None
            }
        },
        Expr::Bin { op: BinOp::Add, lhs, rhs, .. } => {
            if let Some(offset) = extract_binder_offset(lhs, binder) {
                return match eval_const_int(rhs) {
                    Some(c) => offset.checked_add(c),
                    None => None,
                };
            }
            if let Some(offset) = extract_binder_offset(rhs, binder) {
                return match eval_const_int(lhs) {
                    Some(c) => offset.checked_add(c),
                    None => None,
                };
            }
            None
        },
        Expr::Bin { op: BinOp::Sub, lhs, rhs, .. } => {
            let offset = match extract_binder_offset(lhs, binder) {
                Some(o) => o,
                None => return None,
            };
            match eval_const_int(rhs) {
                Some(c) => offset.checked_sub(c),
                None => None,
            }
        },
        _ => None,
    }
}

fn constraint_for_comparison(op: BinOp, value: i64) -> (r: Option<IntConstraint>)
    ensures
        r == constraint_for_comparison_spec(op, value),
{
    match op {
        BinOp::Lt => Some(IntConstraint::Upper(IntBound { value, inclusive: false })),
        BinOp::Le => Some(IntConstraint::Upper(IntBound { value, inclusive: true })),
        BinOp::Gt => Some(IntConstraint::Lower(IntBound { value, inclusive: false })),
        BinOp::Ge => Some(IntConstraint::Lower(IntBound { value, inclusive: true })),
        BinOp::Eq => Some(IntConstraint::Eq(value)),
        BinOp::Neq => Some(IntConstraint::Neq(value)),
        _ => None,
    }
}

fn invert_comparison(op: BinOp) -> (r: Option<BinOp>)
    ensures
        r == invert_comparison_spec(op),
{
    match op {
        BinOp::Lt => Some(BinOp::Gt),
        BinOp::Le => Some(BinOp::Ge),
        BinOp::Gt => Some(BinOp::Lt),
        BinOp::Ge => Some(BinOp::Le),
        BinOp::Eq => Some(BinOp::Eq),
        BinOp::Neq => Some(BinOp::Neq),
        _ => None,
    }
}

fn comparison_constraint(op: BinOp, lhs: &Expr, rhs: &Expr, binder: &str) -> (r: Option<IntConstraint>)
    ensures
        r == comparison_constraint_spec(op, *lhs, *rhs, binder@),
{
    let lo = extract_binder_offset(lhs, binder);
    let rv = eval_const_int(rhs);
    if let (Some(offset), Some(value)) = (lo, rv) {
        let target = match value.checked_sub(offset) {
            Some(t) => t,
            None => return None,
        };
        return constraint_for_comparison(op, target);
    }
    let lv = eval_const_int(lhs);
    let ro = extract_binder_offset(rhs, binder);
    if let (Some(value), Some(offset)) = (lv, ro) {
        let target = match value.checked_sub(offset) {
            Some(t) => t,
            None => return None,
        };
        let inverted = match invert_comparison(op) {
            Some(i) => i,
            None => return None,
        };
        return constraint_for_comparison(inverted, target);
    }
    None
}

fn collect_constraints(expr: &Expr, binder: &str, constraints: &mut IntConstraintSet) -> (ok: bool)
    ensures
        (final(constraints)@, ok) == collect_spec(*expr, binder@, old(constraints)@),
    decreases expr,
{
    if constraints.unsat {
        return true;
    }
    if let Some(value) = eval_const_bool(expr) {
        if !value {
            constraints.unsat = true;
        }
        return true;
    }
    match expr {
        Expr::Bin { op: BinOp::And, lhs, rhs, .. } => {
            let left_ok = collect_constraints(lhs, binder, constraints);
            if constraints.unsat {
                return true;
            }
            let right_ok = collect_constraints(rhs, binder, constraints);
            if constraints.unsat {
                return true;
            }
            left_ok && right_ok
        },
        Expr::Bin { op, lhs, rhs, .. } => {
            if let Some(constraint) = comparison_constraint(*op, lhs, rhs, binder) {
                constraints.apply(constraint);
                true
            } else {
                false
            }
        },
        _ => false,
    }
}

/// Whether a refinement predicate can be seen to admit no value: it folds
/// to `false`, or, on an `Int` base, its conjuncts bound the binder to an
/// empty set.
pub fn predicate_is_contradiction(expr: &Expr, binder: Option<&str>, base: &Type) -> (r: bool)
    ensures
        r == is_contradiction(*expr, match binder { Some(b) => Some(b@), None => None }, base@),
{
    if let Some(value) = eval_const_bool(expr) {
        return !value;
    }
    if !matches!(base, Type::Int) {
        return false;
    }
    let binder = match binder {
        Some(b) => b,
        None => return false,
    };
    let mut constraints = IntConstraintSet::new();
    if collect_constraints(expr, binder, &mut constraints) {
        return constraints.unsat;
    }
    false
}

// ---------------------------------------------------------------------------
// Laws

proof fn lemma_stricter_lower(new: IntBound, existing: IntBound, x: int)
    ensures
        stricter_lower_spec(new, existing) ==> (satisfies_lower_spec(x, new) ==> satisfies_lower_spec(x, existing)),
        !stricter_lower_spec(new, existing) ==> (satisfies_lower_spec(x, existing) ==> satisfies_lower_spec(x, new)),
{
}

proof fn lemma_stricter_upper(new: IntBound, existing: IntBound, x: int)
    ensures
        stricter_upper_spec(new, existing) ==> (satisfies_upper_spec(x, new) ==> satisfies_upper_spec(x, existing)),
        !stricter_upper_spec(new, existing) ==> (satisfies_upper_spec(x, existing) ==> satisfies_upper_spec(x, new)),
{
}

/// When the bounds admit no value, no `i64` meets both; when they pin a
/// single value, it is the only one that meets both.
proof fn lemma_bounds(s: ConstraintModel, x: int)
    requires
        i64::MIN <= x <= i64::MAX,
        s.lower matches Some(b) ==> satisfies_lower_spec(x, b),
        s.upper matches Some(b) ==> satisfies_upper_spec(x, b),
    ensures
        s.bounds_allow_values(),
        s.single_value() matches Some(v) ==> x == v,
{
}

/// Adding a constraint to a satisfiable set leaves exactly the values that
/// were admitted and meet the constraint; the set is flagged unsatisfiable
/// only when no value is left.
pub proof fn lemma_apply_exact(s: ConstraintModel, c: IntConstraint)
    requires
        !s.unsat,
    ensures
        !s.apply(c).unsat ==> forall|x: int| #[trigger] s.apply(c).admits(x) <==> (s.admits(x) && holds(c, x)),
        s.apply(c).unsat ==> forall|x: int| !(#[trigger] s.admits(x) && holds(c, x)),
{
    assert forall|x: int| #[trigger] s.admits(x) && holds(c, x) implies !s.apply(c).unsat && s.apply(c).admits(x) by {
        match c {
            IntConstraint::Lower(b) => {
                if s.eq is None {
                    if let Some(ex) = s.lower {
                        lemma_stricter_lower(b, ex, x);
                    }
                    let t = s.apply_lower(b).0;
                    lemma_bounds(t, x);
                }
            },
            IntConstraint::Upper(b) => {
                if s.eq is None {
                    if let Some(ex) = s.upper {
                        lemma_stricter_upper(b, ex, x);
                    }
                    let t = s.apply_upper(b).0;
                    lemma_bounds(t, x);
                }
            },
            IntConstraint::Eq(v) => {},
            IntConstraint::Neq(v) => {
                if s.eq != Some(v) {
                    let t = s.apply_neq(v).0;
                    lemma_bounds(t, x);
                }
            },
        }
    }
    assert forall|x: int| #[trigger] s.apply(c).admits(x) && !s.apply(c).unsat implies s.admits(x) && holds(c, x) by {
        match c {
            IntConstraint::Lower(b) => {
                if s.eq is None {
                    if let Some(ex) = s.lower {
                        lemma_stricter_lower(b, ex, x);
                    }
                }
            },
            IntConstraint::Upper(b) => {
                if s.eq is None {
                    if let Some(ex) = s.upper {
                        lemma_stricter_upper(b, ex, x);
                    }
                }
            },
            IntConstraint::Eq(v) => {},
            IntConstraint::Neq(v) => {},
        }
    }
}

proof fn lemma_checked_div(l: i64, r: i64)
    requires
        r != 0,
        l.checked_div(r) is Some,
    ensures
        l.checked_div(r)->0 as int == trunc_div(l as int, r as int),
{
}

/// Constant folding agrees with evaluation in every environment.
proof fn lemma_const_int_sound(e: Expr, env: Map<Seq<char>, Value>, other: spec_fn(Expr) -> Option<Value>)
    requires
        const_int(e) is Some,
    ensures
        eval(e, env, other) == Some(Value::IntVal(const_int(e)->0 as int)),
    decreases e,
{
    if let Expr::Bin { op, lhs, rhs, .. } = e {
        lemma_const_int_sound(*lhs, env, other);
        lemma_const_int_sound(*rhs, env, other);
        if op == BinOp::Div {
            lemma_checked_div(const_int(*lhs)->0, const_int(*rhs)->0);
        }
    }
}

proof fn lemma_const_bool_sound(e: Expr, env: Map<Seq<char>, Value>, other: spec_fn(Expr) -> Option<Value>)
    requires
        const_bool(e) is Some,
    ensures
        eval(e, env, other) == Some(Value::BoolVal(const_bool(e)->0)),
    decreases e,
{
    match e {
        Expr::Unary { op, expr, .. } => {
            lemma_const_bool_sound(*expr, env, other);
        },
        Expr::Bin { op, lhs, rhs, .. } => {
            if op == BinOp::And || op == BinOp::Or {
                lemma_const_bool_sound(*lhs, env, other);
                lemma_const_bool_sound(*rhs, env, other);
            } else {
                lemma_const_int_sound(*lhs, env, other);
                lemma_const_int_sound(*rhs, env, other);
            }
        },
        _ => {},
    }
}

proof fn lemma_offset_sound(e: Expr, binder: Seq<char>, env: Map<Seq<char>, Value>, other: spec_fn(Expr) -> Option<Value>, x: int)
    requires
        binder_offset(e, binder) is Some,
        env.contains_key(binder),
        env[binder] == Value::IntVal(x),
    ensures
        eval(e, env, other) == Some(Value::IntVal(x + binder_offset(e, binder)->0)),
    decreases e,
{
    match e {
        Expr::Bin { op, lhs, rhs, .. } => {
            if op == BinOp::Add {
                if binder_offset(*lhs, binder) is Some {
                    lemma_offset_sound(*lhs, binder, env, other, x);
                    lemma_const_int_sound(*rhs, env, other);
                } else {
                    lemma_offset_sound(*rhs, binder, env, other, x);
                    lemma_const_int_sound(*lhs, env, other);
                }
            } else {
                lemma_offset_sound(*lhs, binder, env, other, x);
                lemma_const_int_sound(*rhs, env, other);
            }
        },
        _ => {},
    }
}

proof fn lemma_comparison_sound(
    op: BinOp,
    lhs: Expr,
    rhs: Expr,
    span: crate::ty::Span,
    binder: Seq<char>,
    env: Map<Seq<char>, Value>,
    other: spec_fn(Expr) -> Option<Value>,
    x: int,
)
    requires
        comparison_constraint_spec(op, lhs, rhs, binder) is Some,
        env.contains_key(binder),
        env[binder] == Value::IntVal(x),
        eval(Expr::Bin { op, lhs: Box::new(lhs), rhs: Box::new(rhs), span }, env, other) == Some(Value::BoolVal(true)),
    ensures
        holds(comparison_constraint_spec(op, lhs, rhs, binder)->0, x),
{
    if binder_offset(lhs, binder) is Some && const_int(rhs) is Some {
        lemma_offset_sound(lhs, binder, env, other, x);
        lemma_const_int_sound(rhs, env, other);
    } else {
        lemma_const_int_sound(lhs, env, other);
        lemma_offset_sound(rhs, binder, env, other, x);
    }
}

proof fn lemma_collect_sound(
    e: Expr,
    binder: Seq<char>,
    s: ConstraintModel,
    env: Map<Seq<char>, Value>,
    other: spec_fn(Expr) -> Option<Value>,
    x: int,
)
    requires
        !s.unsat,
        s.admits(x),
        env.contains_key(binder),
        env[binder] == Value::IntVal(x),
        eval(e, env, other) == Some(Value::BoolVal(true)),
    ensures
        !collect_spec(e, binder, s).0.unsat,
        collect_spec(e, binder, s).0.admits(x),
    decreases e,
{
    if const_bool(e) is Some {
        lemma_const_bool_sound(e, env, other);
    } else {
        match e {
            Expr::Bin { op, lhs, rhs, span } => {
                if op == BinOp::And {
                    lemma_collect_sound(*lhs, binder, s, env, other, x);
                    let s1 = collect_spec(*lhs, binder, s).0;
                    lemma_collect_sound(*rhs, binder, s1, env, other, x);
                } else if comparison_constraint_spec(op, *lhs, *rhs, binder) is Some {
                    let c = comparison_constraint_spec(op, *lhs, *rhs, binder)->0;
                    lemma_comparison_sound(op, *lhs, *rhs, span, binder, env, other, x);
                    lemma_apply_exact(s, c);
                }
            },
            _ => {},
        }
    }
}

/// A predicate reported as contradictory is never true: whatever values the
/// variables take (the binder an `i64` when the base is `Int`) and whatever
/// the forms without a meaning of their own evaluate to.
pub proof fn lemma_contradiction_sound(
    e: Expr,
    binder: Option<Seq<char>>,
    base: Ty,
    env: Map<Seq<char>, Value>,
    other: spec_fn(Expr) -> Option<Value>,
)
    requires
        is_contradiction(e, binder, base),
        base == Ty::Int && binder is Some ==> {
            &&& env.contains_key(binder->0)
            &&& env[binder->0] matches Value::IntVal(x) && i64::MIN <= x <= i64::MAX
        },
    ensures
        eval(e, env, other) != Some(Value::BoolVal(true)),
{
    if const_bool(e) is Some {
        lemma_const_bool_sound(e, env, other);
    } else {
        let b = binder->0;
        let x = env[b]->IntVal_0;
        if eval(e, env, other) == Some(Value::BoolVal(true)) {
            lemma_collect_sound(e, b, ConstraintModel::empty(), env, other, x);
        }
    }
}

/// Whether `a op b` holds for a comparison operator.
pub open spec fn compare(op: BinOp, a: int, b: int) -> bool {
    match op {
        BinOp::Lt => a < b,
        BinOp::Le => a <= b,
        BinOp::Gt => a > b,
        BinOp::Ge => a >= b,
        BinOp::Eq => a == b,
        BinOp::Neq => a != b,
        _ => false,
    }
}

pub open spec fn is_comparison(op: BinOp) -> bool {
    op is Lt || op is Le || op is Gt || op is Ge || op is Eq || op is Neq
}

proof fn lemma_offset_not_const(e: Expr, binder: Seq<char>)
    requires
        binder_offset(e, binder) is Some,
    ensures
        const_int(e) is None,
    decreases e,
{
    match e {
        Expr::Bin { op, lhs, rhs, .. } => {
            if binder_offset(*lhs, binder) is Some {
                lemma_offset_not_const(*lhs, binder);
            } else if op == BinOp::Add {
                lemma_offset_not_const(*rhs, binder);
            }
        },
        _ => {},
    }
}

/// A comparison of the binder (plus a constant) with a constant is
/// understood, whichever side the constant is written on (when the constant
/// minus the offset fits in `i64`), and the constraint it yields holds of
/// exactly the values of the binder for which the comparison is true.
pub proof fn lemma_comparison_exact(op: BinOp, lhs: Expr, rhs: Expr, binder: Seq<char>, x: int)
    requires
        is_comparison(op),
        ({
            ||| binder_offset(lhs, binder) is Some && const_int(rhs) is Some
                && (const_int(rhs)->0).checked_sub(binder_offset(lhs, binder)->0) is Some
            ||| binder_offset(rhs, binder) is Some && const_int(lhs) is Some
                && (const_int(lhs)->0).checked_sub(binder_offset(rhs, binder)->0) is Some
        }),
    ensures
        comparison_constraint_spec(op, lhs, rhs, binder) is Some,
        binder_offset(lhs, binder) is Some ==> (holds(comparison_constraint_spec(op, lhs, rhs, binder)->0, x)
            <==> compare(op, x + binder_offset(lhs, binder)->0, const_int(rhs)->0 as int)),
        binder_offset(rhs, binder) is Some ==> (holds(comparison_constraint_spec(op, lhs, rhs, binder)->0, x)
            <==> compare(op, const_int(lhs)->0 as int, x + binder_offset(rhs, binder)->0)),
{
    if binder_offset(rhs, binder) is Some {
        lemma_offset_not_const(rhs, binder);
    }
    if binder_offset(lhs, binder) is Some {
        lemma_offset_not_const(lhs, binder);
    }
}

/// A range written with bounds on both sides is contradictory exactly when
/// its lower bound exceeds its upper bound, whether each bound is written
/// with the constant on the left (`a <= x`, `b >= x`) or on the right
/// (`x >= a`, `x <= b`).
pub proof fn lemma_range_contradiction(a: i64, b: i64, x: String, lower_left: bool, upper_left: bool, sa: crate::ty::Span, sb: crate::ty::Span, sv: crate::ty::Span, sp: crate::ty::Span)
    ensures
        ({
            let var = Expr::Var(x, sv);
            let lower = if lower_left {
                Expr::Bin { op: BinOp::Le, lhs: Box::new(Expr::Int(a, sa)), rhs: Box::new(var), span: sp }
            } else {
                Expr::Bin { op: BinOp::Ge, lhs: Box::new(var), rhs: Box::new(Expr::Int(a, sa)), span: sp }
            };
            let upper = if upper_left {
                Expr::Bin { op: BinOp::Ge, lhs: Box::new(Expr::Int(b, sb)), rhs: Box::new(var), span: sp }
            } else {
                Expr::Bin { op: BinOp::Le, lhs: Box::new(var), rhs: Box::new(Expr::Int(b, sb)), span: sp }
            };
            is_contradiction(Expr::Bin { op: BinOp::And, lhs: Box::new(lower), rhs: Box::new(upper), span: sp }, Some(x@), Ty::Int)
                <==> a > b
        }),
{
    let var = Expr::Var(x, sv);
    let lower = if lower_left {
        Expr::Bin { op: BinOp::Le, lhs: Box::new(Expr::Int(a, sa)), rhs: Box::new(var), span: sp }
    } else {
        Expr::Bin { op: BinOp::Ge, lhs: Box::new(var), rhs: Box::new(Expr::Int(a, sa)), span: sp }
    };
    let upper = if upper_left {
        Expr::Bin { op: BinOp::Ge, lhs: Box::new(Expr::Int(b, sb)), rhs: Box::new(var), span: sp }
    } else {
        Expr::Bin { op: BinOp::Le, lhs: Box::new(var), rhs: Box::new(Expr::Int(b, sb)), span: sp }
    };
    let e = Expr::Bin { op: BinOp::And, lhs: Box::new(lower), rhs: Box::new(upper), span: sp };
    let bn = x@;
    assert(const_int(var) is None);
    assert(binder_offset(var, bn) == Some(0i64));
    assert(binder_offset(Expr::Int(a, sa), bn) is None);
    assert(binder_offset(Expr::Int(b, sb), bn) is None);
    assert(const_bool(lower) is None);
    assert(const_bool(upper) is None);
    assert(const_bool(e) is None);
    let lo = IntConstraint::Lower(IntBound { value: a, inclusive: true });
    let hi = IntConstraint::Upper(IntBound { value: b, inclusive: true });
    assert(a.checked_sub(0i64) == Some(a));
    assert(b.checked_sub(0i64) == Some(b));
    assert(comparison_constraint_spec(if lower_left { BinOp::Le } else { BinOp::Ge },
        if lower_left { Expr::Int(a, sa) } else { var }, if lower_left { var } else { Expr::Int(a, sa) }, bn) == Some(lo));
    assert(comparison_constraint_spec(if upper_left { BinOp::Ge } else { BinOp::Le },
        if upper_left { Expr::Int(b, sb) } else { var }, if upper_left { var } else { Expr::Int(b, sb) }, bn) == Some(hi));
    let s0 = ConstraintModel::empty();
    assert(collect_spec(lower, bn, s0) == (s0.apply(lo), true));
    let s1 = s0.apply(lo);
    assert(!s1.unsat);
    assert(s1.lower == Some(IntBound { value: a, inclusive: true }) && s1.upper is None && s1.eq is None);
    assert(collect_spec(upper, bn, s1) == (s1.apply(hi), true));
    let s2 = s1.apply(hi);
    assert(s2.unsat <==> a > b);
    assert(collect_spec(e, bn, s0) == (s2, true));
}

} // verus!
