use vstd::prelude::*;
use crate::ast::{BinOp, Expr};
use crate::display::show;
use crate::errors::{at_span, TyperError};
use crate::text::str_eq;
use crate::ty::{copy_type, Span, Ty, Type};
use crate::type_resolve::{base_of, base_type, is_cyclic_alias_error, AliasMap};

verus! {

/// The source range of an expression.
pub open spec fn span_of(e: Expr) -> Span {
    match e {
        Expr::Int(_, sp) | Expr::Bool(_, sp) | Expr::String(_, sp) | Expr::Var(_, sp) => sp,
        Expr::ArrayLit { span, .. } | Expr::TupleLit { span, .. } | Expr::StructLit { span, .. }
        | Expr::FieldAccess { span, .. } | Expr::Index { span, .. } => span,
        Expr::Bin { span, .. } | Expr::Call { span, .. } | Expr::Match { span, .. } | Expr::Return { span, .. }
        | Expr::If { span, .. } | Expr::Unary { span, .. } | Expr::Try { span, .. } | Expr::Lambda { span, .. } => span,
        Expr::Block { block } => block.span,
    }
}

pub fn expr_span(e: &Expr) -> (r: Span)
    ensures
        r == span_of(*e),
{
    match e {
        Expr::Int(_, sp) | Expr::Bool(_, sp) | Expr::String(_, sp) | Expr::Var(_, sp) => *sp,
        Expr::ArrayLit { span, .. } | Expr::TupleLit { span, .. } | Expr::StructLit { span, .. }
        | Expr::FieldAccess { span, .. } | Expr::Index { span, .. } => *span,
        Expr::Bin { span, .. } | Expr::Call { span, .. } | Expr::Match { span, .. } | Expr::Return { span, .. }
        | Expr::If { span, .. } | Expr::Unary { span, .. } | Expr::Try { span, .. } | Expr::Lambda { span, .. } => *span,
        Expr::Block { block } => block.span,
    }
}

/// The names of the unsigned conversion builtins.
pub open spec fn is_unsigned_ctor(name: Seq<char>) -> bool {
    name == "U8"@ || name == "U64"@ || name == "U128"@ || name == "U256"@
}

fn unsigned_ctor(name: &str) -> (r: bool)
    ensures
        r == is_unsigned_ctor(name@),
{
    str_eq(name, "U8") || str_eq(name, "U64") || str_eq(name, "U128") || str_eq(name, "U256")
}

/// The non-negative value a literal denotes, looking through `return`,
/// statement-free blocks and the unsigned conversions.
pub open spec fn unsigned_lit(e: Expr) -> Option<u128>
    decreases e,
{
    match e {
        Expr::Int(v, _) => if v >= 0 {
            Some(v as u128)
        } else {
            None
        },
        Expr::Return { expr, .. } => unsigned_lit(*expr),
        Expr::Block { block } => if block.statements@.len() == 0 {
            match block.tail {
                Some(t) => unsigned_lit(*t),
                None => None,
            }
        } else {
            None
        },
        Expr::Call { callee, args, .. } => if is_unsigned_ctor(callee@) && args@.len() == 1 {
            unsigned_lit(args@[0])
        } else {
            None
        },
        _ => None,
    }
}

pub fn unsigned_literal_value(expr: &Expr) -> (r: Option<u128>)
    ensures
        r == unsigned_lit(*expr),
    decreases expr,
{
    match expr {
        Expr::Int(value, _) => {
            if *value >= 0 {
                Some(*value as u128)
            } else {
                None
            }
        },
        Expr::Return { expr: inner, .. } => unsigned_literal_value(inner),
        Expr::Block { block } => {
            if block.statements.len() == 0 {
                match &block.tail {
                    Some(t) => {
                        assert(decreases_to!(block => block.tail));
                        unsigned_literal_value(t)
                    },
                    None => None,
                }
            } else {
                None
            }
        },
        Expr::Call { callee, args, .. } => {
            if unsigned_ctor(callee.as_str()) && args.len() == 1 {
                assert(decreases_to!(args => args@[0]));
                unsigned_literal_value(&args[0])
            } else {
                None
            }
        },
        _ => None,
    }
}

/// The integer a literal denotes, looking through `return` and statement-free blocks.
pub open spec fn int_lit(e: Expr) -> Option<i64>
    decreases e,
{
    match e {
        Expr::Int(v, _) => Some(v),
        Expr::Return { expr, .. } => int_lit(*expr),
        Expr::Block { block } => if block.statements@.len() == 0 {
            match block.tail {
                Some(t) => int_lit(*t),
                None => None,
            }
        } else {
            None
        },
        _ => None,
    }
}

pub fn int_literal_value(expr: &Expr) -> (r: Option<i64>)
    ensures
        r == int_lit(*expr),
    decreases expr,
{
    match expr {
        Expr::Int(value, _) => Some(*value),
        Expr::Return { expr: inner, .. } => int_literal_value(inner),
        Expr::Block { block } => {
            if block.statements.len() == 0 {
                match &block.tail {
                    Some(t) => {
                        assert(decreases_to!(block => block.tail));
                        int_literal_value(t)
                    },
                    None => None,
                }
            } else {
                None
            }
        },
        _ => None,
    }
}

/// The largest value of a bounded unsigned type (`U256` is not bounded here).
pub open spec fn unsigned_max(t: Ty) -> Option<u128> {
    match t {
        Ty::U8 => Some(255u128),
        Ty::U64 => Some(0xffff_ffff_ffff_ffffu128),
        Ty::U128 => Some(0xffff_ffff_ffff_ffff_ffff_ffff_ffff_ffffu128),
        _ => None,
    }
}

pub fn unsigned_literal_max(target: &Type) -> (r: Option<u128>)
    ensures
        r == unsigned_max(target@),
{
    match target {
        Type::U8 => Some(255u128),
        Type::U64 => Some(0xffff_ffff_ffff_ffffu128),
        Type::U128 => Some(0xffff_ffff_ffff_ffff_ffff_ffff_ffff_ffffu128),
        _ => None,
    }
}

/// Whether `value` fits the unsigned type `t` (a type without bound takes any).
pub open spec fn fits_value(t: Ty, value: u128) -> bool {
    match unsigned_max(t) {
        Some(max) => value <= max,
        None => true,
    }
}

pub fn unsigned_literal_fits_value(target: &Type, value: u128) -> (r: bool)
    ensures
        r == fits_value(target@, value),
{
    match unsigned_literal_max(target) {
        Some(max) => value <= max,
        None => true,
    }
}

/// A literal expression whose value fits `t`.
pub open spec fn literal_fits(t: Ty, e: Expr) -> bool {
    match unsigned_lit(e) {
        Some(v) => fits_value(t, v),
        None => false,
    }
}

pub fn unsigned_literal_fits(target: &Type, expr: &Expr) -> (r: bool)
    ensures
        r == literal_fits(target@, *expr),
{
    match unsigned_literal_value(expr) {
        Some(value) => unsigned_literal_fits_value(target, value),
        None => false,
    }
}

/// The unsigned integer types.
pub open spec fn is_unsigned_ty(t: Ty) -> bool {
    t is U8 || t is U64 || t is U128 || t is U256
}

fn is_unsigned_type(t: &Type) -> (r: bool)
    ensures
        r == is_unsigned_ty(t@),
{
    match t {
        Type::U8 | Type::U64 | Type::U128 | Type::U256 => true,
        _ => false,
    }
}

/// An `Int` literal may stand where an unsigned type is expected when its
/// value fits.
pub fn literal_can_coerce_unsigned(expected: &Type, actual: &Type, expr: &Expr) -> (r: bool)
    ensures
        r == (is_unsigned_ty(expected@) && actual@ is Int && literal_fits(expected@, *expr)),
{
    is_unsigned_type(expected) && matches!(actual, Type::Int) && unsigned_literal_fits(expected, expr)
}

/// An `Int` literal given where an unsigned type is expected, with a value
/// that the type cannot hold.
#[derive(Debug)]
pub struct UnsignedLiteralOutOfRange {
    pub target: Type,
    pub value: u128,
    pub span: Span,
}

/// The out-of-range literal, if `expr` is one for `expected`.
pub fn unsigned_literal_range_error(expected: &Type, actual: &Type, expr: &Expr) -> (r: Option<UnsignedLiteralOutOfRange>)
    ensures
        match r {
            Some(o) => is_unsigned_ty(expected@) && actual@ is Int && unsigned_lit(*expr) == Some(o.value)
                && !fits_value(expected@, o.value) && o.target@ == expected@ && o.span == span_of(*expr),
            None => !(is_unsigned_ty(expected@) && actual@ is Int && unsigned_lit(*expr) is Some
                && !fits_value(expected@, unsigned_lit(*expr)->0)),
        },
{
    if is_unsigned_type(expected) && matches!(actual, Type::Int) {
        if let Some(value) = unsigned_literal_value(expr) {
            if !unsigned_literal_fits_value(expected, value) {
                return Some(UnsignedLiteralOutOfRange { target: copy_type(expected), value, span: expr_span(expr) });
            }
        }
    }
    None
}

/// Whether folding two `U64` literals with `op` leaves the `U64` range
/// (only `+`, `-` and `*` are checked).
pub open spec fn u64_overflows(op: BinOp, lhs: u128, rhs: u128) -> bool {
    match op {
        BinOp::Add => lhs + rhs > 0xffff_ffff_ffff_ffffu128,
        BinOp::Sub => rhs > lhs,
        BinOp::Mul => lhs * rhs > 0xffff_ffff_ffff_ffffu128,
        _ => false,
    }
}

pub fn u64_literal_overflow(op: &BinOp, lhs: u128, rhs: u128) -> (r: bool)
    requires
        *op is Add ==> lhs + rhs <= u128::MAX,
    ensures
        r == u64_overflows(*op, lhs, rhs),
{
    let max: u128 = 0xffff_ffff_ffff_ffffu128;
    match op {
        BinOp::Add => lhs + rhs > max,
        BinOp::Sub => rhs > lhs,
        BinOp::Mul => match lhs.checked_mul(rhs) {
            Some(value) => value > max,
            None => true,
        },
        _ => false,
    }
}

/// The diagnostic for an operand `what` of type `ty` that has the wrong type;
/// `middle` names the type required.
pub open spec fn operand_error(e: TyperError, code: Seq<char>, middle: Seq<char>, what: Seq<char>, ty: Ty, span: Option<Span>) -> bool {
    &&& e.code@ == code
    &&& e.message@ == (match span {
        Some(sp) => at_span(sp),
        None => Seq::<char>::empty(),
    }) + what + middle + show(ty) + "`"@
    &&& e.start == (match span {
        Some(sp) => sp.start,
        None => 0,
    })
    &&& e.end == (match span {
        Some(sp) => sp.end,
        None => 0,
    })
}

/// Requires a type that expands to `Int`.
pub fn ensure_int(ty: Type, aliases: &AliasMap, what: &str, span: Option<Span>) -> (r: Result<(), TyperError>)
    ensures
        match base_of(ty@, aliases@) {
            Ok(t) => match r {
                Ok(_) => t is Int,
                Err(e) => !(t is Int) && operand_error(e, "T005"@, " must be Int, found `"@, what@, ty@, span),
            },
            Err(x) => r matches Err(e) && aliases@.contains_key(x) && is_cyclic_alias_error(e, x, aliases@[x].span),
        },
{
    let resolved = base_type(&ty, aliases)?;
    if !matches!(resolved, Type::Int) {
        let e = TyperError::int_operand(what, ty, span);
        proof {
            match span {
                Some(sp) => assert(e.message@ =~= at_span(sp) + what@ + " must be Int, found `"@ + show(ty@) + "`"@),
                None => assert(e.message@ =~= Seq::<char>::empty() + what@ + " must be Int, found `"@ + show(ty@) + "`"@),
            }
        }
        return Err(e);
    }
    Ok(())
}

/// Requires a type that expands to `Bool`.
pub fn ensure_bool(ty: Type, aliases: &AliasMap, what: &str, span: Option<Span>) -> (r: Result<(), TyperError>)
    ensures
        match base_of(ty@, aliases@) {
            Ok(t) => match r {
                Ok(_) => t is Bool,
                Err(e) => !(t is Bool) && operand_error(e, "T012"@, " must be Bool, found `"@, what@, ty@, span),
            },
            Err(x) => r matches Err(e) && aliases@.contains_key(x) && is_cyclic_alias_error(e, x, aliases@[x].span),
        },
{
    let resolved = base_type(&ty, aliases)?;
    if !matches!(resolved, Type::Bool) {
        let e = TyperError::bool_operand(what, ty, span);
        proof {
            match span {
                Some(sp) => assert(e.message@ =~= at_span(sp) + what@ + " must be Bool, found `"@ + show(ty@) + "`"@),
                None => assert(e.message@ =~= Seq::<char>::empty() + what@ + " must be Bool, found `"@ + show(ty@) + "`"@),
            }
        }
        return Err(e);
    }
    Ok(())
}

} // verus!
