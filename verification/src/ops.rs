use vstd::prelude::*;
use crate::ast::{BinOp, Expr, UnaryOp};
use crate::display::show;
use crate::errors::{at_span, TyperError};
use crate::literals::{
    ensure_bool, ensure_int, expr_span, int_lit, int_literal_value, is_unsigned_ty, literal_can_coerce_unsigned, literal_fits, operand_error, span_of, u64_literal_overflow,
    u64_overflows, unsigned_lit, unsigned_literal_range_error, unsigned_literal_value, fits_value,
    UnsignedLiteralOutOfRange,
};
use crate::ty::{copy_type, type_eq, types_view, Span, Ty, Type};
use crate::type_resolve::{base_of, base_type, base_types_match, is_cyclic_alias_error, shapes_match, AliasMap, AliasV};

verus! {

/// The source spelling of a binary operator.
pub open spec fn op_str(op: BinOp) -> Seq<char> {
    match op {
        BinOp::Add => "+"@,
        BinOp::Sub => "-"@,
        BinOp::Mul => "*"@,
        BinOp::Div => "/"@,
        BinOp::BitAnd => "&"@,
        BinOp::BitOr => "|"@,
        BinOp::BitXor => "^"@,
        BinOp::Shl => "<<"@,
        BinOp::Shr => ">>"@,
        BinOp::Lt => "<"@,
        BinOp::Le => "<="@,
        BinOp::Gt => ">"@,
        BinOp::Ge => ">="@,
        BinOp::Eq => "=="@,
        BinOp::Neq => "!="@,
        BinOp::And => "&&"@,
        BinOp::Or => "||"@,
    }
}

fn op_symbol(op: BinOp) -> (s: &'static str)
    ensures
        s@ == op_str(op),
{
    match op {
        BinOp::Add => "+",
        BinOp::Sub => "-",
        BinOp::Mul => "*",
        BinOp::Div => "/",
        BinOp::BitAnd => "&",
        BinOp::BitOr => "|",
        BinOp::BitXor => "^",
        BinOp::Shl => "<<",
        BinOp::Shr => ">>",
        BinOp::Lt => "<",
        BinOp::Le => "<=",
        BinOp::Gt => ">",
        BinOp::Ge => ">=",
        BinOp::Eq => "==",
        BinOp::Neq => "!=",
        BinOp::And => "&&",
        BinOp::Or => "||",
    }
}

pub open spec fn is_arith(op: BinOp) -> bool {
    op is Add || op is Sub || op is Mul || op is Div
}

pub open spec fn is_bitwise(op: BinOp) -> bool {
    op is BitAnd || op is BitOr || op is BitXor
}

pub open spec fn is_shift(op: BinOp) -> bool {
    op is Shl || op is Shr
}

pub open spec fn is_ordering(op: BinOp) -> bool {
    op is Lt || op is Le || op is Gt || op is Ge
}

/// `U128` and `U256` take no part in operators.
pub open spec fn wide_unsigned(t: Ty) -> bool {
    t is U128 || t is U256
}

/// The type of a numeric operation on expanded operand types, where a
/// literal operand may take the unsigned type of the other side.
pub open spec fn numeric_result(op: BinOp, lb: Ty, rb: Ty, lhs: Expr, rhs: Expr) -> Option<Ty> {
    let num = if is_shift(op) {
        match (lb, rb) {
            (Ty::Int, Ty::Int) => Some(Ty::Int),
            (Ty::U64, Ty::U64) => Some(Ty::U64),
            (Ty::U64, Ty::Int) => if unsigned_lit(rhs) is Some { Some(Ty::U64) } else { None },
            _ => None,
        }
    } else {
        match (lb, rb) {
            (Ty::U64, Ty::U64) => Some(Ty::U64),
            (Ty::U64, Ty::Int) => if unsigned_lit(rhs) is Some { Some(Ty::U64) } else { None },
            (Ty::Int, Ty::U64) => if unsigned_lit(lhs) is Some { Some(Ty::U64) } else { None },
            (Ty::Int, Ty::Int) => Some(Ty::Int),
            _ => None,
        }
    };
    if is_ordering(op) {
        match num {
            Some(_) => Some(Ty::Bool),
            None => None,
        }
    } else {
        num
    }
}

/// Why a binary operation does not type.
pub enum BinFault {
    /// An operand type runs into an alias cycle through this alias.
    Cyclic(Seq<char>),
    /// A `U128` or `U256` operand.
    Unsupported(Ty),
    /// Two literals whose folded value leaves the `U64` range, for this operator.
    ConstOverflow(Seq<char>),
    /// An operand of the wrong kind: code, middle of the message, which operand, its type.
    Operand(Seq<char>, Seq<char>, Seq<char>, Ty),
    /// Operand types that do not fit together, for this operator.
    Mismatch(Seq<char>, Ty, Ty),
    /// A literal that the unsigned type of the other side cannot hold.
    LitRange(Ty, u128, Span),
}

/// The type of `lhs op rhs` given the types of its operands.
pub open spec fn bin_typing(op: BinOp, lhs: Expr, rhs: Expr, lt: Ty, rt: Ty, al: Map<Seq<char>, AliasV>) -> Result<Ty, BinFault> {
    if op is And || op is Or {
        match base_of(lt, al) {
            Err(x) => Err(BinFault::Cyclic(x)),
            Ok(lb) => if !(lb is Bool) {
                Err(BinFault::Operand("T012"@, " must be Bool, found `"@, "left operand"@, lt))
            } else {
                match base_of(rt, al) {
                    Err(x) => Err(BinFault::Cyclic(x)),
                    Ok(rb) => if !(rb is Bool) {
                        Err(BinFault::Operand("T012"@, " must be Bool, found `"@, "right operand"@, rt))
                    } else {
                        Ok(Ty::Bool)
                    },
                }
            },
        }
    } else {
        match base_of(lt, al) {
            Err(x) => Err(BinFault::Cyclic(x)),
            Ok(lb) => match base_of(rt, al) {
                Err(x) => Err(BinFault::Cyclic(x)),
                Ok(rb) => if wide_unsigned(lb) {
                    Err(BinFault::Unsupported(lb))
                } else if wide_unsigned(rb) {
                    Err(BinFault::Unsupported(rb))
                } else if op is Eq || op is Neq {
                    if !shapes_match(lb, rb) && !(is_unsigned_ty(lt) && rt is Int && literal_fits(lt, rhs))
                        && !(is_unsigned_ty(rt) && lt is Int && literal_fits(rt, lhs)) {
                        if is_unsigned_ty(lt) && rt is Int && unsigned_lit(rhs) is Some && !fits_value(lt, unsigned_lit(rhs)->0) {
                            Err(BinFault::LitRange(lt, unsigned_lit(rhs)->0, span_of(rhs)))
                        } else if is_unsigned_ty(rt) && lt is Int && unsigned_lit(lhs) is Some && !fits_value(rt, unsigned_lit(lhs)->0) {
                            Err(BinFault::LitRange(rt, unsigned_lit(lhs)->0, span_of(lhs)))
                        } else {
                            Err(BinFault::Mismatch(op_str(op), lt, rt))
                        }
                    } else {
                        Ok(Ty::Bool)
                    }
                } else if is_arith(op) && (lb is U64 || rb is U64) && unsigned_lit(lhs) is Some && unsigned_lit(rhs) is Some
                    && u64_overflows(op, unsigned_lit(lhs)->0, unsigned_lit(rhs)->0) {
                    Err(BinFault::ConstOverflow(op_str(op)))
                } else if is_arith(op) && lb is Int && !(rb is Int) && !(rb is U64) {
                    Err(BinFault::Operand("T005"@, " must be Int, found `"@, "right operand"@, rt))
                } else if is_arith(op) && rb is Int && !(lb is Int) && !(lb is U64) {
                    Err(BinFault::Operand("T005"@, " must be Int, found `"@, "left operand"@, lt))
                } else {
                    match numeric_result(op, lb, rb, lhs, rhs) {
                        Some(t) => Ok(t),
                        None => Err(BinFault::Mismatch(op_str(op), lt, rt)),
                    }
                },
            },
        }
    }
}

/// A binary operation that does not type.
#[derive(Debug)]
pub enum BinaryOpError {
    /// A diagnostic: an alias cycle, an operand of the wrong kind, or
    /// operands that do not fit together.
    Typer(TyperError),
    /// `U128` and `U256` values take no part in operators.
    UnsignedNotSupported { ty: Type, span: Span },
    /// Folding two `U64` literals leaves the `U64` range.
    UnsignedConstantOverflow { op: &'static str, span: Span },
    /// A literal that the unsigned type of the other side cannot hold.
    LiteralOutOfRange(UnsignedLiteralOutOfRange),
}

/// `e` reports the fault `f` of the operation at `span`.
pub open spec fn bin_error_is(e: BinaryOpError, f: BinFault, span: Span, al: Map<Seq<char>, AliasV>) -> bool {
    match f {
        BinFault::Cyclic(x) => e matches BinaryOpError::Typer(te) && al.contains_key(x)
            && is_cyclic_alias_error(te, x, al[x].span),
        BinFault::Unsupported(t) => e matches BinaryOpError::UnsignedNotSupported { ty, span: s } && ty@ == t && s == span,
        BinFault::ConstOverflow(o) => e matches BinaryOpError::UnsignedConstantOverflow { op, span: s } && op@ == o && s == span,
        BinFault::Operand(code, middle, what, t) => e matches BinaryOpError::Typer(te) && operand_error(
            te,
            code,
            middle,
            what,
            t,
            Some(span),
        ),
        BinFault::Mismatch(o, l, r) => e matches BinaryOpError::Typer(te) && te.code@ == "T013"@ && te.message@ == at_span(span)
            + "operands of `"@ + o + "` must have the same type, found `"@ + show(l) + "` and `"@ + show(r) + "`"@
            && te.start == span.start && te.end == span.end,
        BinFault::LitRange(t, v, s) => e matches BinaryOpError::LiteralOutOfRange(o) && o.target@ == t && o.value == v
            && o.span == s,
    }
}

/// Literal values come from `i64` literals.
proof fn lemma_unsigned_lit_bound(e: Expr)
    ensures
        unsigned_lit(e) is Some ==> unsigned_lit(e)->0 <= 0x7fff_ffff_ffff_ffffu128,
    decreases e,
{
    match e {
        Expr::Return { expr, .. } => lemma_unsigned_lit_bound(*expr),
        Expr::Block { block } => {
            if let Some(t) = block.tail {
                assert(decreases_to!(e => block));
                lemma_unsigned_lit_bound(*t);
            }
        },
        Expr::Call { args, .. } => {
            if args@.len() == 1 {
                assert(decreases_to!(args => args@[0]));
                lemma_unsigned_lit_bound(args@[0]);
            }
        },
        _ => {},
    }
}

fn mismatch(op: BinOp, lt: Type, rt: Type, span: Span) -> (e: BinaryOpError)
    ensures
        bin_error_is(e, BinFault::Mismatch(op_str(op), lt@, rt@), span, Map::empty()),
{
    BinaryOpError::Typer(TyperError::binary_operands_mismatch(op_symbol(op), lt, rt, span))
}

fn int_operand_error(what: &str, ty: Type, span: Span) -> (e: BinaryOpError)
    ensures
        bin_error_is(e, BinFault::Operand("T005"@, " must be Int, found `"@, what@, ty@), span, Map::empty()),
{
    let ghost tv = ty@;
    let te = TyperError::int_operand(what, ty, Some(span));
    assert(te.message@ =~= at_span(span) + what@ + " must be Int, found `"@ + show(tv) + "`"@);
    BinaryOpError::Typer(te)
}

/// The type of `lhs op rhs`, given the types `lt` and `rt` of its operands.
pub fn type_bin_expr(op: BinOp, lhs: &Expr, rhs: &Expr, lt: Type, rt: Type, span: Span, aliases: &AliasMap) -> (r: Result<Type, BinaryOpError>)
    ensures
        match bin_typing(op, *lhs, *rhs, lt@, rt@, aliases@) {
            Ok(t) => r matches Ok(rty) && rty@ == t,
            Err(f) => r matches Err(e) && bin_error_is(e, f, span, aliases@),
        },
{
    proof {
        aliases.lemma_finite();
    }
    if matches!(op, BinOp::And | BinOp::Or) {
        if let Err(e) = ensure_bool(copy_type(&lt), aliases, "left operand", Some(span)) {
            return Err(BinaryOpError::Typer(e));
        }
        if let Err(e) = ensure_bool(copy_type(&rt), aliases, "right operand", Some(span)) {
            return Err(BinaryOpError::Typer(e));
        }
        return Ok(Type::Bool);
    }
    let lb = match base_type(&lt, aliases) {
        Ok(t) => t,
        Err(e) => return Err(BinaryOpError::Typer(e)),
    };
    let rb = match base_type(&rt, aliases) {
        Ok(t) => t,
        Err(e) => return Err(BinaryOpError::Typer(e)),
    };
    if matches!(lb, Type::U128 | Type::U256) {
        return Err(BinaryOpError::UnsignedNotSupported { ty: lb, span });
    }
    if matches!(rb, Type::U128 | Type::U256) {
        return Err(BinaryOpError::UnsignedNotSupported { ty: rb, span });
    }
    if matches!(op, BinOp::Eq | BinOp::Neq) {
        let same = match base_types_match(&lt, &rt, aliases) {
            Ok(b) => b,
            Err(e) => return Err(BinaryOpError::Typer(e)),
        };
        if !same && !literal_can_coerce_unsigned(&lt, &rt, rhs) && !literal_can_coerce_unsigned(&rt, &lt, lhs) {
            if let Some(o) = unsigned_literal_range_error(&lt, &rt, rhs) {
                return Err(BinaryOpError::LiteralOutOfRange(o));
            }
            if let Some(o) = unsigned_literal_range_error(&rt, &lt, lhs) {
                return Err(BinaryOpError::LiteralOutOfRange(o));
            }
            return Err(mismatch(op, lt, rt, span));
        }
        return Ok(Type::Bool);
    }
    let arith = matches!(op, BinOp::Add | BinOp::Sub | BinOp::Mul | BinOp::Div);
    let lv = unsigned_literal_value(lhs);
    let rv = unsigned_literal_value(rhs);
    if arith && (matches!(lb, Type::U64) || matches!(rb, Type::U64)) {
        if let (Some(l), Some(r)) = (lv, rv) {
            proof {
                lemma_unsigned_lit_bound(*lhs);
                lemma_unsigned_lit_bound(*rhs);
            }
            if u64_literal_overflow(&op, l, r) {
                return Err(BinaryOpError::UnsignedConstantOverflow { op: op_symbol(op), span });
            }
        }
    }
    let lt_is_int = matches!(lb, Type::Int);
    let rt_is_int = matches!(rb, Type::Int);
    let lt_is_u64 = matches!(lb, Type::U64);
    let rt_is_u64 = matches!(rb, Type::U64);
    if arith && lt_is_int && !rt_is_int && !rt_is_u64 {
        return Err(int_operand_error("right operand", rt, span));
    }
    if arith && rt_is_int && !lt_is_int && !lt_is_u64 {
        return Err(int_operand_error("left operand", lt, span));
    }
    let shift = matches!(op, BinOp::Shl | BinOp::Shr);
    let num = if shift {
        match (&lb, &rb) {
            (Type::Int, Type::Int) => Some(Type::Int),
            (Type::U64, Type::U64) => Some(Type::U64),
            (Type::U64, Type::Int) => if rv.is_some() { Some(Type::U64) } else { None },
            _ => None,
        }
    } else {
        match (&lb, &rb) {
            (Type::U64, Type::U64) => Some(Type::U64),
            (Type::U64, Type::Int) => if rv.is_some() { Some(Type::U64) } else { None },
            (Type::Int, Type::U64) => if lv.is_some() { Some(Type::U64) } else { None },
            (Type::Int, Type::Int) => Some(Type::Int),
            _ => None,
        }
    };
    match num {
        Some(t) => {
            if matches!(op, BinOp::Lt | BinOp::Le | BinOp::Gt | BinOp::Ge) {
                Ok(Type::Bool)
            } else {
                Ok(t)
            }
        },
        None => Err(mismatch(op, lt, rt, span)),
    }
}

/// The type of `op e`, given the type `inner` of `e`: `!` takes and gives
/// `Bool`.
pub fn type_unary_expr(op: UnaryOp, inner: Type, span: Span, aliases: &AliasMap) -> (r: Result<Type, TyperError>)
    ensures
        match base_of(inner@, aliases@) {
            Ok(t) => match r {
                Ok(rt) => t is Bool && rt@ == Ty::Bool,
                Err(e) => !(t is Bool) && operand_error(e, "T012"@, " must be Bool, found `"@, "operand"@, inner@, Some(span)),
            },
            Err(x) => r matches Err(e) && aliases@.contains_key(x) && is_cyclic_alias_error(e, x, aliases@[x].span),
        },
{
    match op {
        UnaryOp::Not => {
            ensure_bool(inner, aliases, "operand", Some(span))?;
            Ok(Type::Bool)
        },
    }
}

/// The outcome of `?` on an operand of type `inner`, in a function whose
/// declared result is `ret` (none where no result binding is in scope).
pub open spec fn try_outcome_ok(inner: Ty, ret: Option<Ty>) -> Option<Ty> {
    match ret {
        None => None,
        Some(rt) => match inner {
            Ty::Option(i) => match rt {
                Ty::Option(ri) => if *i == *ri { Some(*i) } else { None },
                _ => None,
            },
            Ty::Result(ok, er) => match rt {
                Ty::Result(rok, rer) => if *ok == *rok && *er == *rer { Some(*ok) } else { None },
                _ => None,
            },
            _ => None,
        },
    }
}

/// The diagnostic that `?` gives: its code and message.
pub open spec fn try_error(inner: Ty, ret: Option<Ty>, span: Span) -> (Seq<char>, Seq<char>) {
    match ret {
        None => ("T606"@, at_span(span) + "internal error: missing $return binding for ?"@),
        Some(rt) => match inner {
            Ty::Option(i) => match rt {
                Ty::Option(ri) => ("T603"@, at_span(span) + "? expects Option inner type "@ + show(*ri) + " but expression yields "@ + show(*i)),
                _ => ("T601"@, at_span(span) + "? requires function return type Option<_>, found "@ + show(rt)),
            },
            Ty::Result(ok, er) => match rt {
                Ty::Result(rok, rer) => ("T605"@, at_span(span) + "? expects Result types "@ + show(*rok) + "/"@ + show(*rer)
                    + " but expression yields "@ + show(*ok) + "/"@ + show(*er)),
                _ => ("T604"@, at_span(span) + "? requires function return type Result<_, _>, found "@ + show(rt)),
            },
            _ => ("T602"@, at_span(span) + "? operand must be Option<_> or Result<_, _>, found "@ + show(inner)),
        },
    }
}

/// Types `?` applied to an operand of type `inner` (the operand has been
/// typed already), in a function whose declared result is `ret`: an
/// `Option<T>` operand needs an `Option<T>` result and yields `T`; a
/// `Result<T, E>` operand needs a `Result<T, E>` result and yields `T`.
/// Anything else is refused with the diagnostic of `try_error` at `span`.
pub fn type_try_expr(inner: &Type, ret: Option<&Type>, span: Span) -> (r: Result<Type, TyperError>)
    ensures
        match try_outcome_ok(inner@, match ret { Some(t) => Some(t@), None => None }) {
            Some(t) => r matches Ok(x) && x@ == t,
            None => r matches Err(e) && (e.code@, e.message@) == try_error(inner@, match ret { Some(t) => Some(t@), None => None }, span)
                && e.start == span.start && e.end == span.end,
        },
{
    let rt = match ret {
        Some(t) => t,
        None => return Err(TyperError::try_missing_return(span)),
    };
    match inner {
        Type::Option(i) => match rt {
            Type::Option(ri) => {
                if type_eq(i, ri) {
                    Ok(copy_type(i))
                } else {
                    Err(TyperError::try_option_inner_mismatch(copy_type(ri), copy_type(i), span))
                }
            },
            _ => Err(TyperError::try_option_return_required(copy_type(rt), span)),
        },
        Type::Result(ok, er) => match rt {
            Type::Result(rok, rer) => {
                if type_eq(ok, rok) && type_eq(er, rer) {
                    Ok(copy_type(ok))
                } else {
                    Err(TyperError::try_result_mismatch(copy_type(rok), copy_type(rer), copy_type(ok), copy_type(er), span))
                }
            },
            _ => Err(TyperError::try_result_return_required(copy_type(rt), span)),
        },
        _ => Err(TyperError::try_input_not_option_result(copy_type(inner), span)),
    }
}

/// Why indexing was refused.
pub enum IndexFault {
    /// Alias expansion ran into a cycle through this alias.
    Cycle(Seq<char>),
    /// The index is not an integer.
    NotInt,
    /// A constant index falls outside the array or tuple, or is negative.
    OutOfBounds,
    /// A tuple is indexed by something other than an integer literal.
    NotConstant,
    /// The indexed value is not an array, a slice or a tuple.
    NotIndexable(Ty),
}

/// The type of `base[index]`, given the operands' types and the index's
/// literal value (if it is one): the index must be an integer; an array
/// yields its element (a constant index must be within its length), a slice
/// its element (a constant index must not be negative), a tuple the element
/// at a constant in-range index.
pub open spec fn index_outcome(base: Ty, idx: Ty, lit: Option<i64>, al: Map<Seq<char>, AliasV>) -> Result<Ty, IndexFault> {
    match base_of(idx, al) {
        Err(x) => Err(IndexFault::Cycle(x)),
        Ok(it) => if !(it is Int) {
            Err(IndexFault::NotInt)
        } else {
            match base_of(base, al) {
                Err(x) => Err(IndexFault::Cycle(x)),
                Ok(b) => match b {
                    Ty::Array(inner, len) => match lit {
                        Some(v) => if v < 0 || (len is Some && v >= len->0) { Err(IndexFault::OutOfBounds) } else { Ok(*inner) },
                        None => Ok(*inner),
                    },
                    Ty::Slice(inner) => match lit {
                        Some(v) => if v < 0 { Err(IndexFault::OutOfBounds) } else { Ok(*inner) },
                        None => Ok(*inner),
                    },
                    Ty::Tuple(es) => match lit {
                        None => Err(IndexFault::NotConstant),
                        Some(v) => if v < 0 || v >= es.len() { Err(IndexFault::OutOfBounds) } else { Ok(es[v as int]) },
                    },
                    _ => Err(IndexFault::NotIndexable(b)),
                },
            }
        },
    }
}

/// Why indexing was refused.
#[derive(Debug)]
pub enum IndexError {
    Typer(TyperError),
    OutOfBounds { span: Span },
    TupleIndexNotConstant { span: Span },
}

/// `e` reports the fault `f`; the index is at `ispan`, the whole expression at `span`.
pub open spec fn reports_index_fault(e: IndexError, f: IndexFault, idx: Ty, ispan: Span, span: Span, al: Map<Seq<char>, AliasV>) -> bool {
    match f {
        IndexFault::Cycle(x) => e matches IndexError::Typer(t) && al.contains_key(x) && is_cyclic_alias_error(t, x, al[x].span),
        IndexFault::NotInt => e matches IndexError::Typer(t) && operand_error(t, "T005"@, " must be Int, found `"@, "index"@, idx, Some(ispan)),
        IndexFault::OutOfBounds => e matches IndexError::OutOfBounds { span: s } && s == ispan,
        IndexFault::NotConstant => e matches IndexError::TupleIndexNotConstant { span: s } && s == ispan,
        IndexFault::NotIndexable(b) => e matches IndexError::Typer(t) && t.code@ == "T207"@
            && t.message@ == at_span(span) + "expected "@ + "array, slice, or tuple"@ + " argument, found `"@ + show(b) + "`"@
            && t.start == span.start && t.end == span.end,
    }
}

/// Types `base[index]` once the base and the index have been typed (see
/// `index_outcome`); refusals are reported at the index, or at `span` for a
/// value that cannot be indexed.
pub fn type_index_expr(base_ty: &Type, idx_ty: &Type, index: &Expr, span: Span, aliases: &AliasMap) -> (r: Result<Type, IndexError>)
    ensures
        match index_outcome(base_ty@, idx_ty@, int_lit(*index), aliases@) {
            Ok(t) => r matches Ok(x) && x@ == t,
            Err(f) => r matches Err(e) && reports_index_fault(e, f, idx_ty@, span_of(*index), span, aliases@),
        },
{
    let lit = int_literal_value(index);
    let ispan = expr_span(index);
    if let Err(e) = ensure_int(copy_type(idx_ty), aliases, "index", Some(ispan)) {
        return Err(IndexError::Typer(e));
    }
    let resolved = match base_type(base_ty, aliases) {
        Ok(t) => t,
        Err(e) => return Err(IndexError::Typer(e)),
    };
    match resolved {
        Type::Array(inner, len) => {
            if let Some(v) = lit {
                let over = match len {
                    Some(l) => v >= l as i64,
                    None => false,
                };
                if v < 0 || over {
                    return Err(IndexError::OutOfBounds { span: ispan });
                }
            }
            Ok(*inner)
        },
        Type::Slice(inner) => {
            if let Some(v) = lit {
                if v < 0 {
                    return Err(IndexError::OutOfBounds { span: ispan });
                }
            }
            Ok(*inner)
        },
        Type::Tuple(elems) => {
            let v = match lit {
                Some(v) => v,
                None => return Err(IndexError::TupleIndexNotConstant { span: ispan }),
            };
            assert(types_view(elems@).len() == elems@.len());
            if v < 0 || v as u64 >= elems.len() as u64 {
                return Err(IndexError::OutOfBounds { span: ispan });
            }
            let k = v as usize;
            proof {
                crate::ty::lemma_types_view_index(elems@, k as int);
            }
            Ok(copy_type(&elems[k]))
        },
        other => Err(IndexError::Typer(TyperError::expected_collection("array, slice, or tuple", other, span))),
    }
}

/// Operators on two operands of one integer type: `+ - * /`, the bitwise
/// operators and the shifts give that type (`Int` or `U64`, but for two
/// `U64` literals whose folded value overflows), the orderings give `Bool`;
/// whatever aliases the operand types go through.
pub proof fn lemma_same_integer_operands(op: BinOp, lhs: Expr, rhs: Expr, lt: Ty, rt: Ty, al: Map<Seq<char>, AliasV>, base: Ty)
    requires
        base == Ty::Int || base == Ty::U64,
        base_of(lt, al) == Ok::<Ty, Seq<char>>(base),
        base_of(rt, al) == Ok::<Ty, Seq<char>>(base),
        is_arith(op) || is_bitwise(op) || is_shift(op) || is_ordering(op),
        base == Ty::U64 && is_arith(op) ==> !(unsigned_lit(lhs) is Some && unsigned_lit(rhs) is Some),
    ensures
        is_ordering(op) ==> bin_typing(op, lhs, rhs, lt, rt, al) == Ok::<Ty, BinFault>(Ty::Bool),
        !is_ordering(op) ==> bin_typing(op, lhs, rhs, lt, rt, al) == Ok::<Ty, BinFault>(base),
{
}

} // verus!
