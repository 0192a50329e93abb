use typer::ast::{BinOp, Expr};
use typer::display::show_ty;
use typer::ops::{type_bin_expr, type_index_expr, type_try_expr, BinaryOpError, IndexError};
use typer::ty::{Span, Type};
use typer::type_resolve::{AliasDef, AliasMap};

fn sp(start: usize, end: usize) -> Span {
    Span { start, end }
}

fn lit(v: i64) -> Expr {
    Expr::Int(v, sp(20, 22))
}

fn var(n: &str) -> Expr {
    Expr::Var(n.to_string(), sp(0, 1))
}

fn aliases() -> AliasMap {
    let mut m = AliasMap::new();
    m.insert(
        "Positive".to_string(),
        AliasDef { type_params: Vec::new(), base: Type::Int, predicate: Expr::Bool(true, sp(0, 0)), binder: None, span: sp(1, 2) },
    );
    m
}

fn ty_of(r: Result<Type, BinaryOpError>) -> String {
    show_ty(&r.expect("types"))
}

#[test]
fn arithmetic_on_ints_and_u64() {
    let al = aliases();
    let s = sp(0, 9);
    assert_eq!(ty_of(type_bin_expr(BinOp::Add, &var("a"), &var("b"), Type::Int, Type::Int, s, &al)), "Int");
    let pos = Type::Named { name: "Positive".to_string(), args: Vec::new() };
    assert_eq!(ty_of(type_bin_expr(BinOp::Mul, &var("a"), &var("b"), pos, Type::Int, s, &al)), "Int");
    assert_eq!(ty_of(type_bin_expr(BinOp::Sub, &var("a"), &var("b"), Type::U64, Type::U64, s, &al)), "U64");
    assert_eq!(ty_of(type_bin_expr(BinOp::Add, &var("a"), &lit(3), Type::U64, Type::Int, s, &al)), "U64");
    assert_eq!(ty_of(type_bin_expr(BinOp::Add, &lit(3), &var("b"), Type::Int, Type::U64, s, &al)), "U64");
    match type_bin_expr(BinOp::Add, &var("a"), &var("b"), Type::U64, Type::Int, s, &al) {
        Err(BinaryOpError::Typer(e)) => {
            assert_eq!(e.code, "T013");
            assert_eq!(e.message, "at 0..9: operands of `+` must have the same type, found `U64` and `Int`");
        }
        other => panic!("unexpected {other:?}"),
    }
}

#[test]
fn arithmetic_operand_errors() {
    let al = aliases();
    let s = sp(3, 7);
    match type_bin_expr(BinOp::Add, &var("a"), &var("b"), Type::Int, Type::Bool, s, &al) {
        Err(BinaryOpError::Typer(e)) => {
            assert_eq!(e.code, "T005");
            assert_eq!(e.message, "at 3..7: right operand must be Int, found `Bool`");
        }
        other => panic!("unexpected {other:?}"),
    }
    match type_bin_expr(BinOp::Div, &var("a"), &var("b"), Type::String, Type::Int, s, &al) {
        Err(BinaryOpError::Typer(e)) => assert_eq!(e.message, "at 3..7: left operand must be Int, found `String`"),
        other => panic!("unexpected {other:?}"),
    }
    match type_bin_expr(BinOp::Add, &var("a"), &var("b"), Type::U128, Type::Int, s, &al) {
        Err(BinaryOpError::UnsignedNotSupported { ty, span }) => {
            assert_eq!(show_ty(&ty), "U128");
            assert_eq!(span, s);
        }
        other => panic!("unexpected {other:?}"),
    }
    let big = Expr::Int(i64::MAX, sp(0, 1));
    match type_bin_expr(BinOp::Mul, &big, &big, Type::U64, Type::Int, s, &al) {
        Err(BinaryOpError::UnsignedConstantOverflow { op, span }) => {
            assert_eq!(op, "*");
            assert_eq!(span, s);
        }
        other => panic!("unexpected {other:?}"),
    }
    match type_bin_expr(BinOp::Sub, &lit(1), &lit(2), Type::U64, Type::U64, s, &al) {
        Err(BinaryOpError::UnsignedConstantOverflow { op, .. }) => assert_eq!(op, "-"),
        other => panic!("unexpected {other:?}"),
    }
}

#[test]
fn bitwise_shift_and_ordering() {
    let al = aliases();
    let s = sp(0, 1);
    assert_eq!(ty_of(type_bin_expr(BinOp::BitAnd, &var("a"), &var("b"), Type::U64, Type::U64, s, &al)), "U64");
    assert_eq!(ty_of(type_bin_expr(BinOp::Shl, &var("a"), &lit(2), Type::U64, Type::Int, s, &al)), "U64");
    assert!(type_bin_expr(BinOp::Shl, &lit(2), &var("b"), Type::Int, Type::U64, s, &al).is_err());
    assert_eq!(ty_of(type_bin_expr(BinOp::Lt, &var("a"), &var("b"), Type::Int, Type::Int, s, &al)), "Bool");
    assert_eq!(ty_of(type_bin_expr(BinOp::Ge, &lit(1), &var("b"), Type::Int, Type::U64, s, &al)), "Bool");
    match type_bin_expr(BinOp::Le, &var("a"), &var("b"), Type::Bool, Type::Bool, s, &al) {
        Err(BinaryOpError::Typer(e)) => assert_eq!(e.code, "T013"),
        other => panic!("unexpected {other:?}"),
    }
}

#[test]
fn equality_and_literal_ranges() {
    let al = aliases();
    let s = sp(0, 1);
    let arr3 = Type::Array(Box::new(Type::U8), Some(3));
    let arr4 = Type::Array(Box::new(Type::U8), Some(4));
    assert_eq!(ty_of(type_bin_expr(BinOp::Eq, &var("a"), &var("b"), arr3, arr4, s, &al)), "Bool");
    assert_eq!(ty_of(type_bin_expr(BinOp::Neq, &var("a"), &lit(7), Type::U8, Type::Int, s, &al)), "Bool");
    match type_bin_expr(BinOp::Eq, &var("a"), &lit(300), Type::U8, Type::Int, s, &al) {
        Err(BinaryOpError::LiteralOutOfRange(o)) => {
            assert_eq!(show_ty(&o.target), "U8");
            assert_eq!(o.value, 300);
            assert_eq!(o.span, sp(20, 22));
        }
        other => panic!("unexpected {other:?}"),
    }
    match type_bin_expr(BinOp::Neq, &var("a"), &var("b"), Type::String, Type::Bytes, s, &al) {
        Err(BinaryOpError::Typer(e)) => {
            assert_eq!(e.message, "at 0..1: operands of `!=` must have the same type, found `String` and `Bytes`")
        }
        other => panic!("unexpected {other:?}"),
    }
}

#[test]
fn logical_operators_need_bools() {
    let al = aliases();
    let s = sp(5, 6);
    assert_eq!(ty_of(type_bin_expr(BinOp::And, &var("a"), &var("b"), Type::Bool, Type::Bool, s, &al)), "Bool");
    match type_bin_expr(BinOp::Or, &var("a"), &var("b"), Type::Bool, Type::Int, s, &al) {
        Err(BinaryOpError::Typer(e)) => {
            assert_eq!(e.code, "T012");
            assert_eq!(e.message, "at 5..6: right operand must be Bool, found `Int`");
        }
        other => panic!("unexpected {other:?}"),
    }
}

fn opt(t: Type) -> Type {
    Type::Option(Box::new(t))
}

fn res(a: Type, b: Type) -> Type {
    Type::Result(Box::new(a), Box::new(b))
}

#[test]
fn try_unwraps_matching_options_and_results() {
    let s = sp(5, 9);
    assert_eq!(show_ty(&type_try_expr(&opt(Type::Int), Some(&opt(Type::Int)), s).unwrap()), "Int");
    assert_eq!(show_ty(&type_try_expr(&res(Type::U64, Type::String), Some(&res(Type::U64, Type::String)), s).unwrap()), "U64");
}

#[test]
fn try_refusals_carry_their_codes() {
    let s = sp(5, 9);
    let e = type_try_expr(&opt(Type::Int), Some(&opt(Type::Bool)), s).unwrap_err();
    assert_eq!(e.code, "T603");
    assert_eq!(e.message, "at 5..9: ? expects Option inner type Bool but expression yields Int");
    assert_eq!(type_try_expr(&opt(Type::Int), Some(&Type::Int), s).unwrap_err().code, "T601");
    assert_eq!(type_try_expr(&Type::Int, Some(&opt(Type::Int)), s).unwrap_err().code, "T602");
    assert_eq!(type_try_expr(&res(Type::Int, Type::Int), Some(&opt(Type::Int)), s).unwrap_err().code, "T604");
    assert_eq!(type_try_expr(&res(Type::Int, Type::Int), Some(&res(Type::Int, Type::Bool)), s).unwrap_err().code, "T605");
    let e = type_try_expr(&opt(Type::Int), None, s).unwrap_err();
    assert_eq!(e.code, "T606");
    assert_eq!(e.render(), "T606: at 5..9: internal error: missing $return binding for ?");
}

#[test]
fn indexing_arrays_slices_and_tuples() {
    let al = aliases();
    let s = sp(0, 9);
    let arr = Type::Array(Box::new(Type::U8), Some(4));
    assert_eq!(show_ty(&type_index_expr(&arr, &Type::Int, &lit(3), s, &al).unwrap()), "U8");
    assert!(matches!(type_index_expr(&arr, &Type::Int, &lit(4), s, &al), Err(IndexError::OutOfBounds { span }) if span == sp(20, 22)));
    let slice = Type::Slice(Box::new(Type::Bool));
    assert_eq!(show_ty(&type_index_expr(&slice, &Type::Int, &var("i"), s, &al).unwrap()), "Bool");
    assert!(matches!(type_index_expr(&slice, &Type::Int, &lit(-1), s, &al), Err(IndexError::OutOfBounds { .. })));
    let pair = Type::Tuple(vec![Type::Int, Type::String]);
    assert_eq!(show_ty(&type_index_expr(&pair, &Type::Int, &lit(1), s, &al).unwrap()), "String");
    assert!(matches!(type_index_expr(&pair, &Type::Int, &var("i"), s, &al), Err(IndexError::TupleIndexNotConstant { span }) if span == sp(0, 1)));
    match type_index_expr(&Type::Int, &Type::Int, &lit(0), s, &al) {
        Err(IndexError::Typer(e)) => assert_eq!(e.code, "T207"),
        other => panic!("unexpected: {:?}", other),
    }
    match type_index_expr(&arr, &Type::Bool, &lit(0), s, &al) {
        Err(IndexError::Typer(e)) => assert_eq!(e.code, "T005"),
        other => panic!("unexpected: {:?}", other),
    }
}
