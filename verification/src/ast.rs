use vstd::prelude::*;
use crate::env::{ImplDecl, TraitBound, TraitMethod, TypeParam};
use crate::literals::span_of;
use crate::names::names_view;
use crate::ty::params_view;
use crate::ty::{types_view, Effect, Param, Span, Ty, Type};

verus! {

/// Binary operators.
#[derive(Clone, Copy, Debug, PartialEq, Eq, Structural)]
pub enum BinOp {
    Add,
    Sub,
    Mul,
    Div,
    Eq,
    Neq,
    Lt,
    Le,
    Gt,
    Ge,
    And,
    Or,
    BitAnd,
    BitOr,
    BitXor,
    Shl,
    Shr,
}

/// Unary operators.
#[derive(Clone, Copy, Debug, PartialEq, Eq, Structural)]
pub enum UnaryOp {
    Not,
}

/// Patterns of `match` arms.
#[derive(Debug)]
pub enum MatchPat {
    SomeBind(String),
    NoneCase,
    OkBind(String),
    ErrBind(String),
    EnumVariant { enum_name: String, variant: String, binders: Vec<String> },
    Wildcard,
}

/// A `match` arm.
#[derive(Debug)]
pub struct MatchArm {
    pub pat: MatchPat,
    pub expr: Expr,
}

/// A field initializer of a struct literal.
#[derive(Debug)]
pub struct FieldInit {
    pub name: String,
    pub expr: Expr,
}

/// Expressions.
#[derive(Debug)]
#[allow(inconsistent_fields)]
pub enum Expr {
    Int(i64, Span),
    Bool(bool, Span),
    String(String, Span),
    Var(String, Span),
    ArrayLit { elems: Vec<Expr>, span: Span },
    TupleLit { elems: Vec<Expr>, span: Span },
    StructLit { name: String, fields: Vec<FieldInit>, span: Span },
    FieldAccess { base: Box<Expr>, field: String, span: Span },
    Index { base: Box<Expr>, index: Box<Expr>, span: Span },
    Block { block: Box<Block> },
    Bin { op: BinOp, lhs: Box<Expr>, rhs: Box<Expr>, span: Span },
    Unary { op: UnaryOp, expr: Box<Expr>, span: Span },
    Return { expr: Box<Expr>, span: Span },
    Try { expr: Box<Expr>, span: Span },
    If { cond: Box<Expr>, then_br: Box<Expr>, else_br: Box<Expr>, span: Span },
    Match { scrutinee: Box<Expr>, arms: Vec<MatchArm>, span: Span },
    Call { callee: String, args: Vec<Expr>, span: Span },
    Lambda { params: Vec<Param>, body: Box<Expr>, span: Span },
}

/// Statements of a block.
#[derive(Debug)]
pub enum Stmt {
    Let { name: String, expr: Box<Expr>, span: Span },
    Expr { expr: Box<Expr>, span: Span },
    While {
        cond: Box<Expr>,
        loop_invariant: Box<Expr>,
        variant: Option<Box<Expr>>,
        body: Box<Block>,
        span: Span,
    },
}

/// A block: statements followed by an optional tail expression.
#[derive(Debug)]
pub struct Block {
    pub statements: Vec<Stmt>,
    pub tail: Option<Box<Expr>>,
    pub span: Span,
}

/// `b` is a copy of the pattern `a`: same shape, same names.
pub open spec fn same_pat(a: MatchPat, b: MatchPat) -> bool {
    match a {
        MatchPat::SomeBind(n) => b matches MatchPat::SomeBind(m) && m@ == n@,
        MatchPat::NoneCase => b is NoneCase,
        MatchPat::OkBind(n) => b matches MatchPat::OkBind(m) && m@ == n@,
        MatchPat::ErrBind(n) => b matches MatchPat::ErrBind(m) && m@ == n@,
        MatchPat::EnumVariant { enum_name, variant, binders } => b matches MatchPat::EnumVariant { enum_name: e2, variant: v2, binders: b2 }
            && e2@ == enum_name@ && v2@ == variant@ && names_view(b2@) == names_view(binders@),
        MatchPat::Wildcard => b is Wildcard,
    }
}

/// `b` is a copy of the expression `a`: the same tree, with equal names,
/// literals, operators, types and spans.
pub open spec fn same_expr(a: Expr, b: Expr) -> bool
    decreases a, 1nat,
{
    match a {
        Expr::Int(n, s) => b matches Expr::Int(n2, s2) && n2 == n && s2 == s,
        Expr::Bool(x, s) => b matches Expr::Bool(x2, s2) && x2 == x && s2 == s,
        Expr::String(t, s) => b matches Expr::String(t2, s2) && t2@ == t@ && s2 == s,
        Expr::Var(n, s) => b matches Expr::Var(n2, s2) && n2@ == n@ && s2 == s,
        Expr::ArrayLit { elems, span } => b matches Expr::ArrayLit { elems: e2, span: s2 } && same_exprs(elems@, e2@) && s2 == span,
        Expr::TupleLit { elems, span } => b matches Expr::TupleLit { elems: e2, span: s2 } && same_exprs(elems@, e2@) && s2 == span,
        Expr::StructLit { name, fields, span } => b matches Expr::StructLit { name: n2, fields: f2, span: s2 }
            && n2@ == name@ && same_fields(fields@, f2@) && s2 == span,
        Expr::FieldAccess { base, field, span } => b matches Expr::FieldAccess { base: b2, field: f2, span: s2 }
            && same_expr(*base, *b2) && f2@ == field@ && s2 == span,
        Expr::Index { base, index, span } => b matches Expr::Index { base: b2, index: i2, span: s2 }
            && same_expr(*base, *b2) && same_expr(*index, *i2) && s2 == span,
        Expr::Block { block } => b matches Expr::Block { block: k2 } && same_block(*block, *k2),
        Expr::Bin { op, lhs, rhs, span } => b matches Expr::Bin { op: o2, lhs: l2, rhs: r2, span: s2 }
            && o2 == op && same_expr(*lhs, *l2) && same_expr(*rhs, *r2) && s2 == span,
        Expr::Unary { op, expr, span } => b matches Expr::Unary { op: o2, expr: x2, span: s2 }
            && o2 == op && same_expr(*expr, *x2) && s2 == span,
        Expr::Return { expr, span } => b matches Expr::Return { expr: x2, span: s2 } && same_expr(*expr, *x2) && s2 == span,
        Expr::Try { expr, span } => b matches Expr::Try { expr: x2, span: s2 } && same_expr(*expr, *x2) && s2 == span,
        Expr::If { cond, then_br, else_br, span } => b matches Expr::If { cond: c2, then_br: t2, else_br: e2, span: s2 }
            && same_expr(*cond, *c2) && same_expr(*then_br, *t2) && same_expr(*else_br, *e2) && s2 == span,
        Expr::Match { scrutinee, arms, span } => b matches Expr::Match { scrutinee: x2, arms: a2, span: s2 }
            && same_expr(*scrutinee, *x2) && same_arms(arms@, a2@) && s2 == span,
        Expr::Call { callee, args, span } => b matches Expr::Call { callee: c2, args: a2, span: s2 }
            && c2@ == callee@ && same_exprs(args@, a2@) && s2 == span,
        Expr::Lambda { params, body, span } => b matches Expr::Lambda { params: p2, body: b2, span: s2 }
            && params_view(p2@) == params_view(params@) && same_expr(*body, *b2) && s2 == span,
    }
}

/// `ys` copies `xs`, element by element.
pub open spec fn same_exprs(xs: Seq<Expr>, ys: Seq<Expr>) -> bool
    decreases xs, 0nat,
{
    if xs.len() == 0 {
        ys.len() == 0
    } else {
        ys.len() > 0 && same_expr(xs[0], ys[0]) && same_exprs(xs.drop_first(), ys.drop_first())
    }
}

pub open spec fn same_fields(xs: Seq<FieldInit>, ys: Seq<FieldInit>) -> bool
    decreases xs, 0nat,
{
    if xs.len() == 0 {
        ys.len() == 0
    } else {
        ys.len() > 0 && ys[0].name@ == xs[0].name@ && same_expr(xs[0].expr, ys[0].expr)
            && same_fields(xs.drop_first(), ys.drop_first())
    }
}

pub open spec fn same_arms(xs: Seq<MatchArm>, ys: Seq<MatchArm>) -> bool
    decreases xs, 0nat,
{
    if xs.len() == 0 {
        ys.len() == 0
    } else {
        ys.len() > 0 && same_pat(xs[0].pat, ys[0].pat) && same_expr(xs[0].expr, ys[0].expr)
            && same_arms(xs.drop_first(), ys.drop_first())
    }
}

pub open spec fn same_stmt(a: Stmt, b: Stmt) -> bool
    decreases a, 1nat,
{
    match a {
        Stmt::Let { name, expr, span } => b matches Stmt::Let { name: n2, expr: x2, span: s2 }
            && n2@ == name@ && same_expr(*expr, *x2) && s2 == span,
        Stmt::Expr { expr, span } => b matches Stmt::Expr { expr: x2, span: s2 } && same_expr(*expr, *x2) && s2 == span,
        Stmt::While { cond, loop_invariant, variant, body, span } => b matches Stmt::While { cond: c2, loop_invariant: i2, variant: v2, body: b2, span: s2 }
            && same_expr(*cond, *c2) && same_expr(*loop_invariant, *i2) && same_block(*body, *b2) && s2 == span
            && match variant {
                Some(v) => v2 matches Some(w) && same_expr(*v, *w),
                None => v2 is None,
            },
    }
}

pub open spec fn same_stmts(xs: Seq<Stmt>, ys: Seq<Stmt>) -> bool
    decreases xs, 0nat,
{
    if xs.len() == 0 {
        ys.len() == 0
    } else {
        ys.len() > 0 && same_stmt(xs[0], ys[0]) && same_stmts(xs.drop_first(), ys.drop_first())
    }
}

/// `b` is a copy of the block `a`.
pub open spec fn same_block(a: Block, b: Block) -> bool
    decreases a, 2nat,
{
    &&& same_stmts(a.statements@, b.statements@)
    &&& match a.tail {
        Some(t) => b.tail matches Some(u) && same_expr(*t, *u),
        None => b.tail is None,
    }
    &&& b.span == a.span
}

proof fn lemma_same_exprs_pointwise(xs: Seq<Expr>, ys: Seq<Expr>)
    requires
        ys.len() == xs.len(),
        forall|j: int| 0 <= j < xs.len() ==> #[trigger] same_expr(xs[j], ys[j]),
    ensures
        same_exprs(xs, ys),
    decreases xs.len(),
{
    if xs.len() > 0 {
        assert forall|j: int| 0 <= j < xs.drop_first().len() implies #[trigger] same_expr(xs.drop_first()[j], ys.drop_first()[j]) by {
            assert(same_expr(xs[j + 1], ys[j + 1]));
        }
        lemma_same_exprs_pointwise(xs.drop_first(), ys.drop_first());
        assert(same_expr(xs[0], ys[0]));
    }
}

/// `y` copies the field initializer `x`.
pub open spec fn field_copied(x: FieldInit, y: FieldInit) -> bool {
    y.name@ == x.name@ && same_expr(x.expr, y.expr)
}

/// `y` copies the match arm `x`.
pub open spec fn arm_copied(x: MatchArm, y: MatchArm) -> bool {
    same_pat(x.pat, y.pat) && same_expr(x.expr, y.expr)
}

proof fn lemma_same_fields_pointwise(xs: Seq<FieldInit>, ys: Seq<FieldInit>)
    requires
        ys.len() == xs.len(),
        forall|j: int| 0 <= j < xs.len() ==> #[trigger] field_copied(xs[j], ys[j]),
    ensures
        same_fields(xs, ys),
    decreases xs.len(),
{
    if xs.len() > 0 {
        assert forall|j: int| 0 <= j < xs.drop_first().len() implies #[trigger] field_copied(xs.drop_first()[j], ys.drop_first()[j]) by {
            assert(field_copied(xs[j + 1], ys[j + 1]));
        }
        lemma_same_fields_pointwise(xs.drop_first(), ys.drop_first());
        assert(field_copied(xs[0], ys[0]));
    }
}

proof fn lemma_same_arms_pointwise(xs: Seq<MatchArm>, ys: Seq<MatchArm>)
    requires
        ys.len() == xs.len(),
        forall|j: int| 0 <= j < xs.len() ==> #[trigger] arm_copied(xs[j], ys[j]),
    ensures
        same_arms(xs, ys),
    decreases xs.len(),
{
    if xs.len() > 0 {
        assert forall|j: int| 0 <= j < xs.drop_first().len() implies #[trigger] arm_copied(xs.drop_first()[j], ys.drop_first()[j]) by {
            assert(arm_copied(xs[j + 1], ys[j + 1]));
        }
        lemma_same_arms_pointwise(xs.drop_first(), ys.drop_first());
        assert(arm_copied(xs[0], ys[0]));
    }
}

proof fn lemma_same_stmts_pointwise(xs: Seq<Stmt>, ys: Seq<Stmt>)
    requires
        ys.len() == xs.len(),
        forall|j: int| 0 <= j < xs.len() ==> #[trigger] same_stmt(xs[j], ys[j]),
    ensures
        same_stmts(xs, ys),
    decreases xs.len(),
{
    if xs.len() > 0 {
        assert forall|j: int| 0 <= j < xs.drop_first().len() implies #[trigger] same_stmt(xs.drop_first()[j], ys.drop_first()[j]) by {
            assert(same_stmt(xs[j + 1], ys[j + 1]));
        }
        lemma_same_stmts_pointwise(xs.drop_first(), ys.drop_first());
        assert(same_stmt(xs[0], ys[0]));
    }
}

/// An independent copy of a pattern.
pub fn copy_pat(p: &MatchPat) -> (r: MatchPat)
    ensures
        same_pat(*p, r),
{
    match p {
        MatchPat::SomeBind(n) => MatchPat::SomeBind(n.clone()),
        MatchPat::NoneCase => MatchPat::NoneCase,
        MatchPat::OkBind(n) => MatchPat::OkBind(n.clone()),
        MatchPat::ErrBind(n) => MatchPat::ErrBind(n.clone()),
        MatchPat::EnumVariant { enum_name, variant, binders } => {
            let mut out: Vec<String> = Vec::new();
            let mut i: usize = 0;
            while i < binders.len()
                invariant
                    i <= binders@.len(),
                    out@.len() == i,
                    forall|j: int| 0 <= j < i ==> (#[trigger] out@[j])@ == binders@[j]@,
                decreases binders.len() - i,
            {
                out.push(binders[i].clone());
                i = i + 1;
            }
            assert(names_view(out@) =~= names_view(binders@));
            MatchPat::EnumVariant { enum_name: enum_name.clone(), variant: variant.clone(), binders: out }
        },
        MatchPat::Wildcard => MatchPat::Wildcard,
    }
}

/// An independent copy of a list of expressions.
pub fn copy_exprs(v: &Vec<Expr>) -> (r: Vec<Expr>)
    ensures
        same_exprs(v@, r@),
    decreases v, 0nat,
{
    let mut out: Vec<Expr> = Vec::new();
    let mut i: usize = 0;
    while i < v.len()
        invariant
            i <= v@.len(),
            out@.len() == i,
            forall|j: int| 0 <= j < i ==> #[trigger] same_expr(v@[j], out@[j]),
        decreases v.len() - i,
    {
        assert(decreases_to!(v => v@[i as int]));
        out.push(copy_expr(&v[i]));
        i = i + 1;
    }
    proof {
        lemma_same_exprs_pointwise(v@, out@);
    }
    out
}

fn copy_fields(fs: &Vec<FieldInit>) -> (r: Vec<FieldInit>)
    ensures
        same_fields(fs@, r@),
    decreases fs, 0nat,
{
    let mut out: Vec<FieldInit> = Vec::new();
    let mut i: usize = 0;
    while i < fs.len()
        invariant
            i <= fs@.len(),
            out@.len() == i,
            forall|j: int| 0 <= j < i ==> #[trigger] field_copied(fs@[j], out@[j]),
        decreases fs.len() - i,
    {
        assert(decreases_to!(fs => fs@[i as int]));
        out.push(FieldInit { name: fs[i].name.clone(), expr: copy_expr(&fs[i].expr) });
        i = i + 1;
    }
    proof {
        lemma_same_fields_pointwise(fs@, out@);
    }
    out
}

fn copy_arms(arms: &Vec<MatchArm>) -> (r: Vec<MatchArm>)
    ensures
        same_arms(arms@, r@),
    decreases arms, 0nat,
{
    let mut out: Vec<MatchArm> = Vec::new();
    let mut i: usize = 0;
    while i < arms.len()
        invariant
            i <= arms@.len(),
            out@.len() == i,
            forall|j: int| 0 <= j < i ==> #[trigger] arm_copied(arms@[j], out@[j]),
        decreases arms.len() - i,
    {
        assert(decreases_to!(arms => arms@[i as int]));
        out.push(MatchArm { pat: copy_pat(&arms[i].pat), expr: copy_expr(&arms[i].expr) });
        i = i + 1;
    }
    proof {
        lemma_same_arms_pointwise(arms@, out@);
    }
    out
}

/// An independent copy of a block.
pub fn copy_block(b: &Block) -> (r: Block)
    ensures
        same_block(*b, r),
        r.span == b.span,
    decreases b, 2nat,
{
    let mut statements: Vec<Stmt> = Vec::new();
    let mut i: usize = 0;
    while i < b.statements.len()
        invariant
            i <= b.statements@.len(),
            statements@.len() == i,
            forall|j: int| 0 <= j < i ==> #[trigger] same_stmt(b.statements@[j], statements@[j]),
        decreases b.statements.len() - i,
    {
        assert(decreases_to!(b => b.statements@[i as int]));
        let s = match &b.statements[i] {
            Stmt::Let { name, expr, span } => Stmt::Let { name: name.clone(), expr: Box::new(copy_expr(expr)), span: *span },
            Stmt::Expr { expr, span } => Stmt::Expr { expr: Box::new(copy_expr(expr)), span: *span },
            Stmt::While { cond, loop_invariant, variant, body, span } => Stmt::While {
                cond: Box::new(copy_expr(cond)),
                loop_invariant: Box::new(copy_expr(loop_invariant)),
                variant: match variant {
                    Some(v) => Some(Box::new(copy_expr(v))),
                    None => None,
                },
                body: Box::new(copy_block(body)),
                span: *span,
            },
        };
        assert(same_stmt(b.statements@[i as int], s));
        statements.push(s);
        i = i + 1;
    }
    proof {
        lemma_same_stmts_pointwise(b.statements@, statements@);
    }
    let tail = match &b.tail {
        Some(t) => Some(Box::new(copy_expr(t))),
        None => None,
    };
    Block { statements, tail, span: b.span }
}

/// An independent copy of an expression.
pub fn copy_expr(e: &Expr) -> (r: Expr)
    ensures
        same_expr(*e, r),
        span_of(r) == span_of(*e),
    decreases e, 1nat,
{
    match e {
        Expr::Int(n, s) => Expr::Int(*n, *s),
        Expr::Bool(b, s) => Expr::Bool(*b, *s),
        Expr::String(t, s) => Expr::String(t.clone(), *s),
        Expr::Var(n, s) => Expr::Var(n.clone(), *s),
        Expr::ArrayLit { elems, span } => Expr::ArrayLit { elems: copy_exprs(elems), span: *span },
        Expr::TupleLit { elems, span } => Expr::TupleLit { elems: copy_exprs(elems), span: *span },
        Expr::StructLit { name, fields, span } => Expr::StructLit { name: name.clone(), fields: copy_fields(fields), span: *span },
        Expr::FieldAccess { base, field, span } => Expr::FieldAccess { base: Box::new(copy_expr(base)), field: field.clone(), span: *span },
        Expr::Index { base, index, span } => Expr::Index { base: Box::new(copy_expr(base)), index: Box::new(copy_expr(index)), span: *span },
        Expr::Block { block } => Expr::Block { block: Box::new(copy_block(block)) },
        Expr::Bin { op, lhs, rhs, span } => Expr::Bin { op: *op, lhs: Box::new(copy_expr(lhs)), rhs: Box::new(copy_expr(rhs)), span: *span },
        Expr::Unary { op, expr, span } => Expr::Unary { op: *op, expr: Box::new(copy_expr(expr)), span: *span },
        Expr::Return { expr, span } => Expr::Return { expr: Box::new(copy_expr(expr)), span: *span },
        Expr::Try { expr, span } => Expr::Try { expr: Box::new(copy_expr(expr)), span: *span },
        Expr::If { cond, then_br, else_br, span } => Expr::If {
            cond: Box::new(copy_expr(cond)),
            then_br: Box::new(copy_expr(then_br)),
            else_br: Box::new(copy_expr(else_br)),
            span: *span,
        },
        Expr::Match { scrutinee, arms, span } => Expr::Match { scrutinee: Box::new(copy_expr(scrutinee)), arms: copy_arms(arms), span: *span },
        Expr::Call { callee, args, span } => Expr::Call { callee: callee.clone(), args: copy_exprs(args), span: *span },
        Expr::Lambda { params, body, span } => {
            let mut out: Vec<Param> = Vec::new();
            let mut i: usize = 0;
            while i < params.len()
                invariant
                    i <= params@.len(),
                    out@.len() == i,
                    forall|j: int| 0 <= j < i ==> (#[trigger] out@[j])@ == params@[j]@,
                decreases params.len() - i,
            {
                out.push(params[i].clone());
                i = i + 1;
            }
            assert(params_view(out@) =~= params_view(params@));
            Expr::Lambda { params: out, body: Box::new(copy_expr(body)), span: *span }
        },
    }
}

/// A function declaration (the parts the checks read): its `requires` and
/// `ensures` clauses are boolean expressions over the parameters.
#[derive(Debug)]
pub struct Func {
    pub name: String,
    pub type_params: Vec<TypeParam>,
    pub where_bounds: Vec<TraitBound>,
    pub params: Vec<Param>,
    pub ret: Type,
    pub effect: Effect,
    pub effect_span: Span,
    pub requires: Vec<Expr>,
    pub ensures: Vec<Expr>,
    pub body: Expr,
    pub span: Span,
}

/// A field of a struct or resource declaration.
#[derive(Debug)]
pub struct StructField {
    pub name: String,
    pub ty: Type,
    pub span: Span,
}

/// A struct declaration; a resource struct is linear.
#[derive(Debug)]
pub struct StructDecl {
    pub name: String,
    pub name_span: Span,
    pub type_params: Vec<TypeParam>,
    pub fields: Vec<StructField>,
    pub is_resource: bool,
}

/// A variant of an enum declaration, with the types of its fields.
#[derive(Debug)]
pub struct EnumVariant {
    pub name: String,
    pub fields: Vec<Type>,
    pub span: Span,
}

/// An enum declaration; a resource enum is linear.
#[derive(Debug)]
pub struct EnumDecl {
    pub name: String,
    pub name_span: Span,
    pub type_params: Vec<TypeParam>,
    pub variants: Vec<EnumVariant>,
    pub is_resource: bool,
}

/// Model of a struct field.
pub struct StructFieldV {
    pub name: Seq<char>,
    pub ty: Ty,
    pub span: Span,
}

impl View for StructField {
    type V = StructFieldV;

    open spec fn view(&self) -> StructFieldV {
        StructFieldV { name: self.name@, ty: self.ty@, span: self.span }
    }
}

/// The names of declared type parameters.
pub open spec fn type_param_names(ps: Seq<TypeParam>) -> Seq<Seq<char>> {
    ps.map_values(|p: TypeParam| p.name@)
}

/// Model of a struct declaration.
pub struct StructDeclV {
    pub name: Seq<char>,
    pub name_span: Span,
    pub type_params: Seq<Seq<char>>,
    pub fields: Seq<StructFieldV>,
}

impl View for StructDecl {
    type V = StructDeclV;

    open spec fn view(&self) -> StructDeclV {
        StructDeclV {
            name: self.name@,
            name_span: self.name_span,
            type_params: type_param_names(self.type_params@),
            fields: self.fields@.map_values(|f: StructField| f@),
        }
    }
}

/// Model of an enum variant.
pub struct EnumVariantV {
    pub name: Seq<char>,
    pub fields: Seq<Ty>,
    pub span: Span,
}

impl View for EnumVariant {
    type V = EnumVariantV;

    open spec fn view(&self) -> EnumVariantV {
        EnumVariantV { name: self.name@, fields: types_view(self.fields@), span: self.span }
    }
}

/// Model of an enum declaration.
pub struct EnumDeclV {
    pub name: Seq<char>,
    pub name_span: Span,
    pub type_params: Seq<Seq<char>>,
    pub variants: Seq<EnumVariantV>,
}

impl View for EnumDecl {
    type V = EnumDeclV;

    open spec fn view(&self) -> EnumDeclV {
        EnumDeclV {
            name: self.name@,
            name_span: self.name_span,
            type_params: type_param_names(self.type_params@),
            variants: self.variants@.map_values(|v: EnumVariant| v@),
        }
    }
}

/// A linear resource declaration.
#[derive(Debug)]
pub struct ResourceDecl {
    pub name: String,
    pub fields: Vec<StructField>,
}

/// A refined alias declaration: `type Name<params> = base where |binder| predicate`.
#[derive(Debug)]
pub struct RefinedAliasDecl {
    pub name: String,
    pub name_span: Span,
    pub type_params: Vec<String>,
    pub base: Type,
    pub binder: Option<String>,
    pub predicate: Expr,
    pub span: Span,
}

/// An event that a contract may emit, with its fields.
#[derive(Debug)]
pub struct EventDecl {
    pub name: String,
    pub name_span: Span,
    pub fields: Vec<StructField>,
}

/// A contract: its persistent state fields and the events it declares.
#[derive(Debug)]
pub struct ContractDecl {
    pub name: String,
    pub name_span: Span,
    pub fields: Vec<StructField>,
    pub events: Vec<EventDecl>,
}

/// A trait declaration.
#[derive(Debug)]
pub struct TraitDecl {
    pub name: String,
    pub name_span: Span,
    pub type_params: Vec<TypeParam>,
    pub methods: Vec<TraitMethod>,
    pub span: Span,
}

/// A program: its declarations, each kind in source order.
#[derive(Debug)]
pub struct Program {
    pub contracts: Vec<ContractDecl>,
    pub resources: Vec<ResourceDecl>,
    pub structs: Vec<StructDecl>,
    pub enums: Vec<EnumDecl>,
    pub refined_aliases: Vec<RefinedAliasDecl>,
    pub funcs: Vec<Func>,
    pub traits: Vec<TraitDecl>,
    pub impls: Vec<ImplDecl>,
}

} // verus!
