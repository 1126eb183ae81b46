//! The typed high-level IR produced by the typechecker: names are resolved to bindings,
//! builtins and function calls are expanded, and every expression carries its type.
use vstd::prelude::*;

use crate::ast::{type_is_uint, BinaryOp, Type, UnaryOp, Visibility};
use crate::field::{field_add, field_mul, field_neg, field_sub, modulus, reduce};
use crate::span::Span;

verus! {

pub type BindingId = usize;

#[derive(Debug, Clone, PartialEq, Eq)]
pub struct Program {
    pub circuit: Circuit,
}

#[derive(Debug, Clone, PartialEq, Eq)]
pub struct Circuit {
    pub name: String,
    pub items: Vec<Item>,
}

#[derive(Debug, Clone, PartialEq, Eq)]
pub enum Item {
    Input(InputDecl),
    Function(FunctionDecl),
    Statement(Statement),
}

#[derive(Debug, PartialEq, Eq)]
pub struct Binding {
    pub id: BindingId,
    pub name: String,
    pub ty: Type,
    pub span: Span,
}

#[derive(Debug, Clone, PartialEq, Eq)]
pub struct InputDecl {
    pub binding: Binding,
    pub visibility: Visibility,
    pub span: Span,
}

#[derive(Debug, Clone, PartialEq, Eq)]
pub struct FunctionDecl {
    pub name: String,
    pub params: Vec<Binding>,
    pub return_type: Type,
    pub body: TypedExpr,
    pub span: Span,
}

#[derive(Debug, Clone, PartialEq, Eq)]
pub enum Statement {
    Let(LetStmt),
    Constrain(ConstrainStmt),
    Expose(ExposeStmt),
}

#[derive(Debug, Clone, PartialEq, Eq)]
pub struct LetStmt {
    pub binding: Binding,
    pub expr: TypedExpr,
    pub span: Span,
}

#[derive(Debug, Clone, PartialEq, Eq)]
pub struct ConstrainStmt {
    pub lhs: TypedExpr,
    pub rhs: TypedExpr,
    pub span: Span,
}

#[derive(Debug, Clone, PartialEq, Eq)]
pub struct ExposeStmt {
    pub expr: TypedExpr,
    pub label: Option<String>,
    pub span: Span,
}

#[derive(Debug, PartialEq, Eq)]
pub struct TypedExpr {
    pub kind: ExprKind,
    pub ty: Type,
    pub span: Span,
}

#[derive(Debug, PartialEq, Eq)]
pub enum ExprKind {
    Constant(i128),
    BoolConstant(bool),
    Reference(Binding),
    Unary { op: UnaryOp, expr: Box<TypedExpr> },
    Binary { op: BinaryOp, lhs: Box<TypedExpr>, rhs: Box<TypedExpr> },
    IfElse {
        condition: Box<TypedExpr>,
        then_branch: Box<TypedExpr>,
        else_branch: Box<TypedExpr>,
    },
    BoolNot { expr: Box<TypedExpr> },
    BoolAnd { lhs: Box<TypedExpr>, rhs: Box<TypedExpr> },
    BoolOr { lhs: Box<TypedExpr>, rhs: Box<TypedExpr> },
    BoolXor { lhs: Box<TypedExpr>, rhs: Box<TypedExpr> },
    Cast { expr: Box<TypedExpr>, target: Type },
}

impl Clone for Binding {
    fn clone(&self) -> (r: Binding)
        ensures
            r == *self,
    {
        Binding { id: self.id, name: self.name.clone(), ty: self.ty, span: self.span }
    }
}

impl Clone for TypedExpr {
    fn clone(&self) -> (r: TypedExpr)
        ensures
            r == *self,
        decreases self,
    {
        TypedExpr { kind: self.kind.copy_kind(), ty: self.ty, span: self.span }
    }
}

impl ExprKind {
    /// An exact copy.
    pub fn copy_kind(&self) -> (r: ExprKind)
        ensures
            r == *self,
        decreases self,
    {
        match self {
            ExprKind::Constant(v) => ExprKind::Constant(*v),
            ExprKind::BoolConstant(v) => ExprKind::BoolConstant(*v),
            ExprKind::Reference(b) => ExprKind::Reference(b.clone()),
            ExprKind::Unary { op, expr } => ExprKind::Unary {
                op: *op,
                expr: Box::new((**expr).clone()),
            },
            ExprKind::Binary { op, lhs, rhs } => ExprKind::Binary {
                op: *op,
                lhs: Box::new((**lhs).clone()),
                rhs: Box::new((**rhs).clone()),
            },
            ExprKind::IfElse { condition, then_branch, else_branch } => ExprKind::IfElse {
                condition: Box::new((**condition).clone()),
                then_branch: Box::new((**then_branch).clone()),
                else_branch: Box::new((**else_branch).clone()),
            },
            ExprKind::BoolNot { expr } => ExprKind::BoolNot { expr: Box::new((**expr).clone()) },
            ExprKind::BoolAnd { lhs, rhs } => ExprKind::BoolAnd {
                lhs: Box::new((**lhs).clone()),
                rhs: Box::new((**rhs).clone()),
            },
            ExprKind::BoolOr { lhs, rhs } => ExprKind::BoolOr {
                lhs: Box::new((**lhs).clone()),
                rhs: Box::new((**rhs).clone()),
            },
            ExprKind::BoolXor { lhs, rhs } => ExprKind::BoolXor {
                lhs: Box::new((**lhs).clone()),
                rhs: Box::new((**rhs).clone()),
            },
            ExprKind::Cast { expr, target } => ExprKind::Cast {
                expr: Box::new((**expr).clone()),
                target: *target,
            },
        }
    }
}

impl TypedExpr {
    pub fn field(kind: ExprKind, span: Span) -> (r: TypedExpr)
        ensures
            r == (TypedExpr { kind, ty: Type::Field, span }),
    {
        TypedExpr { kind, ty: Type::Field, span }
    }

    pub fn bool(kind: ExprKind, span: Span) -> (r: TypedExpr)
        ensures
            r == (TypedExpr { kind, ty: Type::Bool, span }),
    {
        TypedExpr { kind, ty: Type::Bool, span }
    }

    pub fn new(kind: ExprKind, ty: Type, span: Span) -> (r: TypedExpr)
        ensures
            r == (TypedExpr { kind, ty, span }),
    {
        TypedExpr { kind, ty, span }
    }
}

/// Every reference in `e` names one of the bindings of `scope`.
pub open spec fn refs_bound(e: TypedExpr, scope: Seq<Binding>) -> bool
    decreases e,
{
    match e.kind {
        ExprKind::Constant(_) => true,
        ExprKind::BoolConstant(_) => true,
        ExprKind::Reference(b) => scope.contains(b),
        ExprKind::Unary { expr, .. } => refs_bound(*expr, scope),
        ExprKind::Binary { lhs, rhs, .. } => refs_bound(*lhs, scope) && refs_bound(*rhs, scope),
        ExprKind::IfElse { condition, then_branch, else_branch } => refs_bound(*condition, scope)
            && refs_bound(*then_branch, scope) && refs_bound(*else_branch, scope),
        ExprKind::BoolNot { expr } => refs_bound(*expr, scope),
        ExprKind::BoolAnd { lhs, rhs } => refs_bound(*lhs, scope) && refs_bound(*rhs, scope),
        ExprKind::BoolOr { lhs, rhs } => refs_bound(*lhs, scope) && refs_bound(*rhs, scope),
        ExprKind::BoolXor { lhs, rhs } => refs_bound(*lhs, scope) && refs_bound(*rhs, scope),
        ExprKind::Cast { expr, .. } => refs_bound(*expr, scope),
    }
}

/// The typing rules of the typed IR: every node's type agrees with the types of its children.
///
/// Arithmetic is over `field` or over one unsigned type on both sides, negation is over `field`,
/// the boolean connectives and `if` conditions are over `bool`, both branches of an `if` have
/// the type of the `if`, a reference has the type of its binding, a cast has its target type,
/// and a numeric constant is never `bool`.
pub open spec fn well_typed(e: TypedExpr) -> bool
    decreases e,
{
    match e.kind {
        ExprKind::Constant(_) => e.ty != Type::Bool,
        ExprKind::BoolConstant(_) => e.ty == Type::Bool,
        ExprKind::Reference(b) => e.ty == b.ty,
        ExprKind::Unary { expr, .. } => e.ty == Type::Field && expr.ty == Type::Field && well_typed(*expr),
        ExprKind::Binary { lhs, rhs, .. } => {
            &&& lhs.ty == e.ty
            &&& rhs.ty == e.ty
            &&& (e.ty == Type::Field || type_is_uint(e.ty))
            &&& well_typed(*lhs)
            &&& well_typed(*rhs)
        },
        ExprKind::IfElse { condition, then_branch, else_branch } => {
            &&& condition.ty == Type::Bool
            &&& then_branch.ty == e.ty
            &&& else_branch.ty == e.ty
            &&& well_typed(*condition)
            &&& well_typed(*then_branch)
            &&& well_typed(*else_branch)
        },
        ExprKind::BoolNot { expr } => e.ty == Type::Bool && expr.ty == Type::Bool && well_typed(*expr),
        ExprKind::BoolAnd { lhs, rhs } => e.ty == Type::Bool && lhs.ty == Type::Bool && rhs.ty == Type::Bool
            && well_typed(*lhs) && well_typed(*rhs),
        ExprKind::BoolOr { lhs, rhs } => e.ty == Type::Bool && lhs.ty == Type::Bool && rhs.ty == Type::Bool
            && well_typed(*lhs) && well_typed(*rhs),
        ExprKind::BoolXor { lhs, rhs } => e.ty == Type::Bool && lhs.ty == Type::Bool && rhs.ty == Type::Bool
            && well_typed(*lhs) && well_typed(*rhs),
        ExprKind::Cast { expr, target } => e.ty == target && well_typed(*expr),
    }
}

/// `if c { t } else { e }` over a boolean selector, as the field combination `e + c * (t - e)`.
pub open spec fn select_value(c: nat, t: nat, e: nat) -> nat {
    field_add(e, field_mul(c, field_sub(t, e)))
}

/// Boolean negation as `1 - x`.
pub open spec fn not_value(x: nat) -> nat {
    field_sub(1, x)
}

/// Boolean conjunction as `x * y`.
pub open spec fn and_value(x: nat, y: nat) -> nat {
    field_mul(x, y)
}

/// Boolean disjunction as `x + y - x * y`.
pub open spec fn or_value(x: nat, y: nat) -> nat {
    field_sub(field_add(x, y), field_mul(x, y))
}

/// Exclusive or as `x + y - 2 * x * y`.
pub open spec fn xor_value(x: nat, y: nat) -> nat {
    field_sub(field_add(x, y), field_add(field_mul(x, y), field_mul(x, y)))
}

/// The field value of `e` when each binding in `env` has the given value: literals reduced
/// modulo the field prime, `true` and `false` as one and zero, field negation and arithmetic,
/// conditionals and boolean builtins as their field combinations, and casts keeping the value.
pub open spec fn expr_value(e: TypedExpr, env: Map<BindingId, nat>) -> nat
    decreases e,
{
    match e.kind {
        ExprKind::Constant(v) => reduce(v as int),
        ExprKind::BoolConstant(b) => if b {
            1
        } else {
            0
        },
        ExprKind::Reference(b) => env[b.id],
        ExprKind::Unary { op, expr } => field_neg(expr_value(*expr, env)),
        ExprKind::Binary { op, lhs, rhs } => match op {
            BinaryOp::Add => field_add(expr_value(*lhs, env), expr_value(*rhs, env)),
            BinaryOp::Sub => field_sub(expr_value(*lhs, env), expr_value(*rhs, env)),
            BinaryOp::Mul => field_mul(expr_value(*lhs, env), expr_value(*rhs, env)),
        },
        ExprKind::IfElse { condition, then_branch, else_branch } => select_value(
            expr_value(*condition, env),
            expr_value(*then_branch, env),
            expr_value(*else_branch, env),
        ),
        ExprKind::BoolNot { expr } => not_value(expr_value(*expr, env)),
        ExprKind::BoolAnd { lhs, rhs } => and_value(expr_value(*lhs, env), expr_value(*rhs, env)),
        ExprKind::BoolOr { lhs, rhs } => or_value(expr_value(*lhs, env), expr_value(*rhs, env)),
        ExprKind::BoolXor { lhs, rhs } => xor_value(expr_value(*lhs, env), expr_value(*rhs, env)),
        ExprKind::Cast { expr, target } => expr_value(*expr, env),
    }
}

/// On boolean values the combinations are the boolean operations: a selector of one picks the
/// first branch and zero the second, and negation, conjunction, disjunction and exclusive or
/// give one exactly when the boolean operation is true.
pub proof fn lemma_boolean_combinations(c: nat, t: nat, e: nat, x: nat, y: nat)
    requires
        c <= 1,
        x <= 1,
        y <= 1,
        t < modulus(),
        e < modulus(),
    ensures
        select_value(c, t, e) == if c == 1 { t } else { e },
        not_value(x) == if x == 1 { 0nat } else { 1nat },
        and_value(x, y) == if x == 1 && y == 1 { 1nat } else { 0nat },
        or_value(x, y) == if x == 1 || y == 1 { 1nat } else { 0nat },
        xor_value(x, y) == if x != y { 1nat } else { 0nat },
{
    let p = modulus() as int;
    vstd::arithmetic::div_mod::lemma_small_mod(0, p as nat);
    vstd::arithmetic::div_mod::lemma_small_mod(1, p as nat);
    vstd::arithmetic::div_mod::lemma_small_mod(2, p as nat);
    vstd::arithmetic::div_mod::lemma_small_mod(t, p as nat);
    vstd::arithmetic::div_mod::lemma_small_mod(e, p as nat);
    vstd::arithmetic::div_mod::lemma_fundamental_div_mod_converse(-1, p, -1, p - 1);
    vstd::arithmetic::div_mod::lemma_small_mod((p - 1) as nat, p as nat);
    vstd::arithmetic::div_mod::lemma_mod_self_0(p);
    // select with a zero or one selector
    if c == 0 {
        assert(field_mul(0, field_sub(t, e)) == 0);
        assert(select_value(c, t, e) == reduce(e as int));
    } else {
        let d = field_sub(t, e) as int;
        assert(field_mul(1, d as nat) == reduce(d));
        vstd::arithmetic::div_mod::lemma_mod_twice(t - e, p);
        vstd::arithmetic::div_mod::lemma_add_mod_noop_right(e as int, t - e, p);
        assert(e + (t - e) == t);
    }
}

} // verus!
