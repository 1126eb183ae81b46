//! The builtin function catalogue and the expansion of builtin calls into typed expressions.
use vstd::prelude::*;

use crate::ast::{BinaryOp, Type, UnaryOp};
use crate::error::{CompileError, CompileResult};
use crate::eval::eq_str;
use crate::field::{field_add, field_mul, field_neg};
use crate::hir::{expr_value, refs_bound, well_typed, Binding, BindingId, ExprKind, TypedExpr};
use crate::span::Span;
use crate::ast::spelling;
use crate::text::{decimal, push_decimal, push_str, to_owned};

verus! {

#[derive(Debug, Clone, Copy, PartialEq, Eq)]
pub struct BuiltinSpec {
    pub name: &'static str,
    pub arity: usize,
    pub signature: &'static str,
    pub description: &'static str,
}

/// The builtin names, in catalogue order, with their arities.
pub open spec fn builtin_arities() -> Seq<(Seq<char>, nat)> {
    seq![
        ("square"@, 1nat),
        ("cube"@, 1nat),
        ("double"@, 1nat),
        ("triple"@, 1nat),
        ("quad"@, 1nat),
        ("negate"@, 1nat),
        ("sum2"@, 2nat),
        ("sum3"@, 3nat),
        ("sum4"@, 4nat),
        ("mul_add"@, 3nat),
        ("blend2"@, 4nat),
        ("weighted_sum3"@, 6nat),
        ("not"@, 1nat),
        ("and"@, 2nat),
        ("or"@, 2nat),
        ("xor"@, 2nat),
        ("choose"@, 3nat),
        ("choose_bool"@, 3nat),
        ("into_u8"@, 1nat),
        ("into_u16"@, 1nat),
        ("into_u32"@, 1nat),
        ("into_field"@, 1nat),
    ]
}

/// The catalogue entry for `name`, if it is a builtin.
pub open spec fn builtin_index(name: Seq<char>) -> Option<int> {
    if exists|i: int| 0 <= i < builtin_arities().len() && #[trigger] builtin_arities()[i].0 == name {
        Some(choose|i: int| 0 <= i < builtin_arities().len() && #[trigger] builtin_arities()[i].0 == name)
    } else {
        None
    }
}

pub open spec fn is_builtin(name: Seq<char>) -> bool {
    builtin_index(name) is Some
}

/// The signature and description that the catalogue shows for each builtin, in catalogue order.
pub open spec fn builtin_texts() -> Seq<(Seq<char>, Seq<char>)> {
    seq![
        ("square(value: field) -> field"@, "Returns value * value."@),
        ("cube(value: field) -> field"@, "Returns value * value * value."@),
        ("double(value: field) -> field"@, "Returns value + value."@),
        ("triple(value: field) -> field"@, "Returns value + value + value."@),
        ("quad(value: field) -> field"@, "Returns value multiplied by four."@),
        ("negate(value: field) -> field"@, "Returns the additive inverse of value."@),
        ("sum2(a: field, b: field) -> field"@, "Returns a + b."@),
        ("sum3(a: field, b: field, c: field) -> field"@, "Returns a + b + c."@),
        ("sum4(a: field, b: field, c: field, d: field) -> field"@, "Returns a + b + c + d."@),
        ("mul_add(a: field, b: field, c: field) -> field"@, "Returns a * b + c."@),
        ("blend2(a: field, wa: field, b: field, wb: field) -> field"@, "Returns a * wa + b * wb."@),
        ("weighted_sum3(a: field, wa: field, b: field, wb: field, c: field, wc: field) -> field"@, "Returns a * wa + b * wb + c * wc."@),
        ("not(value: bool) -> bool"@, "Returns the boolean negation of value."@),
        ("and(lhs: bool, rhs: bool) -> bool"@, "Returns the boolean conjunction of lhs and rhs."@),
        ("or(lhs: bool, rhs: bool) -> bool"@, "Returns the boolean disjunction of lhs and rhs."@),
        ("xor(lhs: bool, rhs: bool) -> bool"@, "Returns the boolean exclusive-or of lhs and rhs."@),
        ("choose(cond: bool, when_true: field, when_false: field) -> field"@, "Returns when_true if cond is true, otherwise when_false."@),
        ("choose_bool(cond: bool, when_true: bool, when_false: bool) -> bool"@, "Returns when_true if cond is true, otherwise when_false."@),
        ("into_u8(value: field) -> u8"@, "Range-checks a field expression and reinterprets it as u8."@),
        ("into_u16(value: field) -> u16"@, "Range-checks a field expression and reinterprets it as u16."@),
        ("into_u32(value: field) -> u32"@, "Range-checks a field expression and reinterprets it as u32."@),
        ("into_field(value: scalar) -> field"@, "Reinterprets bool and unsigned integer values as field elements."@),
    ]
}

/// The full catalogue.
pub fn all() -> (r: Vec<BuiltinSpec>)
    ensures
        r@.len() == builtin_arities().len(),
        forall|i: int| 0 <= i < r@.len() ==> (#[trigger] r@[i]).name@ == builtin_arities()[i].0 && r@[i].arity == builtin_arities()[i].1,
        forall|i: int| 0 <= i < r@.len() ==> (#[trigger] r@[i]).signature@ == builtin_texts()[i].0 && r@[i].description@ == builtin_texts()[i].1,
{
    let mut v: Vec<BuiltinSpec> = Vec::new();
    v.push(BuiltinSpec { name: "square", arity: 1, signature: "square(value: field) -> field", description: "Returns value * value." });
    v.push(BuiltinSpec { name: "cube", arity: 1, signature: "cube(value: field) -> field", description: "Returns value * value * value." });
    v.push(BuiltinSpec { name: "double", arity: 1, signature: "double(value: field) -> field", description: "Returns value + value." });
    v.push(BuiltinSpec { name: "triple", arity: 1, signature: "triple(value: field) -> field", description: "Returns value + value + value." });
    v.push(BuiltinSpec { name: "quad", arity: 1, signature: "quad(value: field) -> field", description: "Returns value multiplied by four." });
    v.push(BuiltinSpec { name: "negate", arity: 1, signature: "negate(value: field) -> field", description: "Returns the additive inverse of value." });
    v.push(BuiltinSpec { name: "sum2", arity: 2, signature: "sum2(a: field, b: field) -> field", description: "Returns a + b." });
    v.push(BuiltinSpec { name: "sum3", arity: 3, signature: "sum3(a: field, b: field, c: field) -> field", description: "Returns a + b + c." });
    v.push(BuiltinSpec { name: "sum4", arity: 4, signature: "sum4(a: field, b: field, c: field, d: field) -> field", description: "Returns a + b + c + d." });
    v.push(BuiltinSpec { name: "mul_add", arity: 3, signature: "mul_add(a: field, b: field, c: field) -> field", description: "Returns a * b + c." });
    v.push(BuiltinSpec { name: "blend2", arity: 4, signature: "blend2(a: field, wa: field, b: field, wb: field) -> field", description: "Returns a * wa + b * wb." });
    v.push(BuiltinSpec { name: "weighted_sum3", arity: 6, signature: "weighted_sum3(a: field, wa: field, b: field, wb: field, c: field, wc: field) -> field", description: "Returns a * wa + b * wb + c * wc." });
    v.push(BuiltinSpec { name: "not", arity: 1, signature: "not(value: bool) -> bool", description: "Returns the boolean negation of value." });
    v.push(BuiltinSpec { name: "and", arity: 2, signature: "and(lhs: bool, rhs: bool) -> bool", description: "Returns the boolean conjunction of lhs and rhs." });
    v.push(BuiltinSpec { name: "or", arity: 2, signature: "or(lhs: bool, rhs: bool) -> bool", description: "Returns the boolean disjunction of lhs and rhs." });
    v.push(BuiltinSpec { name: "xor", arity: 2, signature: "xor(lhs: bool, rhs: bool) -> bool", description: "Returns the boolean exclusive-or of lhs and rhs." });
    v.push(BuiltinSpec { name: "choose", arity: 3, signature: "choose(cond: bool, when_true: field, when_false: field) -> field", description: "Returns when_true if cond is true, otherwise when_false." });
    v.push(BuiltinSpec { name: "choose_bool", arity: 3, signature: "choose_bool(cond: bool, when_true: bool, when_false: bool) -> bool", description: "Returns when_true if cond is true, otherwise when_false." });
    v.push(BuiltinSpec { name: "into_u8", arity: 1, signature: "into_u8(value: field) -> u8", description: "Range-checks a field expression and reinterprets it as u8." });
    v.push(BuiltinSpec { name: "into_u16", arity: 1, signature: "into_u16(value: field) -> u16", description: "Range-checks a field expression and reinterprets it as u16." });
    v.push(BuiltinSpec { name: "into_u32", arity: 1, signature: "into_u32(value: field) -> u32", description: "Range-checks a field expression and reinterprets it as u32." });
    v.push(BuiltinSpec { name: "into_field", arity: 1, signature: "into_field(value: scalar) -> field", description: "Reinterprets bool and unsigned integer values as field elements." });
    proof {
        assert(v@.len() == builtin_arities().len());
    }
    v
}

/// The catalogue entry named `name`.
pub fn get(name: &str) -> (r: Option<BuiltinSpec>)
    ensures
        r is Some <==> is_builtin(name@),
        r matches Some(b) ==> b.name@ == name@ && b.arity == builtin_arities()[builtin_index(name@)->0].1
            && b.signature@ == builtin_texts()[builtin_index(name@)->0].0 && b.description@ == builtin_texts()[builtin_index(name@)->0].1,
{
    let table = all();
    let mut i: usize = 0;
    while i < table.len()
        invariant
            i <= table@.len(),
            table@.len() == builtin_arities().len(),
            forall|a: int| 0 <= a < table@.len() ==> (#[trigger] table@[a]).name@ == builtin_arities()[a].0 && table@[a].arity == builtin_arities()[a].1,
            forall|a: int| 0 <= a < table@.len() ==> (#[trigger] table@[a]).signature@ == builtin_texts()[a].0 && table@[a].description@ == builtin_texts()[a].1,
            forall|a: int| 0 <= a < i ==> #[trigger] builtin_arities()[a].0 != name@,
        decreases table.len() - i,
    {
        if eq_str(table[i].name, name) {
            proof {
                lemma_builtin_index_unique(name@);
                lemma_builtin_names_distinct();
                assert(builtin_arities()[i as int].0 == name@);
            }
            return Some(table[i]);
        }
        i = i + 1;
    }
    None
}

/// Builtin names are pairwise different.
proof fn lemma_builtin_names_distinct()
    ensures
        forall|i: int, j: int| 0 <= i < j < builtin_arities().len() ==> #[trigger] builtin_arities()[i].0 != #[trigger] builtin_arities()[j].0,
{
    reveal_strlit("square");
    reveal_strlit("cube");
    reveal_strlit("double");
    reveal_strlit("triple");
    reveal_strlit("quad");
    reveal_strlit("negate");
    reveal_strlit("sum2");
    reveal_strlit("sum3");
    reveal_strlit("sum4");
    reveal_strlit("mul_add");
    reveal_strlit("blend2");
    reveal_strlit("weighted_sum3");
    reveal_strlit("not");
    reveal_strlit("and");
    reveal_strlit("or");
    reveal_strlit("xor");
    reveal_strlit("choose");
    reveal_strlit("choose_bool");
    reveal_strlit("into_u8");
    reveal_strlit("into_u16");
    reveal_strlit("into_u32");
    reveal_strlit("into_field");
    assert forall|i: int, j: int| 0 <= i < j < builtin_arities().len() implies #[trigger] builtin_arities()[i].0 != #[trigger] builtin_arities()[j].0 by {
        let a = builtin_arities()[i].0;
        let b = builtin_arities()[j].0;
        assert(a.len() != b.len() || a[0] != b[0] || a[1] != b[1] || a[2] != b[2] || a[a.len() - 1] != b[b.len() - 1] || a.len() > 4 && a[4] != b[4] || a.len() > 5 && a[5] != b[5] || a.len() > 8 && a[8] != b[8]);
    }
}

proof fn lemma_builtin_index_unique(name: Seq<char>)
    ensures
        forall|k: int| 0 <= k < builtin_arities().len() && #[trigger] builtin_arities()[k].0 == name ==> builtin_index(name) == Some(k),
{
    lemma_builtin_names_distinct();
}

/// The catalogue position and entry of `name`.
fn lookup_builtin(name: &str) -> (r: Option<(usize, BuiltinSpec)>)
    ensures
        r is Some <==> is_builtin(name@),
        r matches Some((k, b)) ==> builtin_index(name@) == Some(k as int) && b.arity == builtin_arities()[k as int].1,
{
    let table = all();
    let mut i: usize = 0;
    while i < table.len()
        invariant
            i <= table@.len(),
            table@.len() == builtin_arities().len(),
            forall|a: int| 0 <= a < table@.len() ==> (#[trigger] table@[a]).name@ == builtin_arities()[a].0 && table@[a].arity == builtin_arities()[a].1,
            forall|a: int| 0 <= a < i ==> #[trigger] builtin_arities()[a].0 != name@,
        decreases table.len() - i,
    {
        if eq_str(table[i].name, name) {
            proof {
                lemma_builtin_index_unique(name@);
                assert(builtin_arities()[i as int].0 == name@);
            }
            return Some((i, table[i]));
        }
        i = i + 1;
    }
    None
}

pub fn contains(name: &str) -> (r: bool)
    ensures
        r == is_builtin(name@),
{
    get(name).is_some()
}


pub open spec fn sf_bin(op: BinaryOp, l: TypedExpr, r: TypedExpr, span: Span) -> TypedExpr {
    TypedExpr { kind: ExprKind::Binary { op, lhs: Box::new(l), rhs: Box::new(r) }, ty: Type::Field, span }
}

pub open spec fn sf_add(l: TypedExpr, r: TypedExpr, span: Span) -> TypedExpr {
    sf_bin(BinaryOp::Add, l, r, span)
}

pub open spec fn sf_mul(l: TypedExpr, r: TypedExpr, span: Span) -> TypedExpr {
    sf_bin(BinaryOp::Mul, l, r, span)
}

pub open spec fn sf_neg(e: TypedExpr, span: Span) -> TypedExpr {
    TypedExpr { kind: ExprKind::Unary { op: UnaryOp::Neg, expr: Box::new(e) }, ty: Type::Field, span }
}

pub open spec fn sb_not(e: TypedExpr, span: Span) -> TypedExpr {
    TypedExpr { kind: ExprKind::BoolNot { expr: Box::new(e) }, ty: Type::Bool, span }
}

pub open spec fn sb_and(l: TypedExpr, r: TypedExpr, span: Span) -> TypedExpr {
    TypedExpr { kind: ExprKind::BoolAnd { lhs: Box::new(l), rhs: Box::new(r) }, ty: Type::Bool, span }
}

pub open spec fn sb_or(l: TypedExpr, r: TypedExpr, span: Span) -> TypedExpr {
    TypedExpr { kind: ExprKind::BoolOr { lhs: Box::new(l), rhs: Box::new(r) }, ty: Type::Bool, span }
}

pub open spec fn sb_xor(l: TypedExpr, r: TypedExpr, span: Span) -> TypedExpr {
    TypedExpr { kind: ExprKind::BoolXor { lhs: Box::new(l), rhs: Box::new(r) }, ty: Type::Bool, span }
}

pub open spec fn s_select(c: TypedExpr, t: TypedExpr, e: TypedExpr, ty: Type, span: Span) -> TypedExpr {
    TypedExpr {
        kind: ExprKind::IfElse { condition: Box::new(c), then_branch: Box::new(t), else_branch: Box::new(e) },
        ty,
        span,
    }
}

pub open spec fn s_cast(e: TypedExpr, target: Type, span: Span) -> TypedExpr {
    TypedExpr { kind: ExprKind::Cast { expr: Box::new(e), target }, ty: target, span }
}

/// What a call of the builtin at catalogue position `k` expands to.
pub open spec fn expansion_at(k: int, a: Seq<TypedExpr>, span: Span) -> TypedExpr {
    if k == 0 {
        sf_mul(a[0], a[0], span)
    } else if k == 1 {
        sf_mul(sf_mul(a[0], a[0], span), a[0], span)
    } else if k == 2 {
        sf_add(a[0], a[0], span)
    } else if k == 3 {
        sf_add(sf_add(a[0], a[0], span), a[0], span)
    } else if k == 4 {
        sf_add(sf_add(a[0], a[0], span), sf_add(a[0], a[0], span), span)
    } else if k == 5 {
        sf_neg(a[0], span)
    } else if k == 6 {
        sf_add(a[0], a[1], span)
    } else if k == 7 {
        sf_add(sf_add(a[0], a[1], span), a[2], span)
    } else if k == 8 {
        sf_add(sf_add(a[0], a[1], span), sf_add(a[2], a[3], span), span)
    } else if k == 9 {
        sf_add(sf_mul(a[0], a[1], span), a[2], span)
    } else if k == 10 {
        sf_add(sf_mul(a[0], a[1], span), sf_mul(a[2], a[3], span), span)
    } else if k == 11 {
        sf_add(sf_add(sf_mul(a[0], a[1], span), sf_mul(a[2], a[3], span), span), sf_mul(a[4], a[5], span), span)
    } else if k == 12 {
        sb_not(a[0], span)
    } else if k == 13 {
        sb_and(a[0], a[1], span)
    } else if k == 14 {
        sb_or(a[0], a[1], span)
    } else if k == 15 {
        sb_xor(a[0], a[1], span)
    } else if k == 16 {
        s_select(a[0], a[1], a[2], Type::Field, span)
    } else if k == 17 {
        s_select(a[0], a[1], a[2], Type::Bool, span)
    } else if k == 18 {
        s_cast(a[0], Type::U8, span)
    } else if k == 19 {
        s_cast(a[0], Type::U16, span)
    } else if k == 20 {
        s_cast(a[0], Type::U32, span)
    } else if k == 21 {
        if a[0].ty == Type::Field { a[0] } else { s_cast(a[0], Type::Field, span) }
    } else {
        a[0]
    }
}

/// The argument types the builtin at catalogue position `k` expects (for `into_field`, whatever
/// it is given).
pub open spec fn expected_types_at(k: int, a: Seq<TypedExpr>) -> Seq<Type> {
    if k == 0 {
        Seq::new(a.len(), |i: int| Type::Field)
    } else if k == 1 {
        Seq::new(a.len(), |i: int| Type::Field)
    } else if k == 2 {
        Seq::new(a.len(), |i: int| Type::Field)
    } else if k == 3 {
        Seq::new(a.len(), |i: int| Type::Field)
    } else if k == 4 {
        Seq::new(a.len(), |i: int| Type::Field)
    } else if k == 5 {
        Seq::new(a.len(), |i: int| Type::Field)
    } else if k == 6 {
        Seq::new(a.len(), |i: int| Type::Field)
    } else if k == 7 {
        Seq::new(a.len(), |i: int| Type::Field)
    } else if k == 8 {
        Seq::new(a.len(), |i: int| Type::Field)
    } else if k == 9 {
        Seq::new(a.len(), |i: int| Type::Field)
    } else if k == 10 {
        Seq::new(a.len(), |i: int| Type::Field)
    } else if k == 11 {
        Seq::new(a.len(), |i: int| Type::Field)
    } else if k == 12 {
        Seq::new(a.len(), |i: int| Type::Bool)
    } else if k == 13 {
        Seq::new(a.len(), |i: int| Type::Bool)
    } else if k == 14 {
        Seq::new(a.len(), |i: int| Type::Bool)
    } else if k == 15 {
        Seq::new(a.len(), |i: int| Type::Bool)
    } else if k == 16 {
        seq![Type::Bool, Type::Field, Type::Field]
    } else if k == 17 {
        seq![Type::Bool, Type::Bool, Type::Bool]
    } else if k == 18 {
        seq![Type::Field]
    } else if k == 19 {
        seq![Type::Field]
    } else if k == 20 {
        seq![Type::Field]
    } else if k == 21 {
        a.map_values(|e: TypedExpr| e.ty)
    } else {
        Seq::empty()
    }
}

/// What a builtin call expands to.
pub open spec fn expansion(name: Seq<char>, a: Seq<TypedExpr>, span: Span) -> TypedExpr {
    expansion_at(builtin_index(name)->0, a, span)
}

/// The argument types a builtin expects.
pub open spec fn expected_types(name: Seq<char>, a: Seq<TypedExpr>) -> Seq<Type> {
    expected_types_at(builtin_index(name)->0, a)
}

/// Every argument has the expected type.
pub open spec fn args_typed(args: Seq<TypedExpr>, expected: Seq<Type>) -> bool {
    forall|i: int| 0 <= i < args.len() && i < expected.len() ==> (#[trigger] args[i]).ty == expected[i]
}

fn add_exprs(lhs: TypedExpr, rhs: TypedExpr, span: Span) -> (r: TypedExpr)
    ensures
        r == sf_add(lhs, rhs, span),
{
    field_binary(BinaryOp::Add, lhs, rhs, span)
}

fn mul_exprs(lhs: TypedExpr, rhs: TypedExpr, span: Span) -> (r: TypedExpr)
    ensures
        r == sf_mul(lhs, rhs, span),
{
    field_binary(BinaryOp::Mul, lhs, rhs, span)
}

fn field_binary(op: BinaryOp, lhs: TypedExpr, rhs: TypedExpr, span: Span) -> (r: TypedExpr)
    ensures
        r == sf_bin(op, lhs, rhs, span),
{
    TypedExpr::field(ExprKind::Binary { op, lhs: Box::new(lhs), rhs: Box::new(rhs) }, span)
}

fn field_unary_neg(expr: TypedExpr, span: Span) -> (r: TypedExpr)
    ensures
        r == sf_neg(expr, span),
{
    field_unary(UnaryOp::Neg, expr, span)
}

fn field_unary(op: UnaryOp, expr: TypedExpr, span: Span) -> (r: TypedExpr)
    ensures
        r == (TypedExpr { kind: ExprKind::Unary { op, expr: Box::new(expr) }, ty: Type::Field, span }),
{
    TypedExpr::field(ExprKind::Unary { op, expr: Box::new(expr) }, span)
}

fn bool_not(expr: TypedExpr, span: Span) -> (r: TypedExpr)
    ensures
        r == sb_not(expr, span),
{
    TypedExpr::bool(ExprKind::BoolNot { expr: Box::new(expr) }, span)
}

fn bool_and(lhs: TypedExpr, rhs: TypedExpr, span: Span) -> (r: TypedExpr)
    ensures
        r == sb_and(lhs, rhs, span),
{
    TypedExpr::bool(ExprKind::BoolAnd { lhs: Box::new(lhs), rhs: Box::new(rhs) }, span)
}

fn bool_or(lhs: TypedExpr, rhs: TypedExpr, span: Span) -> (r: TypedExpr)
    ensures
        r == sb_or(lhs, rhs, span),
{
    TypedExpr::bool(ExprKind::BoolOr { lhs: Box::new(lhs), rhs: Box::new(rhs) }, span)
}

fn bool_xor(lhs: TypedExpr, rhs: TypedExpr, span: Span) -> (r: TypedExpr)
    ensures
        r == sb_xor(lhs, rhs, span),
{
    TypedExpr::bool(ExprKind::BoolXor { lhs: Box::new(lhs), rhs: Box::new(rhs) }, span)
}

fn select(condition: TypedExpr, then_branch: TypedExpr, else_branch: TypedExpr, ty: Type, span: Span) -> (r: TypedExpr)
    ensures
        r == s_select(condition, then_branch, else_branch, ty, span),
{
    TypedExpr {
        kind: ExprKind::IfElse {
            condition: Box::new(condition),
            then_branch: Box::new(then_branch),
            else_branch: Box::new(else_branch),
        },
        ty,
        span,
    }
}

fn cast(expr: TypedExpr, target: Type, span: Span) -> (r: TypedExpr)
    ensures
        r == s_cast(expr, target, span),
{
    TypedExpr::new(ExprKind::Cast { expr: Box::new(expr), target }, target, span)
}

/// The message for an argument of the wrong type; `position` counts from one.
pub open spec fn argument_type_message(name: Seq<char>, position: nat, expected: Type, got: Type) -> Seq<char> {
    "function `"@ + name + "` expects argument "@ + decimal(position) + " to have type `"@ + spelling(expected)
        + "` but got `"@ + spelling(got) + "`"@
}

/// `message` reports the first argument whose type differs from the expected one.
pub open spec fn first_mismatch_reported(name: Seq<char>, args: Seq<TypedExpr>, expected: Seq<Type>, message: Seq<char>) -> bool {
    exists|i: int|
        0 <= i < args.len() && i < expected.len() && (#[trigger] args[i]).ty != expected[i]
            && (forall|j: int| 0 <= j < i ==> (#[trigger] args[j]).ty == expected[j])
            && message == argument_type_message(name, (i + 1) as nat, expected[i], args[i].ty)
}

/// The message for a call with the wrong number of arguments.
pub open spec fn arity_message(name: Seq<char>, arity: nat, got: nat) -> Seq<char> {
    "function `"@ + name + "` expects "@ + decimal(arity) + " arguments but got "@ + decimal(got)
}

fn expect_types(builtin: &str, args: &Vec<TypedExpr>, expected: &Vec<Type>, span: Span) -> (r: CompileResult<()>)
    ensures
        r is Ok <==> args_typed(args@, expected@),
        r matches Err(e) ==> e.span == span && first_mismatch_reported(builtin@, args@, expected@, e.message@),
{
    let mut index: usize = 0;
    while index < args.len() && index < expected.len()
        invariant
            index <= args@.len(),
            forall|i: int| 0 <= i < index && i < expected@.len() ==> (#[trigger] args@[i]).ty == expected@[i],
        decreases args.len() - index,
    {
        if args[index].ty != expected[index] {
            let mut message = to_owned("function `");
            push_str(&mut message, builtin);
            push_str(&mut message, "` expects argument ");
            push_decimal(&mut message, index as u128 + 1);
            push_str(&mut message, " to have type `");
            push_str(&mut message, expected[index].name());
            push_str(&mut message, "` but got `");
            push_str(&mut message, args[index].ty.name());
            push_str(&mut message, "`");
            proof {
                reveal_strlit("function `");
                reveal_strlit("` expects argument ");
                reveal_strlit(" to have type `");
                reveal_strlit("` but got `");
                reveal_strlit("`");
                assert(message@ =~= argument_type_message(builtin@, (index + 1) as nat, expected@[index as int], args@[index as int].ty));
            }
            return Err(CompileError::new(span, message));
        }
        index = index + 1;
    }
    Ok(())
}

fn expect_all_types(builtin: &str, args: &Vec<TypedExpr>, expected: Type, span: Span) -> (r: CompileResult<()>)
    ensures
        r is Ok <==> args_typed(args@, Seq::new(args@.len(), |i: int| expected)),
        r matches Err(e) ==> e.span == span && first_mismatch_reported(builtin@, args@, Seq::new(args@.len(), |i: int| expected), e.message@),
{
    let mut expected_types: Vec<Type> = Vec::new();
    let mut i: usize = 0;
    while i < args.len()
        invariant
            i <= args@.len(),
            expected_types@ == Seq::new(i as nat, |k: int| expected),
        decreases args.len() - i,
    {
        expected_types.push(expected);
        assert(expected_types@ =~= Seq::new((i + 1) as nat, |k: int| expected));
        i = i + 1;
    }
    expect_types(builtin, args, &expected_types, span)
}

/// The message for a call of an unknown function.
pub open spec fn undeclared_function_message(name: Seq<char>) -> Seq<char> {
    "undeclared function `"@ + name + "`"@
}

/// Expands a call of the builtin `name` into a typed expression.
///
/// Fails when `name` is not a builtin, when the number of arguments differs from its arity, or
/// when an argument does not have the type the builtin expects.
pub fn expand(name: &str, args: &Vec<TypedExpr>, span: Span) -> (r: CompileResult<TypedExpr>)
    ensures
        r is Ok <==> is_builtin(name@) && args@.len() == builtin_arities()[builtin_index(name@)->0].1
            && args_typed(args@, expected_types(name@, args@)),
        r matches Ok(e) ==> e == expansion(name@, args@, span),
        r matches Err(err) ==> err.span == span,
        !is_builtin(name@) ==> (r matches Err(err) && err.message@ == undeclared_function_message(name@)),
        is_builtin(name@) && args@.len() != builtin_arities()[builtin_index(name@)->0].1 ==> (r matches Err(err)
            && err.message@ == arity_message(name@, builtin_arities()[builtin_index(name@)->0].1, args@.len())),
        is_builtin(name@) && args@.len() == builtin_arities()[builtin_index(name@)->0].1 && !args_typed(args@, expected_types(name@, args@))
            ==> (r matches Err(err) && first_mismatch_reported(name@, args@, expected_types(name@, args@), err.message@)),
{
    let (index, builtin) = match lookup_builtin(name) {
        Some(found) => found,
        None => {
            let mut message = to_owned("undeclared function `");
            push_str(&mut message, name);
            push_str(&mut message, "`");
            proof {
                reveal_strlit("undeclared function `");
                reveal_strlit("`");
            }
            return Err(CompileError::new(span, message));
        },
    };
    if args.len() != builtin.arity {
        let mut message = to_owned("function `");
        push_str(&mut message, name);
        push_str(&mut message, "` expects ");
        push_decimal(&mut message, builtin.arity as u128);
        push_str(&mut message, " arguments but got ");
        push_decimal(&mut message, args.len() as u128);
        proof {
            reveal_strlit("function `");
            reveal_strlit("` expects ");
            reveal_strlit(" arguments but got ");
            assert(message@ =~= arity_message(name@, builtin.arity as nat, args@.len()));
        }
        return Err(CompileError::new(span, message));
    }
    if index < 12 {
        expand_field_op(index, name, args, span)
    } else if index < 18 {
        expand_bool_op(index, name, args, span)
    } else {
        expand_conversion(index, name, args, span)
    }
}

/// Expands the field-arithmetic builtins.
fn expand_field_op(index: usize, name: &str, args: &Vec<TypedExpr>, span: Span) -> (r: CompileResult<TypedExpr>)
    requires
        0 <= index <= 11,
        args@.len() == builtin_arities()[index as int].1,
    ensures
        r is Ok <==> args_typed(args@, expected_types_at(index as int, args@)),
        r matches Ok(e) ==> e == expansion_at(index as int, args@, span),
        r matches Err(e) ==> e.span == span && first_mismatch_reported(name@, args@, expected_types_at(index as int, args@), e.message@),
{
    if index == 0 {
        expect_all_types(name, args, Type::Field, span)?;
        Ok(mul_exprs(args[0].clone(), args[0].clone(), span))
    } else if index == 1 {
        expect_all_types(name, args, Type::Field, span)?;
        Ok(mul_exprs(mul_exprs(args[0].clone(), args[0].clone(), span), args[0].clone(), span))
    } else if index == 2 {
        expect_all_types(name, args, Type::Field, span)?;
        Ok(add_exprs(args[0].clone(), args[0].clone(), span))
    } else if index == 3 {
        expect_all_types(name, args, Type::Field, span)?;
        Ok(add_exprs(add_exprs(args[0].clone(), args[0].clone(), span), args[0].clone(), span))
    } else if index == 4 {
        expect_all_types(name, args, Type::Field, span)?;
        Ok(add_exprs(add_exprs(args[0].clone(), args[0].clone(), span), add_exprs(args[0].clone(), args[0].clone(), span), span))
    } else if index == 5 {
        expect_all_types(name, args, Type::Field, span)?;
        Ok(field_unary_neg(args[0].clone(), span))
    } else if index == 6 {
        expect_all_types(name, args, Type::Field, span)?;
        Ok(add_exprs(args[0].clone(), args[1].clone(), span))
    } else if index == 7 {
        expect_all_types(name, args, Type::Field, span)?;
        Ok(add_exprs(add_exprs(args[0].clone(), args[1].clone(), span), args[2].clone(), span))
    } else if index == 8 {
        expect_all_types(name, args, Type::Field, span)?;
        Ok(add_exprs(add_exprs(args[0].clone(), args[1].clone(), span), add_exprs(args[2].clone(), args[3].clone(), span), span))
    } else if index == 9 {
        expect_all_types(name, args, Type::Field, span)?;
        Ok(add_exprs(mul_exprs(args[0].clone(), args[1].clone(), span), args[2].clone(), span))
    } else if index == 10 {
        expect_all_types(name, args, Type::Field, span)?;
        Ok(add_exprs(mul_exprs(args[0].clone(), args[1].clone(), span), mul_exprs(args[2].clone(), args[3].clone(), span), span))
    } else {
        expect_all_types(name, args, Type::Field, span)?;
        Ok(add_exprs(add_exprs(mul_exprs(args[0].clone(), args[1].clone(), span), mul_exprs(args[2].clone(), args[3].clone(), span), span), mul_exprs(args[4].clone(), args[5].clone(), span), span))
    }
}

/// Expands the boolean and selection builtins.
fn expand_bool_op(index: usize, name: &str, args: &Vec<TypedExpr>, span: Span) -> (r: CompileResult<TypedExpr>)
    requires
        12 <= index <= 17,
        args@.len() == builtin_arities()[index as int].1,
    ensures
        r is Ok <==> args_typed(args@, expected_types_at(index as int, args@)),
        r matches Ok(e) ==> e == expansion_at(index as int, args@, span),
        r matches Err(e) ==> e.span == span && first_mismatch_reported(name@, args@, expected_types_at(index as int, args@), e.message@),
{
    if index == 12 {
        expect_all_types(name, args, Type::Bool, span)?;
        Ok(bool_not(args[0].clone(), span))
    } else if index == 13 {
        expect_all_types(name, args, Type::Bool, span)?;
        Ok(bool_and(args[0].clone(), args[1].clone(), span))
    } else if index == 14 {
        expect_all_types(name, args, Type::Bool, span)?;
        Ok(bool_or(args[0].clone(), args[1].clone(), span))
    } else if index == 15 {
        expect_all_types(name, args, Type::Bool, span)?;
        Ok(bool_xor(args[0].clone(), args[1].clone(), span))
    } else if index == 16 {
        let expected = vec![Type::Bool, Type::Field, Type::Field];
        assert(expected@ =~= seq![Type::Bool, Type::Field, Type::Field]);
        expect_types(name, args, &expected, span)?;
        Ok(select(args[0].clone(), args[1].clone(), args[2].clone(), Type::Field, span))
    } else {
        let expected = vec![Type::Bool, Type::Bool, Type::Bool];
        assert(expected@ =~= seq![Type::Bool, Type::Bool, Type::Bool]);
        expect_types(name, args, &expected, span)?;
        Ok(select(args[0].clone(), args[1].clone(), args[2].clone(), Type::Bool, span))
    }
}

/// Expands the conversion builtins.
fn expand_conversion(index: usize, name: &str, args: &Vec<TypedExpr>, span: Span) -> (r: CompileResult<TypedExpr>)
    requires
        18 <= index <= 21,
        args@.len() == builtin_arities()[index as int].1,
    ensures
        r is Ok <==> args_typed(args@, expected_types_at(index as int, args@)),
        r matches Ok(e) ==> e == expansion_at(index as int, args@, span),
        r matches Err(e) ==> e.span == span && first_mismatch_reported(name@, args@, expected_types_at(index as int, args@), e.message@),
{
    if index == 18 {
        let expected = vec![Type::Field];
        assert(expected@ =~= seq![Type::Field]);
        expect_types(name, args, &expected, span)?;
        Ok(cast(args[0].clone(), Type::U8, span))
    } else if index == 19 {
        let expected = vec![Type::Field];
        assert(expected@ =~= seq![Type::Field]);
        expect_types(name, args, &expected, span)?;
        Ok(cast(args[0].clone(), Type::U16, span))
    } else if index == 20 {
        let expected = vec![Type::Field];
        assert(expected@ =~= seq![Type::Field]);
        expect_types(name, args, &expected, span)?;
        Ok(cast(args[0].clone(), Type::U32, span))
    } else {
        proof {
            assert(args_typed(args@, expected_types_at(index as int, args@)));
        }
        if args[0].ty == Type::Field {
            Ok(args[0].clone())
        } else {
            Ok(cast(args[0].clone(), Type::Field, span))
        }
    }
}

/// A builtin call whose arguments are well typed, of the types the builtin expects, and refer
/// only to `scope`, expands to a well-typed expression that refers only to `scope`.
pub proof fn lemma_expansion_sound(name: Seq<char>, a: Seq<TypedExpr>, span: Span, scope: Seq<Binding>)
    requires
        is_builtin(name),
        a.len() == builtin_arities()[builtin_index(name)->0].1,
        args_typed(a, expected_types(name, a)),
        forall|i: int| 0 <= i < a.len() ==> well_typed(#[trigger] a[i]) && refs_bound(a[i], scope),
    ensures
        well_typed(expansion(name, a, span)),
        refs_bound(expansion(name, a, span), scope),
{
    let k = builtin_index(name)->0;
    assert(0 <= k < builtin_arities().len());
    lemma_expansion_at_sound(k, a, span, scope);
}

proof fn lemma_expansion_at_sound(k: int, a: Seq<TypedExpr>, span: Span, scope: Seq<Binding>)
    requires
        0 <= k < builtin_arities().len(),
        a.len() == builtin_arities()[k].1,
        args_typed(a, expected_types_at(k, a)),
        forall|i: int| 0 <= i < a.len() ==> well_typed(#[trigger] a[i]) && refs_bound(a[i], scope),
    ensures
        well_typed(expansion_at(k, a, span)),
        refs_bound(expansion_at(k, a, span), scope),
{
    reveal_with_fuel(well_typed, 4);
    reveal_with_fuel(refs_bound, 4);
    let e = expected_types_at(k, a);
    if a.len() > 0 {
        assert(well_typed(a[0]) && refs_bound(a[0], scope) && a[0].ty == e[0]);
    }
    if a.len() > 1 {
        assert(well_typed(a[1]) && refs_bound(a[1], scope) && a[1].ty == e[1]);
    }
    if a.len() > 2 {
        assert(well_typed(a[2]) && refs_bound(a[2], scope) && a[2].ty == e[2]);
    }
    if a.len() > 3 {
        assert(well_typed(a[3]) && refs_bound(a[3], scope) && a[3].ty == e[3]);
    }
    if a.len() > 5 {
        assert(well_typed(a[4]) && refs_bound(a[4], scope) && a[4].ty == e[4]);
        assert(well_typed(a[5]) && refs_bound(a[5], scope) && a[5].ty == e[5]);
    }
}

/// The result type of the builtin at catalogue position `k`: `field` for the arithmetic builtins,
/// `choose` and `into_field`, `bool` for the boolean ones and `choose_bool`, and the unsigned
/// type that `into_u8`, `into_u16` and `into_u32` name.
pub open spec fn builtin_result_type(k: int) -> Type {
    if k <= 11 || k == 16 || k == 21 {
        Type::Field
    } else if k <= 15 || k == 17 {
        Type::Bool
    } else if k == 18 {
        Type::U8
    } else if k == 19 {
        Type::U16
    } else {
        Type::U32
    }
}

/// A builtin call with the right number of arguments of the expected types expands to an
/// expression of the builtin's result type.
pub proof fn lemma_expansion_type(name: Seq<char>, a: Seq<TypedExpr>, span: Span)
    requires
        is_builtin(name),
        a.len() == builtin_arities()[builtin_index(name)->0].1,
        args_typed(a, expected_types(name, a)),
    ensures
        expansion(name, a, span).ty == builtin_result_type(builtin_index(name)->0),
{
    let k = builtin_index(name)->0;
    assert(0 <= k < builtin_arities().len());
    if k == 21 {
        assert(a.len() > 0);
    }
}

/// The value of the arithmetic builtin at catalogue position `k` (square through weighted_sum3)
/// on the argument values `v`, as the catalogue describes it.
pub open spec fn arithmetic_builtin_value(k: int, v: Seq<nat>) -> nat {
    if k == 0 {
        field_mul(v[0], v[0])
    } else if k == 1 {
        field_mul(field_mul(v[0], v[0]), v[0])
    } else if k == 2 {
        field_add(v[0], v[0])
    } else if k == 3 {
        field_add(field_add(v[0], v[0]), v[0])
    } else if k == 4 {
        field_add(field_add(v[0], v[0]), field_add(v[0], v[0]))
    } else if k == 5 {
        field_neg(v[0])
    } else if k == 6 {
        field_add(v[0], v[1])
    } else if k == 7 {
        field_add(field_add(v[0], v[1]), v[2])
    } else if k == 8 {
        field_add(field_add(v[0], v[1]), field_add(v[2], v[3]))
    } else if k == 9 {
        field_add(field_mul(v[0], v[1]), v[2])
    } else if k == 10 {
        field_add(field_mul(v[0], v[1]), field_mul(v[2], v[3]))
    } else {
        field_add(field_add(field_mul(v[0], v[1]), field_mul(v[2], v[3])), field_mul(v[4], v[5]))
    }
}

/// The expansion of an arithmetic builtin call evaluates to the builtin's value on the values of
/// its arguments.
pub proof fn lemma_arithmetic_builtin_value(k: int, a: Seq<TypedExpr>, span: Span, env: Map<BindingId, nat>)
    requires
        0 <= k <= 11,
        a.len() == builtin_arities()[k].1,
    ensures
        expr_value(expansion_at(k, a, span), env) == arithmetic_builtin_value(k, Seq::new(a.len(), |i: int| expr_value(a[i], env))),
{
    reveal_with_fuel(expr_value, 4);
}

} // verus!
