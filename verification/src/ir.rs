//! The wire-based arithmetic circuit IR and the lowering of typed HIR into it.
use vstd::prelude::*;

use std::collections::HashMap;

use crate::ast::{type_is_uint, BinaryOp, Type, UnaryOp, Visibility};
use crate::error::{CompileError, CompileResult};
use crate::field::{field_add, field_mul, field_sub, FieldElement};
use crate::hir::{self, expr_value, select_value, ExprKind, TypedExpr};
use crate::optimize::{ops_hold, wires_canonical};
use crate::trace::{assign_wires, constraint_holds, final_wires, operand_value, range_bits, range_holds, run_ops};
use crate::ast::type_bits;
use crate::eval::{lookup, values_canonical, RuntimeInputs};
use crate::span::Span;
use crate::text::{push_decimal, to_owned};

verus! {

broadcast use vstd::std_specs::hash::group_hash_axioms;

pub type WireId = usize;

#[derive(Debug, Clone, Copy, PartialEq, Eq, Structural)]
pub enum Operand {
    Wire(WireId),
    Const(FieldElement),
}

#[derive(Debug, PartialEq, Eq)]
pub struct NamedInput {
    pub binding: hir::BindingId,
    pub name: String,
    pub ty: Type,
    pub wire: WireId,
}

#[derive(Debug, Clone, Copy, PartialEq, Eq, Structural)]
pub struct Operation {
    pub out: WireId,
    pub kind: OpKind,
}

#[derive(Debug, Clone, Copy, PartialEq, Eq, Structural)]
pub enum OpKind {
    Add(Operand, Operand),
    Sub(Operand, Operand),
    Mul(Operand, Operand),
}

pub open spec fn op_lhs(k: OpKind) -> Operand {
    match k {
        OpKind::Add(lhs, _) => lhs,
        OpKind::Sub(lhs, _) => lhs,
        OpKind::Mul(lhs, _) => lhs,
    }
}

pub open spec fn op_rhs(k: OpKind) -> Operand {
    match k {
        OpKind::Add(_, rhs) => rhs,
        OpKind::Sub(_, rhs) => rhs,
        OpKind::Mul(_, rhs) => rhs,
    }
}

/// The same operation applied to other operands.
pub open spec fn op_with(k: OpKind, lhs: Operand, rhs: Operand) -> OpKind {
    match k {
        OpKind::Add(_, _) => OpKind::Add(lhs, rhs),
        OpKind::Sub(_, _) => OpKind::Sub(lhs, rhs),
        OpKind::Mul(_, _) => OpKind::Mul(lhs, rhs),
    }
}

impl OpKind {
    pub fn lhs(&self) -> (r: Operand)
        ensures
            r == op_lhs(*self),
    {
        match *self {
            OpKind::Add(lhs, _) => lhs,
            OpKind::Sub(lhs, _) => lhs,
            OpKind::Mul(lhs, _) => lhs,
        }
    }

    pub fn rhs(&self) -> (r: Operand)
        ensures
            r == op_rhs(*self),
    {
        match *self {
            OpKind::Add(_, rhs) => rhs,
            OpKind::Sub(_, rhs) => rhs,
            OpKind::Mul(_, rhs) => rhs,
        }
    }

    pub fn with_operands(&self, lhs: Operand, rhs: Operand) -> (r: OpKind)
        ensures
            r == op_with(*self, lhs, rhs),
    {
        match *self {
            OpKind::Add(_, _) => OpKind::Add(lhs, rhs),
            OpKind::Sub(_, _) => OpKind::Sub(lhs, rhs),
            OpKind::Mul(_, _) => OpKind::Mul(lhs, rhs),
        }
    }
}

#[derive(Debug, Clone, Copy, PartialEq, Eq, Structural)]
pub struct Constraint {
    pub lhs: Operand,
    pub rhs: Operand,
}

#[derive(Debug, Clone, Copy, PartialEq, Eq, Structural)]
pub struct RangeConstraint {
    pub value: Operand,
    pub ty: Type,
}

#[derive(Debug, PartialEq, Eq)]
pub struct Output {
    pub name: String,
    pub value: Operand,
}

#[derive(Debug, PartialEq, Eq)]
pub struct CircuitIr {
    pub name: String,
    pub public_inputs: Vec<NamedInput>,
    pub private_inputs: Vec<NamedInput>,
    pub operations: Vec<Operation>,
    pub constraints: Vec<Constraint>,
    pub range_constraints: Vec<RangeConstraint>,
    pub outputs: Vec<Output>,
    pub next_wire: WireId,
}

impl Clone for NamedInput {
    fn clone(&self) -> (r: NamedInput)
        ensures
            r == *self,
    {
        NamedInput { binding: self.binding, name: self.name.clone(), ty: self.ty, wire: self.wire }
    }
}

impl Clone for Output {
    fn clone(&self) -> (r: Output)
        ensures
            r == *self,
    {
        Output { name: self.name.clone(), value: self.value }
    }
}

/// A copy of a vector whose elements are copied exactly.
pub fn copy_inputs(v: &Vec<NamedInput>) -> (r: Vec<NamedInput>)
    ensures
        r@ == v@,
{
    let mut r: Vec<NamedInput> = Vec::new();
    let mut i: usize = 0;
    while i < v.len()
        invariant
            i <= v@.len(),
            r@ == v@.subrange(0, i as int),
        decreases v.len() - i,
    {
        r.push(v[i].clone());
        assert(r@ =~= v@.subrange(0, i + 1));
        i = i + 1;
    }
    assert(r@ =~= v@);
    r
}

pub fn copy_outputs(v: &Vec<Output>) -> (r: Vec<Output>)
    ensures
        r@ == v@,
{
    let mut r: Vec<Output> = Vec::new();
    let mut i: usize = 0;
    while i < v.len()
        invariant
            i <= v@.len(),
            r@ == v@.subrange(0, i as int),
        decreases v.len() - i,
    {
        r.push(v[i].clone());
        assert(r@ =~= v@.subrange(0, i + 1));
        i = i + 1;
    }
    assert(r@ =~= v@);
    r
}

impl Clone for CircuitIr {
    fn clone(&self) -> (r: CircuitIr)
        ensures
            r.name@ == self.name@,
            r.public_inputs@ == self.public_inputs@,
            r.private_inputs@ == self.private_inputs@,
            r.operations@ == self.operations@,
            r.constraints@ == self.constraints@,
            r.range_constraints@ == self.range_constraints@,
            r.outputs@ == self.outputs@,
            r.next_wire == self.next_wire,
    {
        CircuitIr {
            name: self.name.clone(),
            public_inputs: copy_inputs(&self.public_inputs),
            private_inputs: copy_inputs(&self.private_inputs),
            operations: self.operations.clone(),
            constraints: self.constraints.clone(),
            range_constraints: self.range_constraints.clone(),
            outputs: copy_outputs(&self.outputs),
            next_wire: self.next_wire,
        }
    }
}

/// A constant, or a wire below `bound`.
pub open spec fn wire_below(o: Operand, bound: nat) -> bool {
    match o {
        Operand::Wire(w) => w < bound,
        Operand::Const(_) => true,
    }
}

/// The shape every lowered circuit has: each wire below `next` is allocated exactly once (to an
/// input or to an operation, in increasing order), an operation only reads wires allocated before
/// its own, and constraints, range constraints and outputs only read allocated wires.
pub open spec fn lowering_shape(
    public_inputs: Seq<NamedInput>,
    private_inputs: Seq<NamedInput>,
    operations: Seq<Operation>,
    constraints: Seq<Constraint>,
    range_constraints: Seq<RangeConstraint>,
    outputs: Seq<Output>,
    next: nat,
) -> bool {
    &&& public_inputs.len() + private_inputs.len() + operations.len() == next
    &&& forall|i: int| 0 <= i < public_inputs.len() ==> #[trigger] public_inputs[i].wire < next
    &&& forall|i: int| 0 <= i < private_inputs.len() ==> #[trigger] private_inputs[i].wire < next
    &&& forall|k: int|
        0 <= k < operations.len() ==> {
            &&& #[trigger] operations[k].out < next
            &&& wire_below(op_lhs(operations[k].kind), operations[k].out as nat)
            &&& wire_below(op_rhs(operations[k].kind), operations[k].out as nat)
        }
    &&& forall|k1: int, k2: int|
        0 <= k1 < k2 < operations.len() ==> #[trigger] operations[k1].out
            < #[trigger] operations[k2].out
    &&& forall|c: int|
        0 <= c < constraints.len() ==> wire_below(#[trigger] constraints[c].lhs, next)
            && wire_below(constraints[c].rhs, next)
    &&& forall|c: int|
        0 <= c < range_constraints.len() ==> wire_below(#[trigger] range_constraints[c].value, next)
    &&& forall|c: int| 0 <= c < outputs.len() ==> wire_below(#[trigger] outputs[c].value, next)
}

/// Each wire is allocated once: no two inputs share a wire, and no operation writes an input's
/// wire.
pub open spec fn allocated_once(ir: CircuitIr) -> bool {
    let ps = ir.public_inputs@;
    let qs = ir.private_inputs@;
    let ops = ir.operations@;
    &&& forall|i: int, j: int| 0 <= i < j < ps.len() ==> (#[trigger] ps[i]).wire != (#[trigger] ps[j]).wire
    &&& forall|i: int, j: int| 0 <= i < j < qs.len() ==> (#[trigger] qs[i]).wire != (#[trigger] qs[j]).wire
    &&& forall|i: int, j: int| 0 <= i < ps.len() && 0 <= j < qs.len() ==> (#[trigger] ps[i]).wire != (#[trigger] qs[j]).wire
    &&& forall|i: int, k: int| 0 <= i < ps.len() && 0 <= k < ops.len() ==> (#[trigger] ps[i]).wire != (#[trigger] ops[k]).out
    &&& forall|i: int, k: int| 0 <= i < qs.len() && 0 <= k < ops.len() ==> (#[trigger] qs[i]).wire != (#[trigger] ops[k]).out
}

/// No operation has two constant operands: lowering folds those.
pub open spec fn no_constant_pairs(ops: Seq<Operation>) -> bool {
    forall|k: int| 0 <= k < ops.len() ==> !(op_lhs((#[trigger] ops[k]).kind) is Const && op_rhs(ops[k].kind) is Const)
}

pub open spec fn ir_lowering_shape(ir: CircuitIr) -> bool {
    lowering_shape(
        ir.public_inputs@,
        ir.private_inputs@,
        ir.operations@,
        ir.constraints@,
        ir.range_constraints@,
        ir.outputs@,
        ir.next_wire as nat,
    )
}

/// Every `Reference` in `e` names a binding whose id is in `ids`.
pub open spec fn refs_within(e: TypedExpr, ids: Set<hir::BindingId>) -> bool
    decreases e,
{
    match e.kind {
        ExprKind::Constant(_) => true,
        ExprKind::BoolConstant(_) => true,
        ExprKind::Reference(b) => ids.contains(b.id),
        ExprKind::Unary { op, expr } => refs_within(*expr, ids),
        ExprKind::Binary { op, lhs, rhs } => refs_within(*lhs, ids) && refs_within(*rhs, ids),
        ExprKind::IfElse { condition, then_branch, else_branch } => refs_within(*condition, ids)
            && refs_within(*then_branch, ids) && refs_within(*else_branch, ids),
        ExprKind::BoolNot { expr } => refs_within(*expr, ids),
        ExprKind::BoolAnd { lhs, rhs } => refs_within(*lhs, ids) && refs_within(*rhs, ids),
        ExprKind::BoolOr { lhs, rhs } => refs_within(*lhs, ids) && refs_within(*rhs, ids),
        ExprKind::BoolXor { lhs, rhs } => refs_within(*lhs, ids) && refs_within(*rhs, ids),
        ExprKind::Cast { expr, target } => refs_within(*expr, ids),
    }
}

/// The binding ids in scope after the first `n` items.
pub open spec fn bound_after(items: Seq<hir::Item>, n: nat) -> Set<hir::BindingId>
    decreases n,
{
    if n == 0 {
        Set::empty()
    } else {
        let before = bound_after(items, (n - 1) as nat);
        match items[n - 1] {
            hir::Item::Input(input) => before.insert(input.binding.id),
            hir::Item::Statement(hir::Statement::Let(stmt)) => before.insert(stmt.binding.id),
            _ => before,
        }
    }
}

/// Each item only refers to bindings introduced by earlier items (its own `let` binding not
/// included).
pub open spec fn item_scoped(items: Seq<hir::Item>, n: nat) -> bool {
    let bound = bound_after(items, n);
    match items[n as int] {
        hir::Item::Statement(hir::Statement::Let(stmt)) => refs_within(stmt.expr, bound),
        hir::Item::Statement(hir::Statement::Constrain(stmt)) => refs_within(stmt.lhs, bound)
            && refs_within(stmt.rhs, bound),
        hir::Item::Statement(hir::Statement::Expose(stmt)) => refs_within(stmt.expr, bound),
        _ => true,
    }
}

pub open spec fn program_scoped(program: hir::Program) -> bool {
    forall|n: nat| n < program.circuit.items@.len() ==> #[trigger] item_scoped(program.circuit.items@, n)
}

/// At most how many operations lowering `e` emits.
pub open spec fn expr_ops(e: TypedExpr) -> nat
    decreases e,
{
    match e.kind {
        ExprKind::Unary { expr, .. } => expr_ops(*expr) + 1,
        ExprKind::Binary { lhs, rhs, .. } => expr_ops(*lhs) + expr_ops(*rhs) + 1,
        ExprKind::IfElse { condition, then_branch, else_branch } => expr_ops(*condition) + expr_ops(*then_branch) + expr_ops(
            *else_branch,
        ) + 3,
        ExprKind::BoolNot { expr } => expr_ops(*expr) + 1,
        ExprKind::BoolAnd { lhs, rhs } => expr_ops(*lhs) + expr_ops(*rhs) + 1,
        ExprKind::BoolOr { lhs, rhs } => expr_ops(*lhs) + expr_ops(*rhs) + 3,
        ExprKind::BoolXor { lhs, rhs } => expr_ops(*lhs) + expr_ops(*rhs) + 4,
        ExprKind::Cast { expr, .. } => expr_ops(*expr),
        _ => 0,
    }
}

/// At most how many wires lowering the first `n` items allocates: one per input and two more
/// for a `bool` input's booleanity constraint, and the operations of each expression.
pub open spec fn wires_needed(items: Seq<hir::Item>, n: nat) -> nat
    decreases n,
{
    if n == 0 {
        0
    } else {
        wires_needed(items, (n - 1) as nat) + match items[n - 1] {
            hir::Item::Input(_) => 3nat,
            hir::Item::Statement(hir::Statement::Let(stmt)) => expr_ops(stmt.expr),
            hir::Item::Statement(hir::Statement::Constrain(stmt)) => expr_ops(stmt.lhs) + expr_ops(stmt.rhs),
            hir::Item::Statement(hir::Statement::Expose(stmt)) => expr_ops(stmt.expr),
            _ => 0nat,
        }
    }
}

proof fn lemma_wires_needed_mono(items: Seq<hir::Item>, n: nat, m: nat)
    requires
        n <= m,
    ensures
        wires_needed(items, n) <= wires_needed(items, m),
    decreases m,
{
    if n < m {
        lemma_wires_needed_mono(items, n, (m - 1) as nat);
    }
}

proof fn lemma_unnamed_before_bound(items: Seq<hir::Item>, n: nat)
    ensures
        unnamed_before(items, n) <= n,
    decreases n,
{
    if n > 0 {
        lemma_unnamed_before_bound(items, (n - 1) as nat);
    }
}

/// The message reported when a circuit would need more wires than a `usize` can number.
pub open spec fn wire_limit_message() -> Seq<char> {
    "circuit needs more wires than can be numbered"@
}

struct Lowerer {
    ir: CircuitIr,
    symbols: HashMap<hir::BindingId, Operand>,
    next_wire: WireId,
    output_counter: usize,
}

impl Lowerer {
    spec fn shaped(&self) -> bool {
        &&& lowering_shape(
            self.ir.public_inputs@,
            self.ir.private_inputs@,
            self.ir.operations@,
            self.ir.constraints@,
            self.ir.range_constraints@,
            self.ir.outputs@,
            self.next_wire as nat,
        )
        &&& forall|id: hir::BindingId| #[trigger]
            self.symbols@.contains_key(id) ==> wire_below(self.symbols@[id], self.next_wire as nat)
        &&& allocated_once(self.ir)
        &&& no_constant_pairs(self.ir.operations@)
    }

    spec fn extends(&self, old: &Lowerer) -> bool {
        &&& self.next_wire >= old.next_wire
        &&& self.ir.name@ == old.ir.name@
        &&& self.symbols@ == old.symbols@
        &&& self.output_counter == old.output_counter
        &&& self.ir.outputs@ == old.ir.outputs@
        &&& self.ir.public_inputs@ == old.ir.public_inputs@
        &&& self.ir.private_inputs@ == old.ir.private_inputs@
        &&& old.ir.operations@.len() <= self.ir.operations@.len()
        &&& forall|k: int| 0 <= k < old.ir.operations@.len() ==> #[trigger] self.ir.operations@[k] == old.ir.operations@[k]
    }

    /// `w` is a wire table of field elements that covers every wire allocated so far and in
    /// which every operation emitted so far holds.
    spec fn holds_in(&self, w: Seq<nat>) -> bool {
        table_holds(self.ir, self.next_wire as nat, w)
    }

    fn new(name: &str) -> (l: Lowerer)
        ensures
            l.shaped(),
            l.ir.name@ == name@,
            l.symbols@ == Map::<hir::BindingId, Operand>::empty(),
            l.next_wire == 0,
            l.output_counter == 0,
            l.ir.public_inputs@.len() == 0,
            l.ir.private_inputs@.len() == 0,
            l.ir.constraints@.len() == 0,
            l.ir.outputs@.len() == 0,
            l.ir.range_constraints@.len() == 0,
    {
        Lowerer {
            ir: CircuitIr {
                name: to_owned(name),
                public_inputs: Vec::new(),
                private_inputs: Vec::new(),
                operations: Vec::new(),
                constraints: Vec::new(),
                range_constraints: Vec::new(),
                outputs: Vec::new(),
                next_wire: 0,
            },
            symbols: HashMap::new(),
            next_wire: 0,
            output_counter: 0,
        }
    }

    fn limit_error() -> (e: CompileError)
        ensures
            e.message@ == wire_limit_message(),
    {
        CompileError::new(Span::unknown(), to_owned("circuit needs more wires than can be numbered"))
    }

    fn emit(&mut self, kind: OpKind) -> (r: CompileResult<Operand>)
        requires
            old(self).shaped(),
            wire_below(op_lhs(kind), old(self).next_wire as nat),
            wire_below(op_rhs(kind), old(self).next_wire as nat),
            !(op_lhs(kind) is Const && op_rhs(kind) is Const),
        ensures
            final(self).shaped(),
            final(self).extends(old(self)),
            final(self).ir.constraints@ == old(self).ir.constraints@,
            final(self).ir.range_constraints@ == old(self).ir.range_constraints@,
            r matches Ok(o) ==> wire_below(o, final(self).next_wire as nat),
            r matches Ok(o) ==> o == Operand::Wire(old(self).next_wire) && final(self).ir.operations@ == old(self).ir.operations@.push(
                Operation { out: old(self).next_wire, kind },
            ),
            r matches Err(e) ==> e.message@ == wire_limit_message(),
            r is Err <==> old(self).next_wire == usize::MAX,
            final(self).next_wire <= old(self).next_wire + 1,
            r is Err ==> final(self).next_wire == usize::MAX,
    {
        if self.next_wire == usize::MAX {
            return Err(Lowerer::limit_error());
        }
        let wire = self.next_wire;
        self.next_wire = wire + 1;
        self.ir.operations.push(Operation { out: wire, kind });
        proof {
            let ops = self.ir.operations@;
            assert forall|k1: int, k2: int|
                0 <= k1 < k2 < ops.len() implies #[trigger] ops[k1].out < #[trigger] ops[k2].out by {
                if k2 < ops.len() - 1 {
                    assert(old(self).ir.operations@[k1] == ops[k1]);
                    assert(old(self).ir.operations@[k2] == ops[k2]);
                } else {
                    assert(old(self).ir.operations@[k1] == ops[k1]);
                }
            }
            assert forall|k: int| 0 <= k < ops.len() implies !(op_lhs((#[trigger] ops[k]).kind) is Const && op_rhs(ops[k].kind) is Const) by {
                if k < ops.len() - 1 {
                    assert(old(self).ir.operations@[k] == ops[k]);
                }
            }
            assert forall|k: int| 0 <= k < ops.len() implies {
                &&& #[trigger] ops[k].out < self.next_wire
                &&& wire_below(op_lhs(ops[k].kind), ops[k].out as nat)
                &&& wire_below(op_rhs(ops[k].kind), ops[k].out as nat)
            } by {
                if k < ops.len() - 1 {
                    assert(old(self).ir.operations@[k] == ops[k]);
                }
            }
        }
        Ok(Operand::Wire(wire))
    }
}


/// Widening the set of bindings in scope keeps an expression in scope.
pub proof fn lemma_refs_within_mono(e: TypedExpr, a: Set<hir::BindingId>, b: Set<hir::BindingId>)
    requires
        refs_within(e, a),
        a.subset_of(b),
    ensures
        refs_within(e, b),
    decreases e,
{
    match e.kind {
        ExprKind::Unary { op, expr } => lemma_refs_within_mono(*expr, a, b),
        ExprKind::Binary { op, lhs, rhs } => {
            lemma_refs_within_mono(*lhs, a, b);
            lemma_refs_within_mono(*rhs, a, b);
        },
        ExprKind::IfElse { condition, then_branch, else_branch } => {
            lemma_refs_within_mono(*condition, a, b);
            lemma_refs_within_mono(*then_branch, a, b);
            lemma_refs_within_mono(*else_branch, a, b);
        },
        ExprKind::BoolNot { expr } => lemma_refs_within_mono(*expr, a, b),
        ExprKind::BoolAnd { lhs, rhs } => {
            lemma_refs_within_mono(*lhs, a, b);
            lemma_refs_within_mono(*rhs, a, b);
        },
        ExprKind::BoolOr { lhs, rhs } => {
            lemma_refs_within_mono(*lhs, a, b);
            lemma_refs_within_mono(*rhs, a, b);
        },
        ExprKind::BoolXor { lhs, rhs } => {
            lemma_refs_within_mono(*lhs, a, b);
            lemma_refs_within_mono(*rhs, a, b);
        },
        ExprKind::Cast { expr, target } => lemma_refs_within_mono(*expr, a, b),
        _ => {},
    }
}

/// Every constraint holds in the wire table `w`.
pub open spec fn constraints_hold(cs: Seq<Constraint>, w: Seq<nat>) -> bool {
    forall|c: int| 0 <= c < cs.len() ==> constraint_holds(#[trigger] cs[c], w)
}

/// The value of each binding in the wire table `w`.
pub open spec fn symbol_env(symbols: Map<hir::BindingId, Operand>, w: Seq<nat>) -> Map<hir::BindingId, nat> {
    symbols.map_values(|o: Operand| operand_value(o, w)->0)
}

/// Whether recording that `operand` fits the type `ty` adds a range constraint to `ranges`:
/// `ty` is unsigned, `operand` is not a constant that visibly fits, and the same range
/// constraint is not already there.
pub open spec fn range_needed(ranges: Seq<RangeConstraint>, operand: Operand, ty: Type) -> bool {
    &&& crate::ast::type_is_uint(ty)
    &&& !(operand matches Operand::Const(v) && crate::field::fits_bits(v@, crate::ast::type_bits(ty)->0 as nat))
    &&& !ranges.contains(RangeConstraint { value: operand, ty })
}

/// Every range constraint holds in the wire table `w`.
pub open spec fn ranges_hold(rs: Seq<RangeConstraint>, w: Seq<nat>) -> bool {
    forall|c: int| 0 <= c < rs.len() ==> range_holds(#[trigger] rs[c], w)
}

/// `v` fits the type `ty`: any value for `field` and `bool`, and below `2^bits` for an unsigned
/// type.
pub open spec fn fits_type(v: nat, ty: Type) -> bool {
    type_is_uint(ty) ==> crate::field::fits_bits(v, range_bits(ty))
}

/// Every unsigned arithmetic result and every cast to an unsigned type in `e` fits its width.
pub open spec fn expr_fits(e: TypedExpr, env: Map<hir::BindingId, nat>) -> bool
    decreases e,
{
    match e.kind {
        ExprKind::Unary { expr, .. } => expr_fits(*expr, env),
        ExprKind::Binary { lhs, rhs, .. } => expr_fits(*lhs, env) && expr_fits(*rhs, env) && fits_type(expr_value(e, env), e.ty),
        ExprKind::IfElse { condition, then_branch, else_branch } => expr_fits(*condition, env) && expr_fits(*then_branch, env)
            && expr_fits(*else_branch, env),
        ExprKind::BoolNot { expr } => expr_fits(*expr, env),
        ExprKind::BoolAnd { lhs, rhs } => expr_fits(*lhs, env) && expr_fits(*rhs, env),
        ExprKind::BoolOr { lhs, rhs } => expr_fits(*lhs, env) && expr_fits(*rhs, env),
        ExprKind::BoolXor { lhs, rhs } => expr_fits(*lhs, env) && expr_fits(*rhs, env),
        ExprKind::Cast { expr, target } => expr_fits(*expr, env) && fits_type(expr_value(*expr, env), target),
        _ => true,
    }
}

/// Recording that `operand` fits `ty` adds exactly that demand to the range constraints.
proof fn lemma_range_step(old_rs: Seq<RangeConstraint>, new_rs: Seq<RangeConstraint>, operand: Operand, ty: Type, w: Seq<nat>)
    requires
        new_rs == (if range_needed(old_rs, operand, ty) {
            old_rs.push(RangeConstraint { value: operand, ty })
        } else {
            old_rs
        }),
        operand_value(operand, w) is Some,
    ensures
        ranges_hold(new_rs, w) <==> ranges_hold(old_rs, w) && fits_type(operand_value(operand, w)->0, ty),
{
    let rc = RangeConstraint { value: operand, ty };
    if range_needed(old_rs, operand, ty) {
        if ranges_hold(new_rs, w) {
            assert(new_rs[new_rs.len() - 1] == rc);
            assert(range_holds(new_rs[new_rs.len() - 1], w));
            assert forall|c: int| 0 <= c < old_rs.len() implies range_holds(#[trigger] old_rs[c], w) by {
                assert(new_rs[c] == old_rs[c]);
            }
        }
        if ranges_hold(old_rs, w) && fits_type(operand_value(operand, w)->0, ty) {
            assert forall|c: int| 0 <= c < new_rs.len() implies range_holds(#[trigger] new_rs[c], w) by {
                if c < old_rs.len() {
                    assert(new_rs[c] == old_rs[c]);
                }
            }
        }
    } else if type_is_uint(ty) && !(operand matches Operand::Const(v) && crate::field::fits_bits(v@, type_bits(ty)->0 as nat)) {
        let c = choose|c: int| 0 <= c < old_rs.len() && old_rs[c] == rc;
        if ranges_hold(old_rs, w) {
            assert(range_holds(old_rs[c], w));
        }
    }
}

/// A constant operand is a field element.
fn operand_in_field(o: &Operand)
    ensures
        o matches Operand::Const(v) ==> v@ < crate::field::modulus(),
{
    if let Operand::Const(v) = o {
        v.lemma_canonical();
    }
}

/// A table in which a later lowering state holds is one in which an earlier state holds.
proof fn lemma_holds_in_earlier(a: Lowerer, b: Lowerer, w: Seq<nat>)
    requires
        a.next_wire <= b.next_wire,
        a.ir.operations@.len() <= b.ir.operations@.len(),
        forall|k: int| 0 <= k < a.ir.operations@.len() ==> #[trigger] b.ir.operations@[k] == a.ir.operations@[k],
        b.holds_in(w),
    ensures
        a.holds_in(w),
{
    assert forall|k: int| 0 <= k < a.ir.operations@.len() implies #[trigger] a.ir.operations@[k] == b.ir.operations@[k] by {}
}

impl Lowerer {
    /// The post-state relation shared by every lowering step: the shape is kept, nothing but
    /// operations, constraints and range constraints grows, and the wire counter only rises.
    spec fn step(&self, old: &Lowerer) -> bool {
        &&& self.shaped()
        &&& self.extends(old)
    }

    fn add_operands(&mut self, lhs: Operand, rhs: Operand) -> (r: CompileResult<Operand>)
        requires
            old(self).shaped(),
            wire_below(lhs, old(self).next_wire as nat),
            wire_below(rhs, old(self).next_wire as nat),
        ensures
            final(self).step(old(self)),
            final(self).ir.constraints@ == old(self).ir.constraints@,
            final(self).ir.range_constraints@ == old(self).ir.range_constraints@,
            r matches Ok(o) ==> wire_below(o, final(self).next_wire as nat),
            r matches Ok(o) ==> forall|w: Seq<nat>| #[trigger] final(self).holds_in(w) ==> operand_value(o, w) == Some(
                field_add(operand_value(lhs, w)->0, operand_value(rhs, w)->0),
            ),
            r matches Err(e) ==> e.message@ == wire_limit_message(),
            final(self).next_wire <= old(self).next_wire + 1,
            r is Err ==> final(self).next_wire == usize::MAX,
    {
        match (lhs, rhs) {
            (Operand::Const(a), Operand::Const(b)) => Ok(Operand::Const(a.add(b))),
            (lhs, rhs) => {
                let r = self.emit(OpKind::Add(lhs, rhs));
                proof {
                    if r is Ok {
                        let ops = self.ir.operations@;
                        assert forall|w: Seq<nat>| #[trigger] self.holds_in(w) implies operand_value(r->Ok_0, w) == Some(
                            field_add(operand_value(lhs, w)->0, operand_value(rhs, w)->0),
                        ) by {
                            assert(ops[ops.len() - 1] == Operation { out: old(self).next_wire, kind: OpKind::Add(lhs, rhs) });
                        }
                    }
                }
                r
            },
        }
    }

    fn sub_operands(&mut self, lhs: Operand, rhs: Operand) -> (r: CompileResult<Operand>)
        requires
            old(self).shaped(),
            wire_below(lhs, old(self).next_wire as nat),
            wire_below(rhs, old(self).next_wire as nat),
        ensures
            final(self).step(old(self)),
            final(self).ir.constraints@ == old(self).ir.constraints@,
            final(self).ir.range_constraints@ == old(self).ir.range_constraints@,
            r matches Ok(o) ==> wire_below(o, final(self).next_wire as nat),
            r matches Ok(o) ==> forall|w: Seq<nat>| #[trigger] final(self).holds_in(w) ==> operand_value(o, w) == Some(
                field_sub(operand_value(lhs, w)->0, operand_value(rhs, w)->0),
            ),
            r matches Err(e) ==> e.message@ == wire_limit_message(),
            final(self).next_wire <= old(self).next_wire + 1,
            r is Err ==> final(self).next_wire == usize::MAX,
    {
        match (lhs, rhs) {
            (Operand::Const(a), Operand::Const(b)) => Ok(Operand::Const(a.sub(b))),
            (lhs, rhs) => {
                let r = self.emit(OpKind::Sub(lhs, rhs));
                proof {
                    if r is Ok {
                        let ops = self.ir.operations@;
                        assert forall|w: Seq<nat>| #[trigger] self.holds_in(w) implies operand_value(r->Ok_0, w) == Some(
                            field_sub(operand_value(lhs, w)->0, operand_value(rhs, w)->0),
                        ) by {
                            assert(ops[ops.len() - 1] == Operation { out: old(self).next_wire, kind: OpKind::Sub(lhs, rhs) });
                        }
                    }
                }
                r
            },
        }
    }

    fn mul_operands(&mut self, lhs: Operand, rhs: Operand) -> (r: CompileResult<Operand>)
        requires
            old(self).shaped(),
            wire_below(lhs, old(self).next_wire as nat),
            wire_below(rhs, old(self).next_wire as nat),
        ensures
            final(self).step(old(self)),
            final(self).ir.constraints@ == old(self).ir.constraints@,
            final(self).ir.range_constraints@ == old(self).ir.range_constraints@,
            r matches Ok(o) ==> wire_below(o, final(self).next_wire as nat),
            r matches Ok(o) ==> forall|w: Seq<nat>| #[trigger] final(self).holds_in(w) ==> operand_value(o, w) == Some(
                field_mul(operand_value(lhs, w)->0, operand_value(rhs, w)->0),
            ),
            r matches Err(e) ==> e.message@ == wire_limit_message(),
            final(self).next_wire <= old(self).next_wire + 1,
            r is Err ==> final(self).next_wire == usize::MAX,
    {
        match (lhs, rhs) {
            (Operand::Const(a), Operand::Const(b)) => Ok(Operand::Const(a.mul(b))),
            (lhs, rhs) => {
                let r = self.emit(OpKind::Mul(lhs, rhs));
                proof {
                    if r is Ok {
                        let ops = self.ir.operations@;
                        assert forall|w: Seq<nat>| #[trigger] self.holds_in(w) implies operand_value(r->Ok_0, w) == Some(
                            field_mul(operand_value(lhs, w)->0, operand_value(rhs, w)->0),
                        ) by {
                            assert(ops[ops.len() - 1] == Operation { out: old(self).next_wire, kind: OpKind::Mul(lhs, rhs) });
                        }
                    }
                }
                r
            },
        }
    }

    /// `else + condition * (then - else)`, or a branch directly when the condition is a known
    /// constant 0 or 1.
    fn select_operands(&mut self, condition: Operand, then_branch: Operand, else_branch: Operand) -> (r:
        CompileResult<Operand>)
        requires
            old(self).shaped(),
            wire_below(condition, old(self).next_wire as nat),
            wire_below(then_branch, old(self).next_wire as nat),
            wire_below(else_branch, old(self).next_wire as nat),
        ensures
            final(self).step(old(self)),
            final(self).ir.constraints@ == old(self).ir.constraints@,
            final(self).ir.range_constraints@ == old(self).ir.range_constraints@,
            r matches Ok(o) ==> wire_below(o, final(self).next_wire as nat),
            r matches Ok(o) ==> forall|w: Seq<nat>| #[trigger] final(self).holds_in(w) ==> operand_value(o, w) == Some(
                select_value(operand_value(condition, w)->0, operand_value(then_branch, w)->0, operand_value(else_branch, w)->0),
            ),
            r matches Err(e) ==> e.message@ == wire_limit_message(),
            final(self).next_wire <= old(self).next_wire + 3,
            r is Err ==> final(self).next_wire == usize::MAX,
    {
        operand_in_field(&then_branch);
        operand_in_field(&else_branch);
        match condition {
            Operand::Const(value) => {
                if value.is_zero() {
                    proof {
                        assert forall|w: Seq<nat>| #[trigger] self.holds_in(w) implies operand_value(else_branch, w) == Some(
                            select_value(0, operand_value(then_branch, w)->0, operand_value(else_branch, w)->0),
                        ) by {
                            crate::hir::lemma_boolean_combinations(0, operand_value(then_branch, w)->0, operand_value(else_branch, w)->0, 0, 0);
                        }
                    }
                    return Ok(else_branch);
                }
                if value.is_one() {
                    proof {
                        assert forall|w: Seq<nat>| #[trigger] self.holds_in(w) implies operand_value(then_branch, w) == Some(
                            select_value(1, operand_value(then_branch, w)->0, operand_value(else_branch, w)->0),
                        ) by {
                            crate::hir::lemma_boolean_combinations(1, operand_value(then_branch, w)->0, operand_value(else_branch, w)->0, 0, 0);
                        }
                    }
                    return Ok(then_branch);
                }
            },
            Operand::Wire(_) => {},
        }
        let ghost s0 = *self;
        let delta = self.sub_operands(then_branch, else_branch)?;
        let ghost s1 = *self;
        let scaled = self.mul_operands(condition, delta)?;
        let ghost s2 = *self;
        let r = self.add_operands(else_branch, scaled);
        proof {
            if r is Ok {
                assert forall|w: Seq<nat>| #[trigger] self.holds_in(w) implies operand_value(r->Ok_0, w) == Some(
                    select_value(operand_value(condition, w)->0, operand_value(then_branch, w)->0, operand_value(else_branch, w)->0),
                ) by {
                    lemma_holds_in_earlier(s2, *self, w);
                    lemma_holds_in_earlier(s1, s2, w);
                    assert(s1.holds_in(w));
                    assert(s2.holds_in(w));
                }
            }
        }
        r
    }

    /// Constrains a boolean input wire to 0 or 1: `w * (w - 1) == 0`.
    fn enforce_boolean(&mut self, wire: WireId) -> (r: CompileResult<()>)
        requires
            old(self).shaped(),
            wire < old(self).next_wire,
        ensures
            final(self).step(old(self)),
            final(self).ir.range_constraints@ == old(self).ir.range_constraints@,
            r is Ok ==> forall|w: Seq<nat>| #[trigger] final(self).holds_in(w) ==> (constraints_hold(final(self).ir.constraints@, w)
                <==> constraints_hold(old(self).ir.constraints@, w) && field_mul(w[wire as int], field_sub(w[wire as int], 1)) == 0),
            r matches Err(e) ==> e.message@ == wire_limit_message(),
            final(self).next_wire <= old(self).next_wire + 2,
            r is Err ==> final(self).next_wire == usize::MAX,
    {
        let operand = Operand::Wire(wire);
        let one = Operand::Const(FieldElement::one());
        let ghost s0 = *self;
        let shifted = self.sub_operands(operand, one)?;
        let ghost s1 = *self;
        let product = self.mul_operands(operand, shifted)?;
        let ghost s2 = *self;
        let zero = FieldElement::zero();
        self.ir.constraints.push(Constraint { lhs: product, rhs: Operand::Const(zero) });
        proof {
            let cs = self.ir.constraints@;
            assert forall|w: Seq<nat>| #[trigger] self.holds_in(w) implies (constraints_hold(cs, w)
                <==> constraints_hold(old(self).ir.constraints@, w) && field_mul(w[wire as int], field_sub(w[wire as int], 1)) == 0) by {
                assert(s2.holds_in(w));
                lemma_holds_in_earlier(s1, s2, w);
                assert(s1.holds_in(w));
                let last = Constraint { lhs: product, rhs: Operand::Const(zero) };
                assert(cs == old(self).ir.constraints@.push(last));
                assert(constraint_holds(last, w) <==> field_mul(w[wire as int], field_sub(w[wire as int], 1)) == 0);
                if constraints_hold(cs, w) {
                    assert(constraint_holds(cs[cs.len() - 1], w));
                    assert forall|c: int| 0 <= c < old(self).ir.constraints@.len() implies constraint_holds(
                        #[trigger] old(self).ir.constraints@[c],
                        w,
                    ) by {
                        assert(cs[c] == old(self).ir.constraints@[c]);
                    }
                }
                if constraints_hold(old(self).ir.constraints@, w) && constraint_holds(last, w) {
                    assert forall|c: int| 0 <= c < cs.len() implies constraint_holds(#[trigger] cs[c], w) by {
                        if c < cs.len() - 1 {
                            assert(cs[c] == old(self).ir.constraints@[c]);
                        }
                    }
                }
            }
        }
        proof {
            let cs = self.ir.constraints@;
            assert forall|c: int| 0 <= c < cs.len() implies wire_below(#[trigger] cs[c].lhs, self.next_wire as nat)
                && wire_below(cs[c].rhs, self.next_wire as nat) by {
                if c < cs.len() - 1 {
                    assert(cs[c] == old(self).ir.constraints@[c]);
                }
            }
        }
        Ok(())
    }

    /// Records that `operand` must fit in the unsigned type `ty`, unless it is a constant that
    /// visibly fits or the same range constraint is already recorded.
    fn enforce_range(&mut self, operand: Operand, ty: Type)
        requires
            old(self).shaped(),
            wire_below(operand, old(self).next_wire as nat),
        ensures
            final(self).step(old(self)),
            final(self).next_wire == old(self).next_wire,
            final(self).ir.operations@ == old(self).ir.operations@,
            final(self).ir.constraints@ == old(self).ir.constraints@,
            final(self).ir.range_constraints@ == (if range_needed(old(self).ir.range_constraints@, operand, ty) {
                old(self).ir.range_constraints@.push(RangeConstraint { value: operand, ty })
            } else {
                old(self).ir.range_constraints@
            }),
    {
        if !ty.is_uint() {
            return;
        }
        if let Operand::Const(value) = operand {
            let bits = match ty.uint_bits() {
                Some(b) => b,
                None => 0,
            };
            if value.fits_in_bits(bits) {
                return;
            }
        }
        let constraint = RangeConstraint { value: operand, ty };
        let mut present = false;
        let mut i: usize = 0;
        while i < self.ir.range_constraints.len()
            invariant
                i <= self.ir.range_constraints@.len(),
                self.ir.range_constraints@ == old(self).ir.range_constraints@,
                present <==> exists|k: int| 0 <= k < i && self.ir.range_constraints@[k] == constraint,
            decreases self.ir.range_constraints.len() - i,
        {
            if self.ir.range_constraints[i] == constraint {
                present = true;
            }
            i = i + 1;
        }
        if !present {
            self.ir.range_constraints.push(constraint);
            proof {
                let rs = self.ir.range_constraints@;
                assert forall|c: int| 0 <= c < rs.len() implies wire_below(#[trigger] rs[c].value, self.next_wire as nat) by {
                    if c < rs.len() - 1 {
                        assert(rs[c] == old(self).ir.range_constraints@[c]);
                    }
                }
            }
        }
    }

    #[verifier::spinoff_prover]
    #[verifier::rlimit(100)]
    fn lower_expr(&mut self, expr: &TypedExpr) -> (r: CompileResult<Operand>)
        requires
            old(self).shaped(),
            refs_within(*expr, old(self).symbols@.dom()),
        ensures
            final(self).step(old(self)),
            final(self).ir.constraints@ == old(self).ir.constraints@,
            r matches Ok(o) ==> wire_below(o, final(self).next_wire as nat),
            r matches Ok(o) ==> forall|w: Seq<nat>| #[trigger] final(self).holds_in(w) ==> operand_value(o, w) == Some(
                expr_value(*expr, symbol_env(old(self).symbols@, w)),
            ),
            r matches Ok(o) ==> forall|w: Seq<nat>| #[trigger] final(self).holds_in(w) ==> (ranges_hold(final(self).ir.range_constraints@, w)
                <==> ranges_hold(old(self).ir.range_constraints@, w) && expr_fits(*expr, symbol_env(old(self).symbols@, w))),
            r matches Err(e) ==> e.message@ == wire_limit_message(),
            final(self).next_wire <= old(self).next_wire + expr_ops(*expr),
            r is Err ==> final(self).next_wire == usize::MAX,
        decreases expr,
    {
        let ghost s0 = *self;
        match &expr.kind {
            ExprKind::Constant(value) => Ok(Operand::Const(FieldElement::from_i128(*value))),
            ExprKind::BoolConstant(value) => Ok(
                Operand::Const(
                    if *value {
                        FieldElement::one()
                    } else {
                        FieldElement::zero()
                    },
                ),
            ),
            ExprKind::Reference(binding) => {
                match self.symbols.get(&binding.id) {
                    Some(operand) => {
                        proof {
                            assert forall|w: Seq<nat>| #[trigger] self.holds_in(w) implies operand_value(*operand, w) == Some(expr_value(*expr, symbol_env(s0.symbols@, w))) && (ranges_hold(self.ir.range_constraints@, w) <==> ranges_hold(s0.ir.range_constraints@, w) && expr_fits(*expr, symbol_env(s0.symbols@, w))) by {
                                assert(wire_below(*operand, self.next_wire as nat));
                            }
                        }
                        Ok(*operand)
                    },
                    None => {
                        assert(false);
                        Err(Lowerer::limit_error())
                    },
                }
            },
            ExprKind::Unary { op, expr: inner } => {
                let value = self.lower_expr(inner)?;
                let ghost s1 = *self;
                match op {
                    UnaryOp::Neg => {
                        let r = self.sub_operands(Operand::Const(FieldElement::zero()), value);
                        proof {
                            if r is Ok {
                                assert forall|w: Seq<nat>| #[trigger] self.holds_in(w) implies operand_value(r->Ok_0, w) == Some(expr_value(*expr, symbol_env(s0.symbols@, w))) && (ranges_hold(self.ir.range_constraints@, w) <==> ranges_hold(s0.ir.range_constraints@, w) && expr_fits(*expr, symbol_env(s0.symbols@, w))) by {
                                    lemma_holds_in_earlier(s1, *self, w);
                                    assert(s1.holds_in(w));
                                    assert(0 - operand_value(value, w)->0 == -(operand_value(value, w)->0 as int));
                                }
                            }
                        }
                        r
                    },
                }
            },
            ExprKind::Binary { op, lhs, rhs } => {
                let l = self.lower_expr(lhs)?;
                let ghost s1 = *self;
                let r = self.lower_expr(rhs)?;
                let ghost s2 = *self;
                let value = match op {
                    BinaryOp::Add => self.add_operands(l, r)?,
                    BinaryOp::Sub => self.sub_operands(l, r)?,
                    BinaryOp::Mul => self.mul_operands(l, r)?,
                };
                let ghost s3 = *self;
                if expr.ty.is_uint() {
                    self.enforce_range(value, expr.ty);
                }
                proof {
                    assert forall|w: Seq<nat>| #[trigger] self.holds_in(w) implies operand_value(value, w) == Some(expr_value(*expr, symbol_env(s0.symbols@, w))) && (ranges_hold(self.ir.range_constraints@, w) <==> ranges_hold(s0.ir.range_constraints@, w) && expr_fits(*expr, symbol_env(s0.symbols@, w))) by {
                        lemma_holds_in_earlier(s3, *self, w);
                        lemma_holds_in_earlier(s2, s3, w);
                        lemma_holds_in_earlier(s1, s2, w);
                        assert(s1.holds_in(w));
                        assert(s2.holds_in(w));
                        assert(s3.holds_in(w));
                        if type_is_uint(expr.ty) {
                            lemma_range_step(s3.ir.range_constraints@, self.ir.range_constraints@, value, expr.ty, w);
                        }
                    }
                }
                Ok(value)
            },
            ExprKind::IfElse { condition, then_branch, else_branch } => {
                let c = self.lower_expr(condition)?;
                let ghost s1 = *self;
                let t = self.lower_expr(then_branch)?;
                let ghost s2 = *self;
                let e = self.lower_expr(else_branch)?;
                let ghost s3 = *self;
                let r = self.select_operands(c, t, e);
                proof {
                    if r is Ok {
                        assert forall|w: Seq<nat>| #[trigger] self.holds_in(w) implies operand_value(r->Ok_0, w) == Some(expr_value(*expr, symbol_env(s0.symbols@, w))) && (ranges_hold(self.ir.range_constraints@, w) <==> ranges_hold(s0.ir.range_constraints@, w) && expr_fits(*expr, symbol_env(s0.symbols@, w))) by {
                            lemma_holds_in_earlier(s3, *self, w);
                            lemma_holds_in_earlier(s2, s3, w);
                            lemma_holds_in_earlier(s1, s2, w);
                            assert(s1.holds_in(w));
                            assert(s2.holds_in(w));
                            assert(s3.holds_in(w));
                        }
                    }
                }
                r
            },
            ExprKind::BoolNot { expr: inner } => {
                let value = self.lower_expr(inner)?;
                let ghost s1 = *self;
                let r = self.sub_operands(Operand::Const(FieldElement::one()), value);
                proof {
                    if r is Ok {
                        assert forall|w: Seq<nat>| #[trigger] self.holds_in(w) implies operand_value(r->Ok_0, w) == Some(expr_value(*expr, symbol_env(s0.symbols@, w))) && (ranges_hold(self.ir.range_constraints@, w) <==> ranges_hold(s0.ir.range_constraints@, w) && expr_fits(*expr, symbol_env(s0.symbols@, w))) by {
                            lemma_holds_in_earlier(s1, *self, w);
                            assert(s1.holds_in(w));
                        }
                    }
                }
                r
            },
            ExprKind::BoolAnd { lhs, rhs } => {
                let l = self.lower_expr(lhs)?;
                let ghost s1 = *self;
                let r = self.lower_expr(rhs)?;
                let ghost s2 = *self;
                let out = self.mul_operands(l, r);
                proof {
                    if out is Ok {
                        assert forall|w: Seq<nat>| #[trigger] self.holds_in(w) implies operand_value(out->Ok_0, w) == Some(expr_value(*expr, symbol_env(s0.symbols@, w))) && (ranges_hold(self.ir.range_constraints@, w) <==> ranges_hold(s0.ir.range_constraints@, w) && expr_fits(*expr, symbol_env(s0.symbols@, w))) by {
                            lemma_holds_in_earlier(s2, *self, w);
                            lemma_holds_in_earlier(s1, s2, w);
                            assert(s1.holds_in(w));
                            assert(s2.holds_in(w));
                        }
                    }
                }
                out
            },
            ExprKind::BoolOr { lhs, rhs } => {
                let l = self.lower_expr(lhs)?;
                let ghost s1 = *self;
                let r = self.lower_expr(rhs)?;
                let ghost s2 = *self;
                let sum = self.add_operands(l, r)?;
                let ghost s3 = *self;
                let overlap = self.mul_operands(l, r)?;
                let ghost s4 = *self;
                let out = self.sub_operands(sum, overlap);
                proof {
                    if out is Ok {
                        assert forall|w: Seq<nat>| #[trigger] self.holds_in(w) implies operand_value(out->Ok_0, w) == Some(expr_value(*expr, symbol_env(s0.symbols@, w))) && (ranges_hold(self.ir.range_constraints@, w) <==> ranges_hold(s0.ir.range_constraints@, w) && expr_fits(*expr, symbol_env(s0.symbols@, w))) by {
                            lemma_holds_in_earlier(s4, *self, w);
                            lemma_holds_in_earlier(s3, s4, w);
                            lemma_holds_in_earlier(s2, s3, w);
                            lemma_holds_in_earlier(s1, s2, w);
                            assert(s1.holds_in(w));
                            assert(s2.holds_in(w));
                            assert(s3.holds_in(w));
                            assert(s4.holds_in(w));
                        }
                    }
                }
                out
            },
            ExprKind::BoolXor { lhs, rhs } => {
                let l = self.lower_expr(lhs)?;
                let ghost s1 = *self;
                let r = self.lower_expr(rhs)?;
                let ghost s2 = *self;
                let sum = self.add_operands(l, r)?;
                let ghost s3 = *self;
                let overlap = self.mul_operands(l, r)?;
                let ghost s4 = *self;
                let doubled = self.add_operands(overlap, overlap)?;
                let ghost s5 = *self;
                let out = self.sub_operands(sum, doubled);
                proof {
                    if out is Ok {
                        assert forall|w: Seq<nat>| #[trigger] self.holds_in(w) implies operand_value(out->Ok_0, w) == Some(expr_value(*expr, symbol_env(s0.symbols@, w))) && (ranges_hold(self.ir.range_constraints@, w) <==> ranges_hold(s0.ir.range_constraints@, w) && expr_fits(*expr, symbol_env(s0.symbols@, w))) by {
                            lemma_holds_in_earlier(s5, *self, w);
                            lemma_holds_in_earlier(s4, s5, w);
                            lemma_holds_in_earlier(s3, s4, w);
                            lemma_holds_in_earlier(s2, s3, w);
                            lemma_holds_in_earlier(s1, s2, w);
                            assert(s1.holds_in(w));
                            assert(s2.holds_in(w));
                            assert(s3.holds_in(w));
                            assert(s4.holds_in(w));
                            assert(s5.holds_in(w));
                        }
                    }
                }
                out
            },
            ExprKind::Cast { expr: inner, target } => {
                let value = self.lower_expr(inner)?;
                let ghost s1 = *self;
                if target.is_uint() {
                    self.enforce_range(value, *target);
                }
                proof {
                    assert forall|w: Seq<nat>| #[trigger] self.holds_in(w) implies operand_value(value, w) == Some(expr_value(*expr, symbol_env(s0.symbols@, w))) && (ranges_hold(self.ir.range_constraints@, w) <==> ranges_hold(s0.ir.range_constraints@, w) && expr_fits(*expr, symbol_env(s0.symbols@, w))) by {
                        lemma_holds_in_earlier(s1, *self, w);
                        assert(s1.holds_in(w));
                        if type_is_uint(*target) {
                            lemma_range_step(s1.ir.range_constraints@, self.ir.range_constraints@, value, *target, w);
                        }
                    }
                }
                Ok(value)
            },
        }
    }
}

impl Lowerer {
    fn bind(&mut self, binding_id: hir::BindingId, value: Operand)
        requires
            old(self).shaped(),
            wire_below(value, old(self).next_wire as nat),
        ensures
            final(self).shaped(),
            final(self).symbols@ == old(self).symbols@.insert(binding_id, value),
            final(self).ir == old(self).ir,
            final(self).next_wire == old(self).next_wire,
            final(self).output_counter == old(self).output_counter,
    {
        self.symbols.insert(binding_id, value);
    }

    fn lower_input(&mut self, input: &hir::InputDecl) -> (r: CompileResult<()>)
        requires
            old(self).shaped(),
        ensures
            final(self).shaped(),
            r is Ok ==> final(self).symbols@.dom() == old(self).symbols@.dom().insert(
                input.binding.id,
            ),
            r is Ok ==> final(self).symbols@ == old(self).symbols@.insert(input.binding.id, Operand::Wire(old(self).next_wire)),
            final(self).ir.name@ == old(self).ir.name@,
            final(self).output_counter == old(self).output_counter,
            final(self).ir.outputs@ == old(self).ir.outputs@,
            r is Ok ==> final(self).next_wire > old(self).next_wire,
            old(self).ir.operations@.len() <= final(self).ir.operations@.len(),
            forall|k: int| 0 <= k < old(self).ir.operations@.len() ==> #[trigger] final(self).ir.operations@[k] == old(self).ir.operations@[k],
            r is Ok ==> input.visibility == Visibility::Public ==> {
                &&& final(self).ir.public_inputs@.len() == old(self).ir.public_inputs@.len() + 1
                &&& final(self).ir.public_inputs@.drop_last() == old(self).ir.public_inputs@
                &&& final(self).ir.public_inputs@.last().wire == old(self).next_wire
                &&& final(self).ir.public_inputs@.last().name@ == input.binding.name@
                &&& final(self).ir.private_inputs@ == old(self).ir.private_inputs@
            },
            r is Ok ==> input.visibility == Visibility::Private ==> {
                &&& final(self).ir.private_inputs@.len() == old(self).ir.private_inputs@.len() + 1
                &&& final(self).ir.private_inputs@.drop_last() == old(self).ir.private_inputs@
                &&& final(self).ir.private_inputs@.last().wire == old(self).next_wire
                &&& final(self).ir.private_inputs@.last().name@ == input.binding.name@
                &&& final(self).ir.public_inputs@ == old(self).ir.public_inputs@
            },
            r is Ok ==> forall|w: Seq<nat>| #[trigger] final(self).holds_in(w) ==> (constraints_hold(final(self).ir.constraints@, w)
                <==> constraints_hold(old(self).ir.constraints@, w) && (input.binding.ty == Type::Bool ==> field_mul(
                w[old(self).next_wire as int],
                field_sub(w[old(self).next_wire as int], 1),
            ) == 0)),
            r is Ok ==> forall|w: Seq<nat>| #[trigger] final(self).holds_in(w) ==> (ranges_hold(final(self).ir.range_constraints@, w)
                <==> ranges_hold(old(self).ir.range_constraints@, w) && fits_type(w[old(self).next_wire as int], input.binding.ty)),
            r matches Err(e) ==> e.message@ == wire_limit_message(),
            final(self).next_wire <= old(self).next_wire + 3,
            r is Err ==> final(self).next_wire == usize::MAX,
    {
        if self.next_wire == usize::MAX {
            return Err(Lowerer::limit_error());
        }
        let wire = self.next_wire;
        self.next_wire = wire + 1;
        let named_input = NamedInput {
            binding: input.binding.id,
            name: input.binding.name.clone(),
            ty: input.binding.ty,
            wire,
        };
        match input.visibility {
            Visibility::Public => {
                self.ir.public_inputs.push(named_input);
                proof {
                    let ps = self.ir.public_inputs@;
                    assert forall|i: int| 0 <= i < ps.len() implies #[trigger] ps[i].wire < self.next_wire by {
                        if i < ps.len() - 1 {
                            assert(ps[i] == old(self).ir.public_inputs@[i]);
                        }
                    }
                }
            },
            Visibility::Private => {
                self.ir.private_inputs.push(named_input);
                proof {
                    let ps = self.ir.private_inputs@;
                    assert forall|i: int| 0 <= i < ps.len() implies #[trigger] ps[i].wire < self.next_wire by {
                        if i < ps.len() - 1 {
                            assert(ps[i] == old(self).ir.private_inputs@[i]);
                        }
                    }
                }
            },
        }
        let operand = Operand::Wire(wire);
        let ghost s_a = *self;
        if input.binding.ty == Type::Bool {
            self.enforce_boolean(wire)?;
        } else if input.binding.ty.is_uint() {
            self.enforce_range(operand, input.binding.ty);
        }
        let ghost s_b = *self;
        self.bind(input.binding.id, operand);
        proof {
            assert forall|w: Seq<nat>| #[trigger] self.holds_in(w) implies (constraints_hold(self.ir.constraints@, w)
                <==> constraints_hold(old(self).ir.constraints@, w) && (input.binding.ty == Type::Bool ==> field_mul(
                w[old(self).next_wire as int],
                field_sub(w[old(self).next_wire as int], 1),
            ) == 0)) by {
                assert(s_b.holds_in(w));
                assert(s_a.ir.constraints@ == old(self).ir.constraints@);
            }
            assert forall|w: Seq<nat>| #[trigger] self.holds_in(w) implies (ranges_hold(self.ir.range_constraints@, w)
                <==> ranges_hold(old(self).ir.range_constraints@, w) && fits_type(w[old(self).next_wire as int], input.binding.ty)) by {
                assert(s_b.holds_in(w));
                if type_is_uint(input.binding.ty) {
                    assert(operand_value(operand, w) == Some(w[old(self).next_wire as int]));
                    lemma_range_step(s_a.ir.range_constraints@, s_b.ir.range_constraints@, operand, input.binding.ty, w);
                }
            }
            assert(self.ir.public_inputs@.drop_last() =~= old(self).ir.public_inputs@ || input.visibility == Visibility::Private);
            assert(self.ir.private_inputs@.drop_last() =~= old(self).ir.private_inputs@ || input.visibility == Visibility::Public);
        }
        Ok(())
    }

    /// The name of an output exposed without `as`: the identifier itself, or `out<n>` with a
    /// counter for any other expression.
    fn default_output_label(&mut self, expr: &TypedExpr) -> (r: CompileResult<String>)
        ensures
            final(self).ir == old(self).ir,
            final(self).symbols@ == old(self).symbols@,
            final(self).next_wire == old(self).next_wire,
            r matches Ok(label) ==> label@ == default_label(*expr, old(self).output_counter as nat),
            r matches Ok(_) ==> final(self).output_counter == old(self).output_counter + (
            if expr.kind is Reference {
                0int
            } else {
                1int
            }),
            r matches Err(e) ==> e.message@ == wire_limit_message(),
            r is Err ==> old(self).output_counter == usize::MAX,
    {
        if let ExprKind::Reference(binding) = &expr.kind {
            return Ok(binding.name.clone());
        }
        if self.output_counter == usize::MAX {
            return Err(Lowerer::limit_error());
        }
        let mut label = to_owned("out");
        push_decimal(&mut label, self.output_counter as u128);
        proof {
            reveal_strlit("out");
        }
        self.output_counter = self.output_counter + 1;
        Ok(label)
    }
}

/// The label of an output exposed without `as`.
pub open spec fn default_label(expr: TypedExpr, counter: nat) -> Seq<char> {
    match expr.kind {
        ExprKind::Reference(binding) => binding.name@,
        _ => "out"@ + crate::text::decimal(counter),
    }
}

/// How many of the first `k` items declare an input of visibility `vis`.
pub open spec fn inputs_before(items: Seq<hir::Item>, k: nat, vis: Visibility) -> nat
    decreases k,
{
    if k == 0 {
        0
    } else {
        inputs_before(items, (k - 1) as nat, vis) + if (items[k - 1] matches hir::Item::Input(d) && d.visibility == vis) {
            1nat
        } else {
            0nat
        }
    }
}

/// The wire that `ir` gives the input declared by item `k`: its entry among the inputs of its
/// visibility, counted in declaration order.
pub open spec fn input_wire(ir: CircuitIr, items: Seq<hir::Item>, k: nat) -> int {
    match items[k as int] {
        hir::Item::Input(d) => if d.visibility == Visibility::Public {
            ir.public_inputs@[inputs_before(items, k, Visibility::Public) as int].wire as int
        } else {
            ir.private_inputs@[inputs_before(items, k, Visibility::Private) as int].wire as int
        },
        _ => 0,
    }
}

/// The value each input item reads from the wire table `w`.
pub open spec fn wire_reader(ir: CircuitIr, items: Seq<hir::Item>, w: Seq<nat>) -> spec_fn(nat) -> nat {
    |k: nat| w[input_wire(ir, items, k)]
}

/// The value of each binding after the first `n` items, when item `k` declaring an input gives
/// it the value `values(k)`: inputs take their values and `let` bindings the value of their
/// expression.
pub open spec fn program_env(items: Seq<hir::Item>, n: nat, values: spec_fn(nat) -> nat) -> Map<hir::BindingId, nat>
    decreases n,
{
    if n == 0 {
        Map::empty()
    } else {
        let env = program_env(items, (n - 1) as nat, values);
        match items[n - 1] {
            hir::Item::Input(d) => env.insert(d.binding.id, values((n - 1) as nat)),
            hir::Item::Statement(hir::Statement::Let(stmt)) => env.insert(stmt.binding.id, expr_value(stmt.expr, env)),
            _ => env,
        }
    }
}

/// The positions of the `expose` statements among the first `n` items.
pub open spec fn exposed_items(items: Seq<hir::Item>, n: nat) -> Seq<nat>
    decreases n,
{
    if n == 0 {
        Seq::empty()
    } else if items[n - 1] is Statement && items[n - 1]->Statement_0 is Expose {
        exposed_items(items, (n - 1) as nat).push((n - 1) as nat)
    } else {
        exposed_items(items, (n - 1) as nat)
    }
}

/// How many of the first `n` items expose an expression other than a plain name without `as`.
pub open spec fn unnamed_before(items: Seq<hir::Item>, n: nat) -> nat
    decreases n,
{
    if n == 0 {
        0
    } else {
        unnamed_before(items, (n - 1) as nat) + match items[n - 1] {
            hir::Item::Statement(hir::Statement::Expose(stmt)) => if stmt.label is None && !(stmt.expr.kind is Reference) {
                1nat
            } else {
                0nat
            },
            _ => 0nat,
        }
    }
}

/// The name of the output exposed by item `k`: its `as` label, or the default label.
pub open spec fn output_label(items: Seq<hir::Item>, k: nat) -> Seq<char> {
    match items[k as int] {
        hir::Item::Statement(hir::Statement::Expose(stmt)) => match stmt.label {
            Some(label) => label@,
            None => default_label(stmt.expr, unnamed_before(items, k)),
        },
        _ => Seq::empty(),
    }
}

/// The value exposed by item `k`.
pub open spec fn exposed_value(items: Seq<hir::Item>, k: nat, values: spec_fn(nat) -> nat) -> nat {
    match items[k as int] {
        hir::Item::Statement(hir::Statement::Expose(stmt)) => expr_value(stmt.expr, program_env(items, k, values)),
        _ => 0,
    }
}

/// What item `k` demands of the values: both sides of a `constrain` are equal, a `bool` input
/// satisfies `x * (x - 1) = 0`, an unsigned input or `let` value fits its width, and so does
/// every unsigned arithmetic result and cast in the item's expressions.
pub open spec fn item_holds(items: Seq<hir::Item>, k: nat, values: spec_fn(nat) -> nat) -> bool {
    let env = program_env(items, k, values);
    match items[k as int] {
        hir::Item::Input(d) => (d.binding.ty == Type::Bool ==> field_mul(values(k), field_sub(values(k), 1)) == 0) && fits_type(
            values(k),
            d.binding.ty,
        ),
        hir::Item::Statement(hir::Statement::Let(stmt)) => expr_fits(stmt.expr, env) && fits_type(expr_value(stmt.expr, env), stmt.binding.ty),
        hir::Item::Statement(hir::Statement::Constrain(stmt)) => expr_value(stmt.lhs, env) == expr_value(stmt.rhs, env) && expr_fits(
            stmt.lhs,
            env,
        ) && expr_fits(stmt.rhs, env),
        hir::Item::Statement(hir::Statement::Expose(stmt)) => expr_fits(stmt.expr, env),
        _ => true,
    }
}

/// Every constraint and every range constraint of `ir` holds in the wire table `w`.
pub open spec fn checks_hold(ir: CircuitIr, w: Seq<nat>) -> bool {
    constraints_hold(ir.constraints@, w) && ranges_hold(ir.range_constraints@, w)
}

/// A wire table of field elements covering the first `next` wires, in which every operation of
/// `ir` holds.
pub open spec fn table_holds(ir: CircuitIr, next: nat, w: Seq<nat>) -> bool {
    &&& w.len() >= next
    &&& wires_canonical(w)
    &&& ops_hold(ir.operations@, w)
}

/// A wire table of field elements covering `ir`'s wires, in which every operation holds.
pub open spec fn lowered_table(ir: CircuitIr, w: Seq<nat>) -> bool {
    table_holds(ir, ir.next_wire as nat, w)
}

/// The first `i` items are lowered into `ir`, whose wires below `next` are allocated: its outputs
/// are the exposed items, named and valued as they expose, and its constraints hold exactly when
/// the items demand holds.
pub open spec fn progress_at(items: Seq<hir::Item>, i: nat, ir: CircuitIr, next: nat) -> bool {
    &&& ir.outputs@.len() == exposed_items(items, i).len()
    &&& forall|o: int| 0 <= o < ir.outputs@.len() ==> (#[trigger] ir.outputs@[o]).name@ == output_label(items, exposed_items(items, i)[o])
    &&& forall|w: Seq<nat>| #[trigger] table_holds(ir, next, w) ==> {
        &&& forall|o: int| 0 <= o < ir.outputs@.len() ==> operand_value((#[trigger] ir.outputs@[o]).value, w) == Some(
            exposed_value(items, exposed_items(items, i)[o], wire_reader(ir, items, w)),
        )
        &&& checks_hold(ir, w) <==> forall|k: nat| k < i ==> #[trigger] item_holds(
            items,
            k,
            wire_reader(ir, items, w),
        )
    }
}

/// The program with items `items` is lowered into `ir`.
pub open spec fn lowered_program(items: Seq<hir::Item>, ir: CircuitIr) -> bool {
    progress_at(items, items.len(), ir, ir.next_wire as nat)
}

/// The input declared by item `k` has its entry in `ir` under its name.
pub open spec fn input_named(ir: CircuitIr, items: Seq<hir::Item>, k: nat) -> bool {
    match items[k as int] {
        hir::Item::Input(d) => if d.visibility == Visibility::Public {
            &&& inputs_before(items, k, Visibility::Public) < ir.public_inputs@.len()
            &&& ir.public_inputs@[inputs_before(items, k, Visibility::Public) as int].name@ == d.binding.name@
        } else {
            &&& inputs_before(items, k, Visibility::Private) < ir.private_inputs@.len()
            &&& ir.private_inputs@[inputs_before(items, k, Visibility::Private) as int].name@ == d.binding.name@
        },
        _ => true,
    }
}

/// The inputs of `ir` are those the items declare, in order and under their names.
pub open spec fn inputs_lowered(items: Seq<hir::Item>, ir: CircuitIr) -> bool {
    &&& ir.public_inputs@.len() == inputs_before(items, items.len(), Visibility::Public)
    &&& ir.private_inputs@.len() == inputs_before(items, items.len(), Visibility::Private)
    &&& forall|k: nat| k < items.len() ==> #[trigger] input_named(ir, items, k)
}

/// Lowering has gone through the first `i` items.
pub open spec fn lowering_progress(items: Seq<hir::Item>, i: nat, ir: CircuitIr, next: nat, counter: nat) -> bool {
    &&& i <= items.len()
    &&& ir.public_inputs@.len() == inputs_before(items, i, Visibility::Public)
    &&& ir.private_inputs@.len() == inputs_before(items, i, Visibility::Private)
    &&& forall|k: nat| k < i ==> #[trigger] input_named(ir, items, k)
    &&& counter == unnamed_before(items, i)
    &&& progress_at(items, i, ir, next)
}

/// The environment depends on the input values of the items before `n` only.
proof fn lemma_program_env_agree(items: Seq<hir::Item>, n: nat, f: spec_fn(nat) -> nat, g: spec_fn(nat) -> nat)
    requires
        forall|k: nat| k < n ==> #[trigger] f(k) == g(k),
    ensures
        program_env(items, n, f) == program_env(items, n, g),
    decreases n,
{
    if n > 0 {
        lemma_program_env_agree(items, (n - 1) as nat, f, g);
        assert(f((n - 1) as nat) == g((n - 1) as nat));
    }
}

/// An input item before `i` has its entry among the inputs counted before `i`.
proof fn lemma_inputs_before_grow(items: Seq<hir::Item>, k: nat, i: nat, vis: Visibility)
    requires
        k < i <= items.len(),
        items[k as int] matches hir::Item::Input(d) && d.visibility == vis,
    ensures
        inputs_before(items, k, vis) < inputs_before(items, i, vis),
    decreases i,
{
    if k + 1 < i {
        lemma_inputs_before_grow(items, k, (i - 1) as nat, vis);
    }
}

/// Lowering has gone through the first `i` items, and each binding in scope has in every table
/// of the lowered operations the value the program gives it.
spec fn lowered_upto(all: Seq<hir::Item>, i: nat, l: Lowerer) -> bool {
    &&& lowering_progress(all, i, l.ir, l.next_wire as nat, l.output_counter as nat)
    &&& forall|w: Seq<nat>| #[trigger] l.holds_in(w) ==> symbol_env(l.symbols@, w) == program_env(all, i, wire_reader(l.ir, all, w))
}

/// The values read for the items before `i` stay the same as inputs are appended.
proof fn lemma_reader_agree(all: Seq<hir::Item>, i: nat, a: CircuitIr, b: CircuitIr, w: Seq<nat>)
    requires
        i <= all.len(),
        a.public_inputs@.len() == inputs_before(all, i, Visibility::Public),
        a.private_inputs@.len() == inputs_before(all, i, Visibility::Private),
        a.public_inputs@.len() <= b.public_inputs@.len(),
        a.private_inputs@.len() <= b.private_inputs@.len(),
        forall|j: int| 0 <= j < a.public_inputs@.len() ==> #[trigger] b.public_inputs@[j] == a.public_inputs@[j],
        forall|j: int| 0 <= j < a.private_inputs@.len() ==> #[trigger] b.private_inputs@[j] == a.private_inputs@[j],
    ensures
        forall|k: nat| k < i ==> #[trigger] (wire_reader(a, all, w))(k) == (wire_reader(b, all, w))(k),
{
    assert forall|k: nat| k < i implies #[trigger] (wire_reader(a, all, w))(k) == (wire_reader(b, all, w))(k) by {
        if let hir::Item::Input(d) = all[k as int] {
            lemma_inputs_before_grow(all, k, i, d.visibility);
            if d.visibility == Visibility::Public {
                let j = inputs_before(all, k, Visibility::Public) as int;
                assert(b.public_inputs@[j] == a.public_inputs@[j]);
            } else {
                let j = inputs_before(all, k, Visibility::Private) as int;
                assert(b.private_inputs@[j] == a.private_inputs@[j]);
            }
        }
    }
}

/// What the first `i` items say of the values depends on the values of those items only.
proof fn lemma_items_agree(all: Seq<hir::Item>, i: nat, f: spec_fn(nat) -> nat, g: spec_fn(nat) -> nat)
    requires
        forall|k: nat| k < i ==> #[trigger] f(k) == g(k),
    ensures
        program_env(all, i, f) == program_env(all, i, g),
        forall|k: nat| k < i ==> #[trigger] item_holds(all, k, f) == item_holds(all, k, g),
        forall|k: nat| k < i ==> #[trigger] exposed_value(all, k, f) == exposed_value(all, k, g),
{
    lemma_program_env_agree(all, i, f, g);
    assert forall|k: nat| k < i implies #[trigger] item_holds(all, k, f) == item_holds(all, k, g) && exposed_value(all, k, f)
        == exposed_value(all, k, g) by {
        lemma_program_env_agree(all, k, f, g);
    }
    assert forall|k: nat| k < i implies #[trigger] exposed_value(all, k, f) == exposed_value(all, k, g) by {
        assert(item_holds(all, k, f) == item_holds(all, k, g));
    }
}

/// The exposed items before `i` lie before `i`.
proof fn lemma_exposed_below(all: Seq<hir::Item>, i: nat)
    requires
        i <= all.len(),
    ensures
        forall|o: int| 0 <= o < exposed_items(all, i).len() ==> #[trigger] exposed_items(all, i)[o] < i,
    decreases i,
{
    if i > 0 {
        lemma_exposed_below(all, (i - 1) as nat);
        let prev = exposed_items(all, (i - 1) as nat);
        assert forall|o: int| 0 <= o < exposed_items(all, i).len() implies #[trigger] exposed_items(all, i)[o] < i by {
            if o < prev.len() {
                assert(exposed_items(all, i)[o] == prev[o]);
            }
        }
    }
}

/// A step that leaves the inputs, outputs and constraints as they are and adds no binding keeps
/// what was lowered of the earlier items, for an item that demands and exposes nothing.
proof fn lemma_quiet_step(all: Seq<hir::Item>, i: nat, before: Lowerer, after: Lowerer)
    requires
        i < all.len(),
        lowered_upto(all, i, before),
        all[i as int] is Function,
        after == before,
    ensures
        lowered_upto(all, i + 1, after),
{
    lemma_inputs_named_step(all, i, before.ir, after.ir);
    lemma_exposed_below(all, i);
    assert forall|w: Seq<nat>| #[trigger] table_holds(after.ir, after.next_wire as nat, w) implies (checks_hold(after.ir, w)
        <==> forall|k: nat| k < i + 1 ==> #[trigger] item_holds(all, k, wire_reader(after.ir, all, w))) by {
        assert(table_holds(before.ir, before.next_wire as nat, w));
        assert(item_holds(all, i, wire_reader(after.ir, all, w)));
    }
}

/// The inputs named so far stay named as lowering appends to the input lists.
proof fn lemma_inputs_named_step(all: Seq<hir::Item>, i: nat, b: CircuitIr, a: CircuitIr)
    requires
        i < all.len(),
        b.public_inputs@.len() == inputs_before(all, i, Visibility::Public),
        b.private_inputs@.len() == inputs_before(all, i, Visibility::Private),
        forall|k: nat| k < i ==> #[trigger] input_named(b, all, k),
        b.public_inputs@.len() <= a.public_inputs@.len(),
        b.private_inputs@.len() <= a.private_inputs@.len(),
        forall|j: int| 0 <= j < b.public_inputs@.len() ==> #[trigger] a.public_inputs@[j] == b.public_inputs@[j],
        forall|j: int| 0 <= j < b.private_inputs@.len() ==> #[trigger] a.private_inputs@[j] == b.private_inputs@[j],
        input_named(a, all, i),
    ensures
        forall|k: nat| k < i + 1 ==> #[trigger] input_named(a, all, k),
{
    assert forall|k: nat| k < i + 1 implies #[trigger] input_named(a, all, k) by {
        if k < i {
            assert(input_named(b, all, k));
            if let hir::Item::Input(d) = all[k as int] {
                lemma_inputs_before_grow(all, k, i, d.visibility);
                if d.visibility == Visibility::Public {
                    let p = inputs_before(all, k, Visibility::Public) as int;
                    assert(a.public_inputs@[p] == b.public_inputs@[p]);
                } else {
                    let p = inputs_before(all, k, Visibility::Private) as int;
                    assert(a.private_inputs@[p] == b.private_inputs@[p]);
                }
            }
        }
    }
}

/// Inserting a binding into the symbols inserts its value into their environment.
proof fn lemma_symbol_env_insert(symbols: Map<hir::BindingId, Operand>, id: hir::BindingId, o: Operand, w: Seq<nat>)
    ensures
        symbol_env(symbols.insert(id, o), w) == symbol_env(symbols, w).insert(id, operand_value(o, w)->0),
{
    assert(symbol_env(symbols.insert(id, o), w) =~= symbol_env(symbols, w).insert(id, operand_value(o, w)->0));
}

/// What lowering established of the first `i` items in one state carries over to a state with
/// the same outputs and constraints, more operations and wires, and inputs that extend the
/// earlier ones.
proof fn lemma_progress_carries(all: Seq<hir::Item>, i: nat, b: Lowerer, a: Lowerer, w: Seq<nat>)
    requires
        i <= all.len(),
        lowered_upto(all, i, b),
        b.next_wire <= a.next_wire,
        b.ir.operations@.len() <= a.ir.operations@.len(),
        forall|k: int| 0 <= k < b.ir.operations@.len() ==> #[trigger] a.ir.operations@[k] == b.ir.operations@[k],
        a.holds_in(w),
        b.ir.public_inputs@.len() <= a.ir.public_inputs@.len(),
        b.ir.private_inputs@.len() <= a.ir.private_inputs@.len(),
        forall|j: int| 0 <= j < b.ir.public_inputs@.len() ==> #[trigger] a.ir.public_inputs@[j] == b.ir.public_inputs@[j],
        forall|j: int| 0 <= j < b.ir.private_inputs@.len() ==> #[trigger] a.ir.private_inputs@[j] == b.ir.private_inputs@[j],
    ensures
        b.holds_in(w),
        forall|k: nat| k < i ==> #[trigger] (wire_reader(b.ir, all, w))(k) == (wire_reader(a.ir, all, w))(k),
        forall|k: nat| k < i ==> #[trigger] item_holds(all, k, wire_reader(a.ir, all, w)) == item_holds(all, k, wire_reader(b.ir, all, w)),
        symbol_env(b.symbols@, w) == program_env(all, i, wire_reader(a.ir, all, w)),
        forall|o: int| 0 <= o < b.ir.outputs@.len() ==> operand_value((#[trigger] b.ir.outputs@[o]).value, w) == Some(
            exposed_value(all, exposed_items(all, i)[o], wire_reader(a.ir, all, w)),
        ),
        checks_hold(b.ir, w) <==> forall|k: nat| k < i ==> #[trigger] item_holds(all, k, wire_reader(a.ir, all, w)),
{
    lemma_holds_in_earlier(b, a, w);
    assert(table_holds(b.ir, b.next_wire as nat, w));
    let f = wire_reader(b.ir, all, w);
    let g = wire_reader(a.ir, all, w);
    lemma_reader_agree(all, i, b.ir, a.ir, w);
    lemma_items_agree(all, i, f, g);
    lemma_exposed_below(all, i);
    let ex = exposed_items(all, i);
    assert forall|o: int| 0 <= o < b.ir.outputs@.len() implies operand_value((#[trigger] b.ir.outputs@[o]).value, w) == Some(
        exposed_value(all, ex[o], g),
    ) by {
        assert(operand_value(b.ir.outputs@[o].value, w) == Some(exposed_value(all, ex[o], f)));
        assert(ex[o] < i);
        assert(exposed_value(all, ex[o], f) == exposed_value(all, ex[o], g));
    }
    assert(checks_hold(b.ir, w) <==> forall|k: nat| k < i ==> #[trigger] item_holds(all, k, f));
    if checks_hold(b.ir, w) {
        assert forall|k: nat| k < i implies #[trigger] item_holds(all, k, g) by {
            assert(item_holds(all, k, f));
        }
    }
    if forall|k: nat| k < i ==> #[trigger] item_holds(all, k, g) {
        assert forall|k: nat| k < i implies #[trigger] item_holds(all, k, f) by {
            assert(item_holds(all, k, g));
        }
    }
}

/// The checks after one more item hold exactly when the earlier ones and the item's demand do.
proof fn lemma_checks_extend(all: Seq<hir::Item>, i: nat, g: spec_fn(nat) -> nat, before: CircuitIr, after: CircuitIr, w: Seq<nat>, demand: bool)
    requires
        checks_hold(before, w) <==> forall|k: nat| k < i ==> #[trigger] item_holds(all, k, g),
        checks_hold(after, w) <==> checks_hold(before, w) && demand,
        item_holds(all, i, g) == demand,
    ensures
        checks_hold(after, w) <==> forall|k: nat| k < i + 1 ==> #[trigger] item_holds(all, k, g),
{
    if checks_hold(after, w) {
        assert forall|k: nat| k < i + 1 implies #[trigger] item_holds(all, k, g) by {
            if k == i {
                assert(item_holds(all, i, g));
            }
        }
    }
    if forall|k: nat| k < i + 1 ==> #[trigger] item_holds(all, k, g) {
        assert(item_holds(all, i, g));
        assert forall|k: nat| k < i implies #[trigger] item_holds(all, k, g) by {
            assert(item_holds(all, k, g));
        }
    }
}

/// Lowering a `let` item binds its name to the lowered value of its expression.
proof fn lemma_let_step(all: Seq<hir::Item>, i: nat, b: Lowerer, l1: Lowerer, l2: Lowerer, a: Lowerer, value: Operand)
    requires
        i < all.len(),
        lowered_upto(all, i, b),
        all[i as int] matches hir::Item::Statement(hir::Statement::Let(_)),
        l1.step(&b),
        l1.ir.constraints@ == b.ir.constraints@,
        forall|w: Seq<nat>| #[trigger] l1.holds_in(w) ==> operand_value(value, w) == Some(
            expr_value(all[i as int]->Statement_0->Let_0.expr, symbol_env(b.symbols@, w)),
        ),
        l2.symbols@ == l1.symbols@.insert(all[i as int]->Statement_0->Let_0.binding.id, value),
        l2.ir == l1.ir,
        l2.next_wire == l1.next_wire,
        l2.output_counter == l1.output_counter,
        a.symbols@ == l2.symbols@,
        a.next_wire == l2.next_wire,
        a.output_counter == l2.output_counter,
        a.ir.operations@ == l2.ir.operations@,
        a.ir.constraints@ == l2.ir.constraints@,
        a.ir.outputs@ == l2.ir.outputs@,
        a.ir.public_inputs@ == l2.ir.public_inputs@,
        a.ir.private_inputs@ == l2.ir.private_inputs@,
        forall|w: Seq<nat>| #[trigger] l1.holds_in(w) ==> (ranges_hold(l1.ir.range_constraints@, w) <==> ranges_hold(
            b.ir.range_constraints@,
            w,
        ) && expr_fits(all[i as int]->Statement_0->Let_0.expr, symbol_env(b.symbols@, w))),
        a.ir.range_constraints@ == (if range_needed(l2.ir.range_constraints@, value, all[i as int]->Statement_0->Let_0.binding.ty) {
            l2.ir.range_constraints@.push(RangeConstraint { value, ty: all[i as int]->Statement_0->Let_0.binding.ty })
        } else {
            l2.ir.range_constraints@
        }),
    ensures
        lowered_upto(all, i + 1, a),
{
    let stmt = all[i as int]->Statement_0->Let_0;
    lemma_inputs_named_step(all, i, b.ir, a.ir);
    lemma_exposed_below(all, i);
    assert(exposed_items(all, i + 1) == exposed_items(all, i));
    assert forall|w: Seq<nat>| #[trigger] table_holds(a.ir, a.next_wire as nat, w) implies {
        &&& forall|o: int| 0 <= o < a.ir.outputs@.len() ==> operand_value((#[trigger] a.ir.outputs@[o]).value, w) == Some(
            exposed_value(all, exposed_items(all, i + 1)[o], wire_reader(a.ir, all, w)),
        )
        &&& checks_hold(a.ir, w) <==> forall|k: nat| k < i + 1 ==> #[trigger] item_holds(
            all,
            k,
            wire_reader(a.ir, all, w),
        )
        &&& symbol_env(a.symbols@, w) == program_env(all, i + 1, wire_reader(a.ir, all, w))
    } by {
        assert(a.holds_in(w));
        lemma_progress_carries(all, i, b, a, w);
        let g = wire_reader(a.ir, all, w);
        assert(l1.holds_in(w));
        lemma_symbol_env_insert(b.symbols@, stmt.binding.id, value, w);
        lemma_range_step(l2.ir.range_constraints@, a.ir.range_constraints@, value, stmt.binding.ty, w);
        let env = program_env(all, i, g);
        let demand = expr_fits(stmt.expr, env) && fits_type(expr_value(stmt.expr, env), stmt.binding.ty);
        assert(item_holds(all, i, g) == demand);
        assert(checks_hold(a.ir, w) <==> checks_hold(b.ir, w) && demand);
        lemma_checks_extend(all, i, g, b.ir, a.ir, w, demand);
    }
}

/// Lowering a `constrain` item adds a constraint that holds exactly when both sides are equal.
proof fn lemma_constrain_step(
    all: Seq<hir::Item>,
    i: nat,
    b: Lowerer,
    left: Lowerer,
    right: Lowerer,
    a: Lowerer,
    lhs: Operand,
    rhs: Operand,
)
    requires
        i < all.len(),
        lowered_upto(all, i, b),
        all[i as int] matches hir::Item::Statement(hir::Statement::Constrain(_)),
        left.step(&b),
        left.ir.constraints@ == b.ir.constraints@,
        forall|w: Seq<nat>| #[trigger] left.holds_in(w) ==> operand_value(lhs, w) == Some(
            expr_value(all[i as int]->Statement_0->Constrain_0.lhs, symbol_env(b.symbols@, w)),
        ),
        right.step(&left),
        right.ir.constraints@ == left.ir.constraints@,
        forall|w: Seq<nat>| #[trigger] right.holds_in(w) ==> operand_value(rhs, w) == Some(
            expr_value(all[i as int]->Statement_0->Constrain_0.rhs, symbol_env(left.symbols@, w)),
        ),
        a.symbols@ == right.symbols@,
        a.next_wire == right.next_wire,
        a.output_counter == right.output_counter,
        a.ir.operations@ == right.ir.operations@,
        a.ir.constraints@ == right.ir.constraints@.push(Constraint { lhs, rhs }),
        a.ir.outputs@ == right.ir.outputs@,
        a.ir.public_inputs@ == right.ir.public_inputs@,
        a.ir.private_inputs@ == right.ir.private_inputs@,
        a.ir.range_constraints@ == right.ir.range_constraints@,
        forall|w: Seq<nat>| #[trigger] left.holds_in(w) ==> (ranges_hold(left.ir.range_constraints@, w) <==> ranges_hold(
            b.ir.range_constraints@,
            w,
        ) && expr_fits(all[i as int]->Statement_0->Constrain_0.lhs, symbol_env(b.symbols@, w))),
        forall|w: Seq<nat>| #[trigger] right.holds_in(w) ==> (ranges_hold(right.ir.range_constraints@, w) <==> ranges_hold(
            left.ir.range_constraints@,
            w,
        ) && expr_fits(all[i as int]->Statement_0->Constrain_0.rhs, symbol_env(left.symbols@, w))),
    ensures
        lowered_upto(all, i + 1, a),
{
    let stmt = all[i as int]->Statement_0->Constrain_0;
    lemma_inputs_named_step(all, i, b.ir, a.ir);
    lemma_exposed_below(all, i);
    assert(exposed_items(all, i + 1) == exposed_items(all, i));
    assert forall|w: Seq<nat>| #[trigger] table_holds(a.ir, a.next_wire as nat, w) implies {
        &&& forall|o: int| 0 <= o < a.ir.outputs@.len() ==> operand_value((#[trigger] a.ir.outputs@[o]).value, w) == Some(
            exposed_value(all, exposed_items(all, i + 1)[o], wire_reader(a.ir, all, w)),
        )
        &&& checks_hold(a.ir, w) <==> forall|k: nat| k < i + 1 ==> #[trigger] item_holds(
            all,
            k,
            wire_reader(a.ir, all, w),
        )
        &&& symbol_env(a.symbols@, w) == program_env(all, i + 1, wire_reader(a.ir, all, w))
    } by {
        assert(a.holds_in(w));
        lemma_progress_carries(all, i, b, a, w);
        let g = wire_reader(a.ir, all, w);
        assert(right.holds_in(w));
        lemma_holds_in_earlier(left, right, w);
        assert(left.holds_in(w));
        let cs = a.ir.constraints@;
        let last = Constraint { lhs, rhs };
        assert(cs[cs.len() - 1] == last);
        let env = program_env(all, i, g);
        let eq = expr_value(stmt.lhs, env) == expr_value(stmt.rhs, env);
        assert(constraint_holds(last, w) <==> eq);
        if constraints_hold(cs, w) {
            assert(constraint_holds(cs[cs.len() - 1], w));
            assert forall|c: int| 0 <= c < b.ir.constraints@.len() implies constraint_holds(#[trigger] b.ir.constraints@[c], w) by {
                assert(cs[c] == b.ir.constraints@[c]);
            }
        }
        if constraints_hold(b.ir.constraints@, w) && eq {
            assert forall|c: int| 0 <= c < cs.len() implies constraint_holds(#[trigger] cs[c], w) by {
                if c < cs.len() - 1 {
                    assert(cs[c] == b.ir.constraints@[c]);
                }
            }
        }
        let demand = eq && expr_fits(stmt.lhs, env) && expr_fits(stmt.rhs, env);
        assert(item_holds(all, i, g) == demand);
        assert(checks_hold(a.ir, w) <==> checks_hold(b.ir, w) && demand);
        lemma_checks_extend(all, i, g, b.ir, a.ir, w, demand);
    }
}

/// Lowering an `expose` item adds an output named as the item says, holding the lowered value
/// of its expression.
proof fn lemma_expose_step(all: Seq<hir::Item>, i: nat, b: Lowerer, lowered: Lowerer, a: Lowerer, value: Operand)
    requires
        i < all.len(),
        lowered_upto(all, i, b),
        all[i as int] matches hir::Item::Statement(hir::Statement::Expose(_)),
        lowered.step(&b),
        lowered.ir.constraints@ == b.ir.constraints@,
        forall|w: Seq<nat>| #[trigger] lowered.holds_in(w) ==> operand_value(value, w) == Some(
            expr_value(all[i as int]->Statement_0->Expose_0.expr, symbol_env(b.symbols@, w)),
        ),
        a.symbols@ == lowered.symbols@,
        a.next_wire == lowered.next_wire,
        a.output_counter == unnamed_before(all, i + 1),
        a.ir.operations@ == lowered.ir.operations@,
        a.ir.constraints@ == lowered.ir.constraints@,
        a.ir.outputs@.len() == lowered.ir.outputs@.len() + 1,
        a.ir.outputs@.drop_last() == lowered.ir.outputs@,
        a.ir.outputs@.last().value == value,
        a.ir.outputs@.last().name@ == output_label(all, i),
        a.ir.public_inputs@ == lowered.ir.public_inputs@,
        a.ir.private_inputs@ == lowered.ir.private_inputs@,
        a.ir.range_constraints@ == lowered.ir.range_constraints@,
        forall|w: Seq<nat>| #[trigger] lowered.holds_in(w) ==> (ranges_hold(lowered.ir.range_constraints@, w) <==> ranges_hold(
            b.ir.range_constraints@,
            w,
        ) && expr_fits(all[i as int]->Statement_0->Expose_0.expr, symbol_env(b.symbols@, w))),
    ensures
        lowered_upto(all, i + 1, a),
{
    let stmt = all[i as int]->Statement_0->Expose_0;
    lemma_inputs_named_step(all, i, b.ir, a.ir);
    lemma_exposed_below(all, i);
    let ex = exposed_items(all, i + 1);
    assert(ex == exposed_items(all, i).push(i));
    let os = a.ir.outputs@;
    assert forall|o: int| 0 <= o < os.len() implies (#[trigger] os[o]).name@ == output_label(all, ex[o]) by {
        if o < os.len() - 1 {
            assert(os[o] == lowered.ir.outputs@[o]);
        }
    }
    assert forall|w: Seq<nat>| #[trigger] table_holds(a.ir, a.next_wire as nat, w) implies {
        &&& forall|o: int| 0 <= o < os.len() ==> operand_value((#[trigger] os[o]).value, w) == Some(
            exposed_value(all, ex[o], wire_reader(a.ir, all, w)),
        )
        &&& checks_hold(a.ir, w) <==> forall|k: nat| k < i + 1 ==> #[trigger] item_holds(
            all,
            k,
            wire_reader(a.ir, all, w),
        )
        &&& symbol_env(a.symbols@, w) == program_env(all, i + 1, wire_reader(a.ir, all, w))
    } by {
        assert(a.holds_in(w));
        lemma_progress_carries(all, i, b, a, w);
        let g = wire_reader(a.ir, all, w);
        assert(lowered.holds_in(w));
        assert forall|o: int| 0 <= o < os.len() implies operand_value((#[trigger] os[o]).value, w) == Some(
            exposed_value(all, ex[o], g),
        ) by {
            if o < os.len() - 1 {
                assert(os[o] == b.ir.outputs@[o]);
                assert(ex[o] == exposed_items(all, i)[o]);
            } else {
                assert(ex[o] == i);
                assert(os[o].value == value);
            }
        }
        let demand = expr_fits(stmt.expr, program_env(all, i, g));
        assert(item_holds(all, i, g) == demand);
        assert(checks_hold(a.ir, w) <==> checks_hold(b.ir, w) && demand);
        lemma_checks_extend(all, i, g, b.ir, a.ir, w, demand);
    }
}

/// Lowering an input item gives it a fresh wire, binds its name to that wire, and constrains a
/// `bool` input to be a root of `x * (x - 1)`.
proof fn lemma_input_step(all: Seq<hir::Item>, i: nat, b: Lowerer, a: Lowerer)
    requires
        i < all.len(),
        lowered_upto(all, i, b),
        all[i as int] is Input,
        a.symbols@ == b.symbols@.insert(all[i as int]->Input_0.binding.id, Operand::Wire(b.next_wire)),
        a.next_wire > b.next_wire,
        a.output_counter == b.output_counter,
        a.ir.outputs@ == b.ir.outputs@,
        b.ir.operations@.len() <= a.ir.operations@.len(),
        forall|k: int| 0 <= k < b.ir.operations@.len() ==> #[trigger] a.ir.operations@[k] == b.ir.operations@[k],
        all[i as int]->Input_0.visibility == Visibility::Public ==> {
            &&& a.ir.public_inputs@.len() == b.ir.public_inputs@.len() + 1
            &&& a.ir.public_inputs@.drop_last() == b.ir.public_inputs@
            &&& a.ir.public_inputs@.last().wire == b.next_wire
            &&& a.ir.public_inputs@.last().name@ == all[i as int]->Input_0.binding.name@
            &&& a.ir.private_inputs@ == b.ir.private_inputs@
        },
        all[i as int]->Input_0.visibility == Visibility::Private ==> {
            &&& a.ir.private_inputs@.len() == b.ir.private_inputs@.len() + 1
            &&& a.ir.private_inputs@.drop_last() == b.ir.private_inputs@
            &&& a.ir.private_inputs@.last().wire == b.next_wire
            &&& a.ir.private_inputs@.last().name@ == all[i as int]->Input_0.binding.name@
            &&& a.ir.public_inputs@ == b.ir.public_inputs@
        },
        forall|w: Seq<nat>| #[trigger] a.holds_in(w) ==> (constraints_hold(a.ir.constraints@, w) <==> constraints_hold(
            b.ir.constraints@,
            w,
        ) && (all[i as int]->Input_0.binding.ty == Type::Bool ==> field_mul(
            w[b.next_wire as int],
            field_sub(w[b.next_wire as int], 1),
        ) == 0)),
        forall|w: Seq<nat>| #[trigger] a.holds_in(w) ==> (ranges_hold(a.ir.range_constraints@, w) <==> ranges_hold(
            b.ir.range_constraints@,
            w,
        ) && fits_type(w[b.next_wire as int], all[i as int]->Input_0.binding.ty)),
    ensures
        lowered_upto(all, i + 1, a),
{
    let d = all[i as int]->Input_0;
    lemma_exposed_below(all, i);
    assert(exposed_items(all, i + 1) == exposed_items(all, i));
    assert forall|j: int| 0 <= j < b.ir.public_inputs@.len() implies #[trigger] a.ir.public_inputs@[j] == b.ir.public_inputs@[j] by {
        if d.visibility == Visibility::Public {
            assert(a.ir.public_inputs@.drop_last()[j] == a.ir.public_inputs@[j]);
        }
    }
    assert forall|j: int| 0 <= j < b.ir.private_inputs@.len() implies #[trigger] a.ir.private_inputs@[j] == b.ir.private_inputs@[j] by {
        if d.visibility == Visibility::Private {
            assert(a.ir.private_inputs@.drop_last()[j] == a.ir.private_inputs@[j]);
        }
    }
    assert(input_named(a.ir, all, i)) by {
        if d.visibility == Visibility::Public {
            assert(a.ir.public_inputs@[b.ir.public_inputs@.len() as int] == a.ir.public_inputs@.last());
        } else {
            assert(a.ir.private_inputs@[b.ir.private_inputs@.len() as int] == a.ir.private_inputs@.last());
        }
    }
    lemma_inputs_named_step(all, i, b.ir, a.ir);
    assert forall|w: Seq<nat>| #[trigger] table_holds(a.ir, a.next_wire as nat, w) implies {
        &&& forall|o: int| 0 <= o < a.ir.outputs@.len() ==> operand_value((#[trigger] a.ir.outputs@[o]).value, w) == Some(
            exposed_value(all, exposed_items(all, i + 1)[o], wire_reader(a.ir, all, w)),
        )
        &&& checks_hold(a.ir, w) <==> forall|k: nat| k < i + 1 ==> #[trigger] item_holds(
            all,
            k,
            wire_reader(a.ir, all, w),
        )
        &&& symbol_env(a.symbols@, w) == program_env(all, i + 1, wire_reader(a.ir, all, w))
    } by {
        assert(a.holds_in(w));
        lemma_holds_in_earlier(b, a, w);
        assert(b.holds_in(w));
        assert(table_holds(b.ir, b.next_wire as nat, w));
        let rb = wire_reader(b.ir, all, w);
        let ra = wire_reader(a.ir, all, w);
        lemma_reader_agree(all, i, b.ir, a.ir, w);
        lemma_items_agree(all, i, rb, ra);
        assert(ra(i) == w[b.next_wire as int]);
        lemma_symbol_env_insert(b.symbols@, d.binding.id, Operand::Wire(b.next_wire), w);
        assert(forall|o: int| 0 <= o < a.ir.outputs@.len() ==> #[trigger] exposed_items(all, i + 1)[o] < i);
        lemma_progress_carries(all, i, b, a, w);
        let x = w[b.next_wire as int];
        let demand = (d.binding.ty == Type::Bool ==> field_mul(x, field_sub(x, 1)) == 0) && fits_type(x, d.binding.ty);
        assert(item_holds(all, i, ra) == demand);
        assert(checks_hold(a.ir, w) <==> checks_hold(b.ir, w) && demand);
        lemma_checks_extend(all, i, ra, b.ir, a.ir, w, demand);
    }
}

/// Once every item is lowered and the wire count recorded, the circuit is the lowered program.
proof fn lemma_lowered(all: Seq<hir::Item>, l: Lowerer, ir: CircuitIr)
    requires
        lowered_upto(all, all.len(), l),
        ir.next_wire == l.next_wire,
        ir.operations@ == l.ir.operations@,
        ir.constraints@ == l.ir.constraints@,
        ir.outputs@ == l.ir.outputs@,
        ir.public_inputs@ == l.ir.public_inputs@,
        ir.private_inputs@ == l.ir.private_inputs@,
        ir.range_constraints@ == l.ir.range_constraints@,
    ensures
        lowered_program(all, ir),
        inputs_lowered(all, ir),
{
    assert forall|k: nat| k < all.len() implies #[trigger] input_named(ir, all, k) by {
        assert(input_named(l.ir, all, k));
    }
    assert forall|w: Seq<nat>| #[trigger] table_holds(ir, ir.next_wire as nat, w) implies {
        &&& forall|o: int| 0 <= o < ir.outputs@.len() ==> operand_value((#[trigger] ir.outputs@[o]).value, w) == Some(
            exposed_value(all, exposed_items(all, all.len())[o], wire_reader(ir, all, w)),
        )
        &&& checks_hold(ir, w) <==> forall|k: nat| k < all.len() ==> #[trigger] item_holds(
            all,
            k,
            wire_reader(ir, all, w),
        )
    } by {
        assert(table_holds(l.ir, l.next_wire as nat, w));
        let f = wire_reader(l.ir, all, w);
        let g = wire_reader(ir, all, w);
        assert forall|k: nat| k < all.len() implies #[trigger] f(k) == g(k) by {}
        lemma_items_agree(all, all.len(), f, g);
        lemma_exposed_below(all, all.len());
        let ex = exposed_items(all, all.len());
        assert forall|o: int| 0 <= o < ir.outputs@.len() implies operand_value((#[trigger] ir.outputs@[o]).value, w) == Some(
            exposed_value(all, ex[o], g),
        ) by {
            assert(l.ir.outputs@[o] == ir.outputs@[o]);
            assert(operand_value(l.ir.outputs@[o].value, w) == Some(exposed_value(all, ex[o], f)));
            assert(ex[o] < all.len());
            assert(exposed_value(all, ex[o], f) == exposed_value(all, ex[o], g));
        }
        assert(checks_hold(l.ir, w) <==> forall|k: nat| k < all.len() ==> #[trigger] item_holds(all, k, f));
        if checks_hold(ir, w) {
            assert forall|k: nat| k < all.len() implies #[trigger] item_holds(all, k, g) by {
                assert(item_holds(all, k, f));
            }
        }
        if forall|k: nat| k < all.len() ==> #[trigger] item_holds(all, k, g) {
            assert forall|k: nat| k < all.len() implies #[trigger] item_holds(all, k, f) by {
                assert(item_holds(all, k, g));
            }
        }
    }
}

/// Lowers a typechecked program into the arithmetic circuit IR.
///
/// Inputs become wires in declaration order; `bool` inputs get a booleanity constraint and
/// unsigned inputs a range constraint; `let` bindings name lowered operands; constraints and
/// outputs are recorded in source order. Constant-only arithmetic is folded.
///
/// In every wire table of field elements in which the operations hold, each output holds the
/// value of the expression its item exposes, and the constraints and range constraints all hold
/// exactly when every item's demand does (`item_holds`): each `constrain` holds, each `bool`
/// input is a root of `x * (x - 1)`, and each unsigned input, `let` value, arithmetic result and
/// cast fits its width, the inputs taking the values on their wires. Lowering succeeds whenever
/// the items need fewer wires than a `usize` can number (`wires_needed`).
pub fn lower(program: &hir::Program) -> (r: CompileResult<CircuitIr>)
    requires
        program_scoped(*program),
    ensures
        r matches Ok(ir) ==> ir_lowering_shape(ir) && ir.name@ == program.circuit.name@,
        r matches Ok(ir) ==> lowered_program(program.circuit.items@, ir),
        r matches Ok(ir) ==> inputs_lowered(program.circuit.items@, ir) && allocated_once(ir),
        r matches Ok(ir) ==> no_constant_pairs(ir.operations@),
        r matches Err(e) ==> e.message@ == wire_limit_message(),
        r is Err ==> wires_needed(program.circuit.items@, program.circuit.items@.len()) >= usize::MAX,
{
    let mut lowerer = Lowerer::new(program.circuit.name.as_str());
    let items = &program.circuit.items;
    let ghost all = items@;
    proof {
        assert forall|w: Seq<nat>| #[trigger] lowerer.holds_in(w) implies symbol_env(lowerer.symbols@, w) == program_env(
            all,
            0,
            wire_reader(lowerer.ir, all, w),
        ) by {
            assert(symbol_env(lowerer.symbols@, w) =~= Map::<hir::BindingId, nat>::empty());
        }
        assert(exposed_items(all, 0) =~= Seq::<nat>::empty());
        assert forall|w: Seq<nat>| #[trigger] table_holds(lowerer.ir, lowerer.next_wire as nat, w) implies (checks_hold(
            lowerer.ir,
            w,
        ) <==> forall|k: nat| k < 0 ==> #[trigger] item_holds(all, k, wire_reader(lowerer.ir, all, w))) by {}
    }
    let mut i: usize = 0;
    while i < items.len()
        invariant
            i <= items@.len(),
            lowerer.shaped(),
            lowerer.ir.name@ == program.circuit.name@,
            bound_after(items@, i as nat).subset_of(lowerer.symbols@.dom()),
            program_scoped(*program),
            items@ == program.circuit.items@,
            all == items@,
            lowered_upto(all, i as nat, lowerer),
            lowerer.next_wire <= wires_needed(all, i as nat),
        decreases items.len() - i,
    {
        assert(item_scoped(items@, i as nat));
        let ghost bound = bound_after(items@, i as nat);
        let ghost before = lowerer;
        match &items[i] {
            hir::Item::Input(input) => {
                match lowerer.lower_input(input) {
                    Ok(()) => {},
                    Err(e) => {
                    proof {
                        lemma_wires_needed_mono(all, (i + 1) as nat, all.len());
                    }
                    return Err(e);
                },
                }
                proof {
                    lemma_input_step(all, i as nat, before, lowerer);
                }
            },
            hir::Item::Function(_) => {
                proof {
                    lemma_quiet_step(all, i as nat, before, lowerer);
                }
            },
            hir::Item::Statement(hir::Statement::Let(stmt)) => {
                proof {
                    lemma_refs_within_mono(stmt.expr, bound, lowerer.symbols@.dom());
                }
                let value = match lowerer.lower_expr(&stmt.expr) {
                    Ok(v) => v,
                    Err(e) => {
                    proof {
                        lemma_wires_needed_mono(all, (i + 1) as nat, all.len());
                    }
                    return Err(e);
                },
                };
                let ghost lowered = lowerer;
                lowerer.bind(stmt.binding.id, value);
                let ghost bound_state = lowerer;
                if stmt.binding.ty.is_uint() {
                    lowerer.enforce_range(value, stmt.binding.ty);
                }
                proof {
                    lemma_let_step(all, i as nat, before, lowered, bound_state, lowerer, value);
                }
            },
            hir::Item::Statement(hir::Statement::Constrain(stmt)) => {
                proof {
                    lemma_refs_within_mono(stmt.lhs, bound, lowerer.symbols@.dom());
                    lemma_refs_within_mono(stmt.rhs, bound, lowerer.symbols@.dom());
                }
                let lhs = match lowerer.lower_expr(&stmt.lhs) {
                    Ok(v) => v,
                    Err(e) => {
                    proof {
                        lemma_wires_needed_mono(all, (i + 1) as nat, all.len());
                    }
                    return Err(e);
                },
                };
                let ghost left = lowerer;
                let rhs = match lowerer.lower_expr(&stmt.rhs) {
                    Ok(v) => v,
                    Err(e) => {
                    proof {
                        lemma_wires_needed_mono(all, (i + 1) as nat, all.len());
                    }
                    return Err(e);
                },
                };
                let ghost right = lowerer;
                let ghost cs_before = lowerer.ir.constraints@;
                lowerer.ir.constraints.push(Constraint { lhs, rhs });
                proof {
                    let cs = lowerer.ir.constraints@;
                    assert forall|c: int| 0 <= c < cs.len() implies wire_below(#[trigger] cs[c].lhs, lowerer.next_wire as nat)
                        && wire_below(cs[c].rhs, lowerer.next_wire as nat) by {
                        if c < cs.len() - 1 {
                            assert(cs[c] == cs_before[c]);
                        }
                    }
                    lemma_constrain_step(all, i as nat, before, left, right, lowerer, lhs, rhs);
                }
            },
            hir::Item::Statement(hir::Statement::Expose(stmt)) => {
                proof {
                    lemma_refs_within_mono(stmt.expr, bound, lowerer.symbols@.dom());
                }
                let value = match lowerer.lower_expr(&stmt.expr) {
                    Ok(v) => v,
                    Err(e) => {
                    proof {
                        lemma_wires_needed_mono(all, (i + 1) as nat, all.len());
                    }
                    return Err(e);
                },
                };
                let ghost lowered = lowerer;
                proof {
                    lemma_unnamed_before_bound(all, i as nat);
                }
                let name = match &stmt.label {
                    Some(label) => label.clone(),
                    None => match lowerer.default_output_label(&stmt.expr) {
                        Ok(label) => label,
                        Err(e) => {
                            assert(lowerer.output_counter == unnamed_before(all, i as nat));
                            assert(false);
                            return Err(e);
                        },
                    },
                };
                let ghost os_before = lowerer.ir.outputs@;
                lowerer.ir.outputs.push(Output { name, value });
                proof {
                    let os = lowerer.ir.outputs@;
                    assert forall|c: int| 0 <= c < os.len() implies wire_below(#[trigger] os[c].value, lowerer.next_wire as nat) by {
                        if c < os.len() - 1 {
                            assert(os[c] == os_before[c]);
                        }
                    }
                    assert(lowerer.ir.outputs@.drop_last() =~= os_before);
                    lemma_expose_step(all, i as nat, before, lowered, lowerer, value);
                }
            },
        }
        i = i + 1;
    }
    let ghost done = lowerer;
    lowerer.ir.next_wire = lowerer.next_wire;
    proof {
        lemma_lowered(all, done, lowerer.ir);
    }
    Ok(lowerer.ir)
}

/// Running the operations of a lowered circuit in order, from a table of field elements, gives
/// a table of field elements in which every operation run so far holds: each reads only wires
/// below its own output, and later operations write only above it.
proof fn lemma_run_lowered(ops: Seq<Operation>, w0: Seq<nat>, next: nat)
    requires
        wires_canonical(w0),
        w0.len() == next,
        forall|k: int|
            0 <= k < ops.len() ==> {
                &&& #[trigger] ops[k].out < next
                &&& wire_below(op_lhs(ops[k].kind), ops[k].out as nat)
                &&& wire_below(op_rhs(ops[k].kind), ops[k].out as nat)
            },
        forall|k1: int, k2: int| 0 <= k1 < k2 < ops.len() ==> #[trigger] ops[k1].out < #[trigger] ops[k2].out,
    ensures
        run_ops(ops, w0) is Some,
        run_ops(ops, w0)->0.len() == next,
        wires_canonical(run_ops(ops, w0)->0),
        ops_hold(ops, run_ops(ops, w0)->0),
    decreases ops.len(),
{
    if ops.len() > 0 {
        let init = ops.drop_last();
        assert forall|k: int| 0 <= k < init.len() implies {
            &&& #[trigger] init[k].out < next
            &&& wire_below(op_lhs(init[k].kind), init[k].out as nat)
            &&& wire_below(op_rhs(init[k].kind), init[k].out as nat)
        } by {
            assert(init[k] == ops[k]);
        }
        assert forall|k1: int, k2: int| 0 <= k1 < k2 < init.len() implies #[trigger] init[k1].out < #[trigger] init[k2].out by {
            assert(init[k1] == ops[k1]);
            assert(init[k2] == ops[k2]);
        }
        lemma_run_lowered(init, w0, next);
        let t = run_ops(init, w0)->0;
        let op = ops.last();
        let n = ops.len() - 1;
        assert(op == ops[n]);
        let a = operand_value(op_lhs(op.kind), t)->0;
        let b = operand_value(op_rhs(op.kind), t)->0;
        let v = crate::trace::apply_op(op.kind, a, b);
        let u = t.update(op.out as int, v);
        assert(run_ops(ops, w0) == Some(u));
        crate::optimize::lemma_reduce_below_pub((a + b) as int);
        crate::optimize::lemma_reduce_below_pub(a - b);
        crate::optimize::lemma_reduce_below_pub((a * b) as int);
        assert(wires_canonical(u));
        assert forall|k: int| 0 <= k < ops.len() implies {
            &&& (#[trigger] ops[k]).out < u.len()
            &&& operand_value(op_lhs(ops[k].kind), u) is Some
            &&& operand_value(op_rhs(ops[k].kind), u) is Some
            &&& u[ops[k].out as int] == crate::trace::apply_op(
                ops[k].kind,
                operand_value(op_lhs(ops[k].kind), u)->0,
                operand_value(op_rhs(ops[k].kind), u)->0,
            )
        } by {
            if k < n {
                assert(init[k] == ops[k]);
                assert(ops[k].out < op.out);
            }
        }
    }
}

/// Every run of a lowered circuit on field elements reaches a table in which its operations
/// hold, so what `lower` states of such tables holds of every run.
pub proof fn lemma_run_is_lowered_table(ir: CircuitIr, inputs: crate::eval::RuntimeInputs)
    requires
        ir_lowering_shape(ir),
        crate::eval::values_canonical(inputs),
        crate::trace::final_wires(ir, inputs) is Some,
    ensures
        lowered_table(ir, crate::trace::final_wires(ir, inputs)->0),
{
    let zeros = Seq::new(ir.next_wire as nat, |i: int| 0nat);
    crate::optimize::lemma_assign_canonical(ir.public_inputs@, inputs.public_entries(), zeros);
    let w1 = crate::trace::assign_wires(ir.public_inputs@, inputs.public_entries(), zeros)->0;
    crate::optimize::lemma_assign_canonical(ir.private_inputs@, inputs.private_entries(), w1);
    let w0 = crate::trace::assign_wires(ir.private_inputs@, inputs.private_entries(), w1)->0;
    lemma_run_lowered(ir.operations@, w0, ir.next_wire as nat);
}

/// The value the assignment `inputs` gives the input declared by item `k`: the value assigned
/// to its name among the assignments of its visibility.
pub open spec fn assigned_value(items: Seq<hir::Item>, inputs: RuntimeInputs, k: nat) -> nat {
    match items[k as int] {
        hir::Item::Input(d) => if d.visibility == Visibility::Public {
            lookup(inputs.public_entries(), d.binding.name@)->0
        } else {
            lookup(inputs.private_entries(), d.binding.name@)->0
        },
        _ => 0,
    }
}

/// The values the assignment gives the input items.
pub open spec fn assigned_reader(items: Seq<hir::Item>, inputs: RuntimeInputs) -> spec_fn(nat) -> nat {
    |k: nat| assigned_value(items, inputs, k)
}

/// The environment depends on the values of the input items before `n` only.
proof fn lemma_env_agree_on_inputs(items: Seq<hir::Item>, n: nat, f: spec_fn(nat) -> nat, g: spec_fn(nat) -> nat)
    requires
        forall|k: nat| k < n && items[k as int] is Input ==> #[trigger] f(k) == g(k),
    ensures
        program_env(items, n, f) == program_env(items, n, g),
        forall|k: nat| k < n ==> #[trigger] item_holds(items, k, f) == item_holds(items, k, g),
        forall|k: nat| k < n ==> #[trigger] exposed_value(items, k, f) == exposed_value(items, k, g),
    decreases n,
{
    if n > 0 {
        lemma_env_agree_on_inputs(items, (n - 1) as nat, f, g);
        if items[n - 1] is Input {
            assert(f((n - 1) as nat) == g((n - 1) as nat));
        }
        assert(item_holds(items, (n - 1) as nat, f) == item_holds(items, (n - 1) as nat, g));
        assert(exposed_value(items, (n - 1) as nat, f) == exposed_value(items, (n - 1) as nat, g));
    }
}

/// Assigning inputs with distinct wires leaves each one's value on its wire, and every other
/// wire as it was.
proof fn lemma_assign_distinct(inputs: Seq<NamedInput>, e: Seq<(String, FieldElement)>, w: Seq<nat>)
    requires
        forall|i: int, j: int| 0 <= i < j < inputs.len() ==> (#[trigger] inputs[i]).wire != (#[trigger] inputs[j]).wire,
        forall|i: int| 0 <= i < inputs.len() ==> (#[trigger] inputs[i]).wire < w.len(),
        assign_wires(inputs, e, w) is Some,
    ensures
        assign_wires(inputs, e, w)->0.len() == w.len(),
        forall|i: int| 0 <= i < inputs.len() ==> lookup(e, (#[trigger] inputs[i]).name@) == Some(
            assign_wires(inputs, e, w)->0[inputs[i].wire as int],
        ),
        forall|x: int| 0 <= x < w.len() && (forall|i: int| 0 <= i < inputs.len() ==> (#[trigger] inputs[i]).wire != x) ==> assign_wires(
            inputs,
            e,
            w,
        )->0[x] == w[x],
    decreases inputs.len(),
{
    if inputs.len() > 0 {
        let init = inputs.drop_last();
        let n = inputs.len() - 1;
        assert forall|i: int, j: int| 0 <= i < j < init.len() implies (#[trigger] init[i]).wire != (#[trigger] init[j]).wire by {
            assert(init[i] == inputs[i]);
            assert(init[j] == inputs[j]);
        }
        assert forall|i: int| 0 <= i < init.len() implies (#[trigger] init[i]).wire < w.len() by {
            assert(init[i] == inputs[i]);
        }
        lemma_assign_distinct(init, e, w);
        assert(inputs.last() == inputs[n]);
        let r = assign_wires(inputs, e, w)->0;
        assert forall|i: int| 0 <= i < inputs.len() implies lookup(e, (#[trigger] inputs[i]).name@) == Some(r[inputs[i].wire as int]) by {
            if i < n {
                assert(init[i] == inputs[i]);
                assert(inputs[i].wire != inputs[n].wire);
            }
        }
        assert forall|x: int| 0 <= x < w.len() && (forall|i: int| 0 <= i < inputs.len() ==> (#[trigger] inputs[i]).wire != x) implies r[x]
            == w[x] by {
            assert(inputs[n].wire != x);
            assert forall|i: int| 0 <= i < init.len() implies (#[trigger] init[i]).wire != x by {
                assert(init[i] == inputs[i]);
            }
        }
    }
}

/// Running operations leaves every wire that none of them writes as it was.
proof fn lemma_run_keeps(ops: Seq<Operation>, w: Seq<nat>, x: int)
    requires
        run_ops(ops, w) is Some,
        forall|k: int| 0 <= k < ops.len() ==> (#[trigger] ops[k]).out != x && ops[k].out < w.len(),
        0 <= x < w.len(),
    ensures
        run_ops(ops, w)->0.len() == w.len(),
        run_ops(ops, w)->0[x] == w[x],
    decreases ops.len(),
{
    if ops.len() > 0 {
        let init = ops.drop_last();
        assert forall|k: int| 0 <= k < init.len() implies (#[trigger] init[k]).out != x && init[k].out < w.len() by {
            assert(init[k] == ops[k]);
        }
        lemma_run_keeps(init, w, x);
        assert(ops.last() == ops[ops.len() - 1]);
    }
}

/// Running a lowered program computes what the program says: every output holds the value its
/// item exposes, and the constraints all hold exactly when every item's demand holds, each
/// input taking the value assigned to its name.
pub proof fn lemma_lowered_run(items: Seq<hir::Item>, ir: CircuitIr, inputs: RuntimeInputs)
    requires
        lowered_program(items, ir),
        inputs_lowered(items, ir),
        allocated_once(ir),
        ir_lowering_shape(ir),
        values_canonical(inputs),
        final_wires(ir, inputs) is Some,
    ensures
        forall|o: int| 0 <= o < ir.outputs@.len() ==> operand_value((#[trigger] ir.outputs@[o]).value, final_wires(ir, inputs)->0) == Some(
            exposed_value(items, exposed_items(items, items.len())[o], assigned_reader(items, inputs)),
        ),
        checks_hold(ir, final_wires(ir, inputs)->0) <==> forall|k: nat| k < items.len() ==> #[trigger] item_holds(
            items,
            k,
            assigned_reader(items, inputs),
        ),
{
    let fw = final_wires(ir, inputs)->0;
    lemma_run_is_lowered_table(ir, inputs);
    let zeros = Seq::new(ir.next_wire as nat, |i: int| 0nat);
    let ps = ir.public_inputs@;
    let qs = ir.private_inputs@;
    let w1 = assign_wires(ps, inputs.public_entries(), zeros)->0;
    let w0 = assign_wires(qs, inputs.private_entries(), w1)->0;
    lemma_assign_distinct(ps, inputs.public_entries(), zeros);
    lemma_assign_distinct(qs, inputs.private_entries(), w1);
    let f = wire_reader(ir, items, fw);
    let g = assigned_reader(items, inputs);
    assert forall|k: nat| k < items.len() && items[k as int] is Input implies #[trigger] f(k) == g(k) by {
        assert(input_named(ir, items, k));
        let d = items[k as int]->Input_0;
        lemma_inputs_before_grow(items, k, items.len(), d.visibility);
        if d.visibility == Visibility::Public {
            let p = inputs_before(items, k, Visibility::Public) as int;
            let x = ps[p].wire as int;
            assert forall|j: int| 0 <= j < ir.operations@.len() implies (#[trigger] ir.operations@[j]).out != x && ir.operations@[j].out
                < w0.len() by {}
            lemma_run_keeps(ir.operations@, w0, x);
            assert forall|j: int| 0 <= j < qs.len() implies (#[trigger] qs[j]).wire != x by {}
            assert(w0[x] == w1[x]);
            assert(lookup(inputs.public_entries(), ps[p].name@) == Some(w1[x]));
        } else {
            let p = inputs_before(items, k, Visibility::Private) as int;
            let x = qs[p].wire as int;
            assert forall|j: int| 0 <= j < ir.operations@.len() implies (#[trigger] ir.operations@[j]).out != x && ir.operations@[j].out
                < w0.len() by {}
            lemma_run_keeps(ir.operations@, w0, x);
            assert(lookup(inputs.private_entries(), qs[p].name@) == Some(w0[x]));
        }
    }
    lemma_env_agree_on_inputs(items, items.len(), f, g);
    lemma_exposed_below(items, items.len());
    assert(table_holds(ir, ir.next_wire as nat, fw));
    let ex = exposed_items(items, items.len());
    assert forall|o: int| 0 <= o < ir.outputs@.len() implies operand_value((#[trigger] ir.outputs@[o]).value, fw) == Some(
        exposed_value(items, ex[o], g),
    ) by {
        assert(ex[o] < items.len());
        assert(exposed_value(items, ex[o], f) == exposed_value(items, ex[o], g));
    }
    if checks_hold(ir, fw) {
        assert forall|k: nat| k < items.len() implies #[trigger] item_holds(items, k, g) by {
            assert(item_holds(items, k, f));
        }
    }
    if forall|k: nat| k < items.len() ==> #[trigger] item_holds(items, k, g) {
        assert forall|k: nat| k < items.len() implies #[trigger] item_holds(items, k, f) by {
            assert(item_holds(items, k, g));
        }
    }
}

} // verus!
