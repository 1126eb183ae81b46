//! Circuit simplification: algebraic identities and constant folding, dead-operation
//! elimination, and renumbering of the remaining wires.
use vstd::prelude::*;

use std::collections::HashMap;

use crate::field::{field_add, field_mul, field_sub, modulus, reduce, FieldElement};
use crate::eval::{entries_canonical, lookup, values_canonical, RuntimeInputs};
use crate::trace::{
    apply_op, assign_wires, assignments_declared, constraint_holds, execution_succeeds, final_wires, input_wires, operand_value, range_holds, run_ops,
};
use crate::ir::{
    copy_inputs, op_lhs, op_rhs, op_with, wire_below, CircuitIr, Constraint, NamedInput, OpKind,
    Operand, Operation, Output, RangeConstraint, WireId,
};
use crate::verify::ir_well_formed;

verus! {

broadcast use vstd::std_specs::hash::group_hash_axioms;

/// What an operation simplifies to: another operand, or a (possibly rewritten) operation.
pub enum Simplified {
    Alias(Operand),
    Operation(OpKind),
}

pub open spec fn is_const_value(o: Operand, v: nat) -> bool {
    match o {
        Operand::Const(c) => c@ == v,
        Operand::Wire(_) => false,
    }
}

pub open spec fn const_value(o: Operand) -> nat {
    match o {
        Operand::Const(c) => c@,
        Operand::Wire(_) => 0,
    }
}

/// The rewrite rules: constant folding, `x + 0`, `0 + x`, `x - 0`, `w - w`, `x * 0`, `0 * x`,
/// `x * 1` and `1 * x`.
pub open spec fn simplifies_to(kind: OpKind, s: Simplified) -> bool {
    let l = op_lhs(kind);
    let r = op_rhs(kind);
    let both_const = l is Const && r is Const;
    match kind {
        OpKind::Add(_, _) => if both_const {
            s matches Simplified::Alias(Operand::Const(c)) && c@ == field_add(const_value(l), const_value(r))
        } else if is_const_value(l, 0) {
            s == Simplified::Alias(r)
        } else if is_const_value(r, 0) {
            s == Simplified::Alias(l)
        } else {
            s == Simplified::Operation(kind)
        },
        OpKind::Sub(_, _) => if both_const {
            s matches Simplified::Alias(Operand::Const(c)) && c@ == field_sub(const_value(l), const_value(r))
        } else if is_const_value(r, 0) {
            s == Simplified::Alias(l)
        } else if l is Wire && l == r {
            s matches Simplified::Alias(Operand::Const(c)) && c@ == 0
        } else {
            s == Simplified::Operation(kind)
        },
        OpKind::Mul(_, _) => if both_const {
            s matches Simplified::Alias(Operand::Const(c)) && c@ == field_mul(const_value(l), const_value(r))
        } else if is_const_value(l, 0) || is_const_value(r, 0) {
            s matches Simplified::Alias(Operand::Const(c)) && c@ == 0
        } else if is_const_value(l, 1) {
            s == Simplified::Alias(r)
        } else if is_const_value(r, 1) {
            s == Simplified::Alias(l)
        } else {
            s == Simplified::Operation(kind)
        },
    }
}

/// An operation that the rewrite rules leave as it is.
pub open spec fn irreducible(kind: OpKind) -> bool {
    simplifies_to(kind, Simplified::Operation(kind))
}

fn is_const_zero(o: Operand) -> (r: bool)
    ensures
        r == is_const_value(o, 0),
{
    match o {
        Operand::Const(c) => c.is_zero(),
        Operand::Wire(_) => false,
    }
}

fn is_const_one(o: Operand) -> (r: bool)
    ensures
        r == is_const_value(o, 1),
{
    match o {
        Operand::Const(c) => c.is_one(),
        Operand::Wire(_) => false,
    }
}

pub fn simplify(kind: OpKind) -> (s: Simplified)
    ensures
        simplifies_to(kind, s),
{
    match kind {
        OpKind::Add(lhs, rhs) => match (lhs, rhs) {
            (Operand::Const(a), Operand::Const(b)) => Simplified::Alias(Operand::Const(a.add(b))),
            _ => {
                if is_const_zero(lhs) {
                    Simplified::Alias(rhs)
                } else if is_const_zero(rhs) {
                    Simplified::Alias(lhs)
                } else {
                    Simplified::Operation(OpKind::Add(lhs, rhs))
                }
            },
        },
        OpKind::Sub(lhs, rhs) => match (lhs, rhs) {
            (Operand::Const(a), Operand::Const(b)) => Simplified::Alias(Operand::Const(a.sub(b))),
            _ => {
                if is_const_zero(rhs) {
                    Simplified::Alias(lhs)
                } else {
                    match (lhs, rhs) {
                        (Operand::Wire(a), Operand::Wire(b)) => {
                            if a == b {
                                Simplified::Alias(Operand::Const(FieldElement::zero()))
                            } else {
                                Simplified::Operation(OpKind::Sub(lhs, rhs))
                            }
                        },
                        _ => Simplified::Operation(OpKind::Sub(lhs, rhs)),
                    }
                }
            },
        },
        OpKind::Mul(lhs, rhs) => match (lhs, rhs) {
            (Operand::Const(a), Operand::Const(b)) => Simplified::Alias(Operand::Const(a.mul(b))),
            _ => {
                if is_const_zero(lhs) || is_const_zero(rhs) {
                    Simplified::Alias(Operand::Const(FieldElement::zero()))
                } else if is_const_one(lhs) {
                    Simplified::Alias(rhs)
                } else if is_const_one(rhs) {
                    Simplified::Alias(lhs)
                } else {
                    Simplified::Operation(OpKind::Mul(lhs, rhs))
                }
            },
        },
    }
}


/// `w` is an input wire (below `ni`) or the output of one of the first `limit` operations.
pub open spec fn defined_before(w: nat, ni: nat, ops: Seq<Operation>, limit: int) -> bool {
    w < ni || exists|j: int| 0 <= j < limit && j < ops.len() && #[trigger] ops[j].out == w
}

pub open spec fn operand_defined_before(o: Operand, ni: nat, ops: Seq<Operation>, limit: int) -> bool {
    match o {
        Operand::Const(_) => true,
        Operand::Wire(w) => defined_before(w as nat, ni, ops, limit),
    }
}

/// The simplified operations: outputs increasing, at least `ni`, and every operand an input or
/// the output of an earlier operation.
pub open spec fn ops_chained(ops: Seq<Operation>, ni: nat) -> bool {
    &&& forall|j: int| 0 <= j < ops.len() ==> ni <= (#[trigger] ops[j]).out
    &&& forall|j1: int, j2: int| 0 <= j1 < j2 < ops.len() ==> (#[trigger] ops[j1]).out < (#[trigger] ops[j2]).out
    &&& forall|j: int| 0 <= j < ops.len() ==> {
        &&& operand_defined_before(op_lhs((#[trigger] ops[j]).kind), ni, ops, j)
        &&& operand_defined_before(op_rhs(ops[j].kind), ni, ops, j)
    }
}

/// Follows the alias recorded for a wire, if any.
fn rewrite_operand(operand: Operand, replacements: &HashMap<WireId, Operand>) -> (r: Operand)
    ensures
        match operand {
            Operand::Const(_) => r == operand,
            Operand::Wire(w) => if replacements@.contains_key(w) {
                r == replacements@[w]
            } else {
                r == operand
            },
        },
{
    match operand {
        Operand::Const(_) => operand,
        Operand::Wire(wire) => match replacements.get(&wire) {
            Some(next) => *next,
            None => operand,
        },
    }
}

/// The alias and operation state after simplifying the first `k` operations of a well-formed
/// circuit with `ni` inputs.
spec fn simplify_state(ops: Seq<Operation>, ni: nat, k: nat, replacements: Map<WireId, Operand>, simplified: Seq<Operation>) -> bool {
    &&& ops_chained(simplified, ni)
    &&& forall|j: int| 0 <= j < simplified.len() ==> (#[trigger] simplified[j]).out < ni + k
    &&& forall|w: WireId| #[trigger] replacements.contains_key(w) ==> ni <= w < ni + k
    &&& forall|w: WireId| #[trigger] replacements.contains_key(w) ==> operand_defined_before(replacements[w], ni, simplified, simplified.len() as int)
    &&& forall|j: int| 0 <= j < simplified.len() ==> !replacements.contains_key((#[trigger] simplified[j]).out)
    &&& forall|w: nat| ni <= w < ni + k ==> #[trigger] replacements.contains_key(w as WireId) || defined_before(w, ni, simplified, simplified.len() as int)
}

proof fn lemma_defined_grow(w: nat, ni: nat, ops: Seq<Operation>, more: Seq<Operation>, limit: int)
    requires
        defined_before(w, ni, ops, limit),
        limit <= ops.len(),
        more.len() >= ops.len(),
        forall|j: int| 0 <= j < ops.len() ==> more[j] == ops[j],
    ensures
        defined_before(w, ni, more, limit),
{
    if w >= ni {
        let j = choose|j: int| 0 <= j < limit && j < ops.len() && #[trigger] ops[j].out == w;
        assert(more[j].out == w);
    }
}

proof fn lemma_operand_defined_grow(o: Operand, ni: nat, ops: Seq<Operation>, more: Seq<Operation>, limit: int)
    requires
        operand_defined_before(o, ni, ops, limit),
        limit <= ops.len(),
        more.len() >= ops.len(),
        forall|j: int| 0 <= j < ops.len() ==> more[j] == ops[j],
    ensures
        operand_defined_before(o, ni, more, limit),
{
    if let Operand::Wire(w) = o {
        lemma_defined_grow(w as nat, ni, ops, more, limit);
    }
}

/// An operand read through the aliases.
pub open spec fn rewrite_spec(o: Operand, reps: Map<WireId, Operand>) -> Operand {
    match o {
        Operand::Wire(w) => if reps.contains_key(w) {
            reps[w]
        } else {
            o
        },
        Operand::Const(_) => o,
    }
}

/// An operation with both operands read through the aliases.
pub open spec fn rewritten_kind(kind: OpKind, reps: Map<WireId, Operand>) -> OpKind {
    op_with(kind, rewrite_spec(op_lhs(kind), reps), rewrite_spec(op_rhs(kind), reps))
}

pub open spec fn rewritten_constraint(c: Constraint, reps: Map<WireId, Operand>) -> Constraint {
    Constraint { lhs: rewrite_spec(c.lhs, reps), rhs: rewrite_spec(c.rhs, reps) }
}

pub open spec fn rewritten_range(c: RangeConstraint, reps: Map<WireId, Operand>) -> RangeConstraint {
    RangeConstraint { value: rewrite_spec(c.value, reps), ty: c.ty }
}

/// What became of the first `k` operations: an aliased one simplifies to its alias, and every
/// kept one is an original operation with its operands read through the aliases.
pub open spec fn simplified_from(ops: Seq<Operation>, k: nat, reps: Map<WireId, Operand>, simplified: Seq<Operation>) -> bool {
    &&& forall|a: int| 0 <= a < k && #[trigger] reps.contains_key(ops[a].out) ==> simplifies_to(
        rewritten_kind(ops[a].kind, reps),
        Simplified::Alias(reps[ops[a].out]),
    )
    &&& forall|j: int| 0 <= j < simplified.len() ==> exists|a: int| 0 <= a < k && #[trigger] ops[a].out == (#[trigger] simplified[j]).out
        && !reps.contains_key(ops[a].out) && simplified[j].kind == rewritten_kind(ops[a].kind, reps)
}

/// Rewrites every operation's operands through the aliases found so far, then simplifies it:
/// operations that reduce to an operand become aliases, the others are kept.
fn simplify_operations(ir: &CircuitIr) -> (r: (HashMap<WireId, Operand>, Vec<Operation>))
    requires
        ir_well_formed(*ir),
    ensures
        r.1@.len() <= ir.operations@.len(),
        simplify_state(
            ir.operations@,
            (ir.public_inputs@.len() + ir.private_inputs@.len()) as nat,
            ir.operations@.len(),
            r.0@,
            r.1@,
        ),
        simplified_from(ir.operations@, ir.operations@.len(), r.0@, r.1@),
        forall|j: int| 0 <= j < r.1@.len() ==> irreducible(#[trigger] r.1@[j].kind),
{
    let ni = ir.public_inputs.len() + ir.private_inputs.len();
    let mut replacements: HashMap<WireId, Operand> = HashMap::new();
    let mut simplified: Vec<Operation> = Vec::new();
    let mut k: usize = 0;
    while k < ir.operations.len()
        invariant
            k <= ir.operations@.len(),
            ir_well_formed(*ir),
            ni == ir.public_inputs@.len() + ir.private_inputs@.len(),
            simplify_state(ir.operations@, ni as nat, k as nat, replacements@, simplified@),
            simplified_from(ir.operations@, k as nat, replacements@, simplified@),
            forall|j: int| 0 <= j < simplified@.len() ==> irreducible(#[trigger] simplified@[j].kind),
            simplified@.len() <= k,
        decreases ir.operations.len() - k,
    {
        let operation = ir.operations[k];
        assert(operation.out == ni + k);
        let ghost before = simplified@;
        let ghost reps = replacements@;
        let lhs = rewrite_operand(operation.kind.lhs(), &replacements);
        let rhs = rewrite_operand(operation.kind.rhs(), &replacements);
        proof {
            assert(operand_defined_before(lhs, ni as nat, before, before.len() as int)) by {
                if let Operand::Wire(w) = op_lhs(operation.kind) {
                    if !reps.contains_key(w) {
                        if w >= ni {
                            assert(reps.contains_key(w as nat as WireId) || defined_before(w as nat, ni as nat, before, before.len() as int));
                        }
                    }
                }
            }
            assert(operand_defined_before(rhs, ni as nat, before, before.len() as int)) by {
                if let Operand::Wire(w) = op_rhs(operation.kind) {
                    if !reps.contains_key(w) {
                        if w >= ni {
                            assert(reps.contains_key(w as nat as WireId) || defined_before(w as nat, ni as nat, before, before.len() as int));
                        }
                    }
                }
            }
        }
        let rewritten = operation.kind.with_operands(lhs, rhs);
        match simplify(rewritten) {
            Simplified::Alias(operand) => {
                proof {
                    assert(operand is Const || operand == lhs || operand == rhs);
                }
                replacements.insert(operation.out, operand);
                proof {
                    let s = simplified@;
                    lemma_simplified_alias_step(ir.operations@, ni as nat, k as nat, reps, operation.out, operand, s);
                    assert forall|w: nat| ni <= w < ni + k + 1 implies #[trigger] replacements@.contains_key(w as WireId) || defined_before(w, ni as nat, s, s.len() as int) by {
                        if w < ni + k {
                            assert(reps.contains_key(w as WireId) || defined_before(w, ni as nat, s, s.len() as int));
                        }
                    }
                }
            },
            Simplified::Operation(kind) => {
                simplified.push(Operation { out: operation.out, kind });
                proof {
                    let s = simplified@;
                    assert(kind == rewritten);
                    assert forall|j: int| 0 <= j < s.len() implies irreducible(#[trigger] s[j].kind) by {
                        if j < before.len() {
                            assert(s[j] == before[j]);
                        }
                    }
                    assert forall|j: int| 0 <= j < s.len() implies exists|a: int| 0 <= a < k + 1 && #[trigger] ir.operations@[a].out == (#[trigger] s[j]).out
                        && !replacements@.contains_key(ir.operations@[a].out) && s[j].kind == rewritten_kind(ir.operations@[a].kind, replacements@) by {
                        if j < before.len() {
                            assert(s[j] == before[j]);
                        } else {
                            assert(ir.operations@[k as int].out == s[j].out);
                        }
                    }
                    assert forall|j: int| 0 <= j < before.len() implies s[j] == before[j] by {}
                    lemma_operand_defined_grow(lhs, ni as nat, before, s, before.len() as int);
                    lemma_operand_defined_grow(rhs, ni as nat, before, s, before.len() as int);
                    assert forall|j: int| 0 <= j < s.len() implies {
                        &&& operand_defined_before(op_lhs((#[trigger] s[j]).kind), ni as nat, s, j)
                        &&& operand_defined_before(op_rhs(s[j].kind), ni as nat, s, j)
                    } by {
                        if j < before.len() {
                            lemma_operand_defined_grow(op_lhs(before[j].kind), ni as nat, before, s, j);
                            lemma_operand_defined_grow(op_rhs(before[j].kind), ni as nat, before, s, j);
                        }
                    }
                    assert forall|w: WireId| #[trigger] replacements@.contains_key(w) implies operand_defined_before(replacements@[w], ni as nat, s, s.len() as int) by {
                        lemma_operand_defined_grow(replacements@[w], ni as nat, before, s, before.len() as int);
                        if let Operand::Wire(x) = replacements@[w] {
                            if x >= ni {
                                let j = choose|j: int| 0 <= j < before.len() && j < before.len() && #[trigger] before[j].out == x;
                                assert(s[j].out == x);
                            }
                        }
                    }
                    assert forall|w: nat| ni <= w < ni + k + 1 implies #[trigger] replacements@.contains_key(w as WireId) || defined_before(w, ni as nat, s, s.len() as int) by {
                        if w < ni + k {
                            if !reps.contains_key(w as WireId) {
                                let j = choose|j: int| 0 <= j < before.len() && j < before.len() && #[trigger] before[j].out == w;
                                assert(s[j].out == w);
                            }
                        } else {
                            assert(s[s.len() - 1].out == w);
                        }
                    }
                }
            },
        }
        k = k + 1;
    }
    (replacements, simplified)
}

proof fn lemma_rewrite_insert_other(o: Operand, reps: Map<WireId, Operand>, key: WireId, v: Operand)
    requires
        o != Operand::Wire(key),
    ensures
        rewrite_spec(o, reps.insert(key, v)) == rewrite_spec(o, reps),
{
}

/// Recording an alias for operation `k` keeps what is known of the earlier operations, and
/// records operation `k`.
proof fn lemma_simplified_alias_step(
    ops: Seq<Operation>,
    ni: nat,
    k: nat,
    reps: Map<WireId, Operand>,
    out: WireId,
    alias: Operand,
    simplified: Seq<Operation>,
)
    requires
        k < ops.len(),
        forall|a: int| 0 <= a < ops.len() ==> {
            &&& #[trigger] ops[a].out == ni + a
            &&& wire_below(op_lhs(ops[a].kind), (ni + a) as nat)
            &&& wire_below(op_rhs(ops[a].kind), (ni + a) as nat)
        },
        out == ops[k as int].out,
        !reps.contains_key(out),
        simplified_from(ops, k, reps, simplified),
        simplifies_to(rewritten_kind(ops[k as int].kind, reps), Simplified::Alias(alias)),
    ensures
        simplified_from(ops, k + 1, reps.insert(out, alias), simplified),
{
    let next = reps.insert(out, alias);
    assert forall|a: int| 0 <= a <= k implies #[trigger] rewritten_kind(ops[a].kind, next) == rewritten_kind(ops[a].kind, reps) by {
        assert(ops[a].out == ni + a);
        lemma_rewrite_insert_other(op_lhs(ops[a].kind), reps, out, alias);
        lemma_rewrite_insert_other(op_rhs(ops[a].kind), reps, out, alias);
    }
    assert forall|a: int| 0 <= a < k + 1 && #[trigger] next.contains_key(ops[a].out) implies simplifies_to(
        rewritten_kind(ops[a].kind, next),
        Simplified::Alias(next[ops[a].out]),
    ) by {
        assert(rewritten_kind(ops[a].kind, next) == rewritten_kind(ops[a].kind, reps));
        if a < k {
            assert(ops[a].out == ni + a);
            assert(reps.contains_key(ops[a].out));
        }
    }
    assert forall|j: int| 0 <= j < simplified.len() implies exists|a: int| 0 <= a < k + 1 && #[trigger] ops[a].out == (#[trigger] simplified[j]).out
        && !next.contains_key(ops[a].out) && simplified[j].kind == rewritten_kind(ops[a].kind, next) by {
        let a = choose|a: int| 0 <= a < k && #[trigger] ops[a].out == (#[trigger] simplified[j]).out
            && !reps.contains_key(ops[a].out) && simplified[j].kind == rewritten_kind(ops[a].kind, reps);
        assert(ops[a].out == ni + a);
        assert(rewritten_kind(ops[a].kind, next) == rewritten_kind(ops[a].kind, reps));
    }
}

/// `o` is a constant, an input wire, or the output of a kept operation.
pub open spec fn reaches_kept(o: Operand, ni: nat, ops: Seq<Operation>, keep: Seq<bool>, limit: int) -> bool {
    match o {
        Operand::Const(_) => true,
        Operand::Wire(w) => w < ni || exists|j: int| 0 <= j < limit && j < ops.len() && #[trigger] ops[j].out == w && keep[j],
    }
}

pub open spec fn marked(o: Operand, needed: Set<WireId>) -> bool {
    match o {
        Operand::Wire(w) => needed.contains(w),
        Operand::Const(_) => true,
    }
}

/// `o` reads the wire `w`.
pub open spec fn reads_wire(o: Operand, w: WireId) -> bool {
    o == Operand::Wire(w)
}

/// A constraint, a range constraint or an output reads the wire `w`.
pub open spec fn read_by_roots(w: WireId, constraints: Seq<Constraint>, ranges: Seq<RangeConstraint>, outputs: Seq<Output>) -> bool {
    ||| exists|c: int| 0 <= c < constraints.len() && (reads_wire((#[trigger] constraints[c]).lhs, w) || reads_wire(constraints[c].rhs, w))
    ||| exists|c: int| 0 <= c < ranges.len() && reads_wire((#[trigger] ranges[c]).value, w)
    ||| exists|c: int| 0 <= c < outputs.len() && reads_wire((#[trigger] outputs[c]).value, w)
}

/// A kept operation at index `from` or later reads the wire `w`.
pub open spec fn read_by_kept(w: WireId, ops: Seq<Operation>, keep: Seq<bool>, from: int) -> bool {
    exists|k: int| from <= k < ops.len() && keep[k] && (reads_wire(op_lhs((#[trigger] ops[k]).kind), w) || reads_wire(op_rhs(ops[k].kind), w))
}

/// An operation at index `from` or later reads the wire `w`.
pub open spec fn read_by_later(w: WireId, ops: Seq<Operation>, from: int) -> bool {
    exists|k: int| from <= k < ops.len() && (reads_wire(op_lhs((#[trigger] ops[k]).kind), w) || reads_wire(op_rhs(ops[k].kind), w))
}

/// The output of operation `t` of `ir` is read: by a later operation, a constraint, a range
/// constraint or an output.
pub open spec fn output_read(ir: CircuitIr, t: int) -> bool {
    let w = ir.operations@[t].out;
    read_by_later(w, ir.operations@, t + 1) || read_by_roots(w, ir.constraints@, ir.range_constraints@, ir.outputs@)
}

fn mark_operand(operand: Operand, needed: &mut std::collections::HashSet<WireId>)
    ensures
        final(needed)@ == match operand {
            Operand::Wire(w) => old(needed)@.insert(w),
            Operand::Const(_) => old(needed)@,
        },
{
    if let Operand::Wire(wire) = operand {
        needed.insert(wire);
    }
}

/// Marks which operations are needed: those whose output is read by a constraint, a range
/// constraint, an output, or (transitively) by another needed operation.
fn dead_code_eliminate(
    ops: &Vec<Operation>,
    constraints: &Vec<Constraint>,
    ranges: &Vec<RangeConstraint>,
    outputs: &Vec<Output>,
    ni: usize,
) -> (keep: Vec<bool>)
    requires
        ops_chained(ops@, ni as nat),
        forall|c: int| 0 <= c < constraints@.len() ==> operand_defined_before(#[trigger] constraints@[c].lhs, ni as nat, ops@, ops@.len() as int)
            && operand_defined_before(constraints@[c].rhs, ni as nat, ops@, ops@.len() as int),
        forall|c: int| 0 <= c < ranges@.len() ==> operand_defined_before(#[trigger] ranges@[c].value, ni as nat, ops@, ops@.len() as int),
        forall|c: int| 0 <= c < outputs@.len() ==> operand_defined_before(#[trigger] outputs@[c].value, ni as nat, ops@, ops@.len() as int),
    ensures
        keep@.len() == ops@.len(),
        forall|j: int| 0 <= j < ops@.len() && #[trigger] keep@[j] ==> reaches_kept(op_lhs(ops@[j].kind), ni as nat, ops@, keep@, j)
            && reaches_kept(op_rhs(ops@[j].kind), ni as nat, ops@, keep@, j),
        forall|c: int| 0 <= c < constraints@.len() ==> reaches_kept(#[trigger] constraints@[c].lhs, ni as nat, ops@, keep@, ops@.len() as int)
            && reaches_kept(constraints@[c].rhs, ni as nat, ops@, keep@, ops@.len() as int),
        forall|c: int| 0 <= c < ranges@.len() ==> reaches_kept(#[trigger] ranges@[c].value, ni as nat, ops@, keep@, ops@.len() as int),
        forall|c: int| 0 <= c < outputs@.len() ==> reaches_kept(#[trigger] outputs@[c].value, ni as nat, ops@, keep@, ops@.len() as int),
        forall|j: int| 0 <= j < ops@.len() && #[trigger] keep@[j] ==> read_by_roots(ops@[j].out, constraints@, ranges@, outputs@)
            || read_by_kept(ops@[j].out, ops@, keep@, j + 1),
{
    let n = ops.len();
    let mut needed: std::collections::HashSet<WireId> = std::collections::HashSet::new();
    let mut c: usize = 0;
    while c < constraints.len()
        invariant
            c <= constraints@.len(),
            forall|a: int| 0 <= a < c ==> marked(#[trigger] constraints@[a].lhs, needed@),
            forall|a: int| 0 <= a < c ==> marked(#[trigger] constraints@[a].rhs, needed@),
            forall|w: WireId| #[trigger] needed@.contains(w) ==> defined_before(w as nat, ni as nat, ops@, n as int),
            forall|w: WireId| #[trigger] needed@.contains(w) ==> read_by_roots(w, constraints@, ranges@, outputs@),
            forall|c: int| 0 <= c < constraints@.len() ==> operand_defined_before(#[trigger] constraints@[c].lhs, ni as nat, ops@, ops@.len() as int)
                && operand_defined_before(constraints@[c].rhs, ni as nat, ops@, ops@.len() as int),
            n == ops@.len(),
        decreases constraints.len() - c,
    {
        let ghost before = needed@;
        mark_operand(constraints[c].lhs, &mut needed);
        mark_operand(constraints[c].rhs, &mut needed);
        proof {
            assert forall|w: WireId| #[trigger] needed@.contains(w) implies read_by_roots(w, constraints@, ranges@, outputs@) by {
                if !before.contains(w) {
                    assert(reads_wire(constraints@[c as int].lhs, w) || reads_wire(constraints@[c as int].rhs, w));
                }
            }
        }
        c = c + 1;
    }
    let mut c: usize = 0;
    while c < ranges.len()
        invariant
            c <= ranges@.len(),
            forall|a: int| 0 <= a < constraints@.len() ==> marked(#[trigger] constraints@[a].lhs, needed@),
            forall|a: int| 0 <= a < constraints@.len() ==> marked(#[trigger] constraints@[a].rhs, needed@),
            forall|a: int| 0 <= a < c ==> marked(#[trigger] ranges@[a].value, needed@),
            forall|w: WireId| #[trigger] needed@.contains(w) ==> defined_before(w as nat, ni as nat, ops@, n as int),
            forall|w: WireId| #[trigger] needed@.contains(w) ==> read_by_roots(w, constraints@, ranges@, outputs@),
            forall|c: int| 0 <= c < ranges@.len() ==> operand_defined_before(#[trigger] ranges@[c].value, ni as nat, ops@, ops@.len() as int),
            n == ops@.len(),
        decreases ranges.len() - c,
    {
        let ghost before = needed@;
        mark_operand(ranges[c].value, &mut needed);
        proof {
            assert forall|w: WireId| #[trigger] needed@.contains(w) implies read_by_roots(w, constraints@, ranges@, outputs@) by {
                if !before.contains(w) {
                    assert(reads_wire(ranges@[c as int].value, w));
                }
            }
        }
        c = c + 1;
    }
    let mut c: usize = 0;
    while c < outputs.len()
        invariant
            c <= outputs@.len(),
            forall|a: int| 0 <= a < constraints@.len() ==> marked(#[trigger] constraints@[a].lhs, needed@),
            forall|a: int| 0 <= a < constraints@.len() ==> marked(#[trigger] constraints@[a].rhs, needed@),
            forall|a: int| 0 <= a < ranges@.len() ==> marked(#[trigger] ranges@[a].value, needed@),
            forall|a: int| 0 <= a < c ==> marked(#[trigger] outputs@[a].value, needed@),
            forall|w: WireId| #[trigger] needed@.contains(w) ==> defined_before(w as nat, ni as nat, ops@, n as int),
            forall|w: WireId| #[trigger] needed@.contains(w) ==> read_by_roots(w, constraints@, ranges@, outputs@),
            forall|c: int| 0 <= c < outputs@.len() ==> operand_defined_before(#[trigger] outputs@[c].value, ni as nat, ops@, ops@.len() as int),
            n == ops@.len(),
        decreases outputs.len() - c,
    {
        let ghost before = needed@;
        mark_operand(outputs[c].value, &mut needed);
        proof {
            assert forall|w: WireId| #[trigger] needed@.contains(w) implies read_by_roots(w, constraints@, ranges@, outputs@) by {
                if !before.contains(w) {
                    assert(reads_wire(outputs@[c as int].value, w));
                }
            }
        }
        c = c + 1;
    }
    let mut keep: Vec<bool> = Vec::new();
    let mut z: usize = 0;
    while z < n
        invariant
            z <= n,
            keep@.len() == z,
            forall|a: int| 0 <= a < z ==> !(#[trigger] keep@[a]),
        decreases n - z,
    {
        keep.push(false);
        z = z + 1;
    }
    let mut idx: usize = n;
    while idx > 0
        invariant
            idx <= n == ops@.len(),
            keep@.len() == n,
            ops_chained(ops@, ni as nat),
            forall|a: int| 0 <= a < constraints@.len() ==> marked(#[trigger] constraints@[a].lhs, needed@),
            forall|a: int| 0 <= a < constraints@.len() ==> marked(#[trigger] constraints@[a].rhs, needed@),
            forall|a: int| 0 <= a < ranges@.len() ==> marked(#[trigger] ranges@[a].value, needed@),
            forall|a: int| 0 <= a < outputs@.len() ==> marked(#[trigger] outputs@[a].value, needed@),
            forall|w: WireId| #[trigger] needed@.contains(w) ==> defined_before(w as nat, ni as nat, ops@, n as int),
            forall|w: WireId| #[trigger] needed@.contains(w) ==> read_by_roots(w, constraints@, ranges@, outputs@)
                || read_by_kept(w, ops@, keep@, idx as int),
            forall|j: int| idx <= j < n ==> (#[trigger] keep@[j] <==> needed@.contains(ops@[j].out)),
            forall|j: int| 0 <= j < idx ==> !(#[trigger] keep@[j]),
            forall|j: int| idx <= j < n && #[trigger] keep@[j] ==> marked(op_lhs(ops@[j].kind), needed@)
                && marked(op_rhs(ops@[j].kind), needed@),
        decreases idx,
    {
        idx = idx - 1;
        let operation = ops[idx];
        let ghost before = needed@;
        let ghost old_keep = keep@;
        if needed.contains(&operation.out) {
            mark_operand(operation.kind.lhs(), &mut needed);
            mark_operand(operation.kind.rhs(), &mut needed);
            keep.set(idx, true);
            proof {
                assert forall|w: WireId| #[trigger] needed@.contains(w) implies read_by_roots(w, constraints@, ranges@, outputs@)
                    || read_by_kept(w, ops@, keep@, idx as int) by {
                    if !read_by_roots(w, constraints@, ranges@, outputs@) {
                        if before.contains(w) {
                            let k = choose|k: int| idx + 1 <= k < ops@.len() && old_keep[k]
                                && (reads_wire(op_lhs((#[trigger] ops@[k]).kind), w) || reads_wire(op_rhs(ops@[k].kind), w));
                            assert(keep@[k]);
                        } else {
                            assert(keep@[idx as int]);
                            assert(reads_wire(op_lhs(ops@[idx as int].kind), w) || reads_wire(op_rhs(ops@[idx as int].kind), w));
                        }
                    }
                }
                assert forall|j: int| idx < j < n implies (#[trigger] keep@[j] <==> needed@.contains(ops@[j].out)) by {
                    if needed@.contains(ops@[j].out) && !before.contains(ops@[j].out) {
                        lemma_marked_operand_earlier(ops@, ni as nat, idx as int, ops@[j].out, j);
                    }
                }
            }
        }
    }
    proof {
        assert forall|j: int| 0 <= j < ops@.len() && #[trigger] keep@[j] implies reaches_kept(op_lhs(ops@[j].kind), ni as nat, ops@, keep@, j)
            && reaches_kept(op_rhs(ops@[j].kind), ni as nat, ops@, keep@, j) by {
            lemma_operand_reaches(op_lhs(ops@[j].kind), ops@, ni as nat, keep@, needed@, j);
            lemma_operand_reaches(op_rhs(ops@[j].kind), ops@, ni as nat, keep@, needed@, j);
        }
        assert forall|c: int| 0 <= c < constraints@.len() implies reaches_kept(#[trigger] constraints@[c].lhs, ni as nat, ops@, keep@, ops@.len() as int)
            && reaches_kept(constraints@[c].rhs, ni as nat, ops@, keep@, ops@.len() as int) by {
            lemma_root_reaches(constraints@[c].lhs, ops@, ni as nat, keep@, needed@);
            lemma_root_reaches(constraints@[c].rhs, ops@, ni as nat, keep@, needed@);
        }
        assert forall|c: int| 0 <= c < ranges@.len() implies reaches_kept(#[trigger] ranges@[c].value, ni as nat, ops@, keep@, ops@.len() as int) by {
            lemma_root_reaches(ranges@[c].value, ops@, ni as nat, keep@, needed@);
        }
        assert forall|c: int| 0 <= c < outputs@.len() implies reaches_kept(#[trigger] outputs@[c].value, ni as nat, ops@, keep@, ops@.len() as int) by {
            lemma_root_reaches(outputs@[c].value, ops@, ni as nat, keep@, needed@);
        }
        assert forall|j: int| 0 <= j < ops@.len() && #[trigger] keep@[j] implies read_by_roots(ops@[j].out, constraints@, ranges@, outputs@)
            || read_by_kept(ops@[j].out, ops@, keep@, j + 1) by {
            let w = ops@[j].out;
            if !read_by_roots(w, constraints@, ranges@, outputs@) {
                assert(needed@.contains(w));
                let k = choose|k: int| 0 <= k < ops@.len() && keep@[k]
                    && (reads_wire(op_lhs((#[trigger] ops@[k]).kind), w) || reads_wire(op_rhs(ops@[k].kind), w));
                lemma_reader_later(ops@, ni as nat, j, k);
            }
        }
    }
    keep
}

/// An operation that reads the output of operation `j` comes after it.
proof fn lemma_reader_later(ops: Seq<Operation>, ni: nat, j: int, k: int)
    requires
        ops_chained(ops, ni),
        0 <= j < ops.len(),
        0 <= k < ops.len(),
        reads_wire(op_lhs(ops[k].kind), ops[j].out) || reads_wire(op_rhs(ops[k].kind), ops[j].out),
    ensures
        j < k,
{
    let w = ops[j].out;
    assert(ni <= ops[j].out);
    let o = if reads_wire(op_lhs(ops[k].kind), w) { op_lhs(ops[k].kind) } else { op_rhs(ops[k].kind) };
    assert(operand_defined_before(o, ni, ops, k));
    let j2 = choose|j2: int| 0 <= j2 < k && j2 < ops.len() && #[trigger] ops[j2].out == w;
    if j2 < j {
        assert(ops[j2].out < ops[j].out);
    } else if j < j2 {
        assert(ops[j].out < ops[j2].out);
    }
}

/// An operand of operation `idx` that is an operation output is the output of an earlier
/// operation, so it is not the output of any operation after `idx`.
proof fn lemma_marked_operand_earlier(ops: Seq<Operation>, ni: nat, idx: int, w: WireId, j: int)
    requires
        ops_chained(ops, ni),
        0 <= idx < j < ops.len(),
        ops[j].out == w,
    ensures
        op_lhs(ops[idx].kind) != Operand::Wire(w),
        op_rhs(ops[idx].kind) != Operand::Wire(w),
{
    assert(ni <= ops[j].out);
    if op_lhs(ops[idx].kind) == Operand::Wire(w) {
        assert(operand_defined_before(op_lhs(ops[idx].kind), ni, ops, idx));
        let j2 = choose|j2: int| 0 <= j2 < idx && j2 < ops.len() && #[trigger] ops[j2].out == w;
        assert(ops[j2].out < ops[j].out);
    }
    if op_rhs(ops[idx].kind) == Operand::Wire(w) {
        assert(operand_defined_before(op_rhs(ops[idx].kind), ni, ops, idx));
        let j2 = choose|j2: int| 0 <= j2 < idx && j2 < ops.len() && #[trigger] ops[j2].out == w;
        assert(ops[j2].out < ops[j].out);
    }
}

proof fn lemma_operand_reaches(o: Operand, ops: Seq<Operation>, ni: nat, keep: Seq<bool>, needed: Set<WireId>, j: int)
    requires
        ops_chained(ops, ni),
        keep.len() == ops.len(),
        0 <= j < ops.len(),
        o == op_lhs(ops[j].kind) || o == op_rhs(ops[j].kind),
        marked(o, needed),
        forall|k: int| 0 <= k < ops.len() ==> (#[trigger] keep[k] <==> needed.contains(ops[k].out)),
    ensures
        reaches_kept(o, ni, ops, keep, j),
{
    assert(operand_defined_before(o, ni, ops, j));
    if let Operand::Wire(w) = o {
        if w >= ni {
            let k = choose|k: int| 0 <= k < j && k < ops.len() && #[trigger] ops[k].out == w;
            assert(keep[k]);
        }
    }
}

proof fn lemma_root_reaches(o: Operand, ops: Seq<Operation>, ni: nat, keep: Seq<bool>, needed: Set<WireId>)
    requires
        keep.len() == ops.len(),
        operand_defined_before(o, ni, ops, ops.len() as int),
        marked(o, needed),
        forall|k: int| 0 <= k < ops.len() ==> (#[trigger] keep[k] <==> needed.contains(ops[k].out)),
    ensures
        reaches_kept(o, ni, ops, keep, ops.len() as int),
{
    if let Operand::Wire(w) = o {
        if w >= ni {
            let k = choose|k: int| 0 <= k < ops.len() && k < ops.len() && #[trigger] ops[k].out == w;
            assert(keep[k]);
        }
    }
}

/// The number of kept operations among the first `j`.
pub open spec fn count_kept(keep: Seq<bool>, j: int) -> nat
    decreases j,
{
    if j <= 0 {
        0
    } else {
        count_kept(keep, j - 1) + if keep[j - 1] {
            1nat
        } else {
            0nat
        }
    }
}

proof fn lemma_count_kept_mono(keep: Seq<bool>, a: int, b: int)
    requires
        0 <= a <= b,
    ensures
        count_kept(keep, a) <= count_kept(keep, b),
        a < b && keep[a] ==> count_kept(keep, a) < count_kept(keep, b),
        count_kept(keep, b) <= b,
    decreases b - a,
{
    if a < b {
        lemma_count_kept_mono(keep, a, b - 1);
        if a == b - 1 {
        }
    } else {
        lemma_count_kept_bound(keep, b);
    }
}

proof fn lemma_count_kept_bound(keep: Seq<bool>, b: int)
    requires
        0 <= b,
    ensures
        count_kept(keep, b) <= b,
    decreases b,
{
    if b > 0 {
        lemma_count_kept_bound(keep, b - 1);
    }
}

/// Some kept operation among the first `n` lands at position `t` of the compacted list.
pub open spec fn kept_at(keep: Seq<bool>, n: int, t: int) -> bool {
    exists|a: int| 0 <= a < n && keep[a] && #[trigger] count_kept(keep, a) == t
}

proof fn lemma_kept_at_grow(keep: Seq<bool>, n: int, t: int)
    requires
        kept_at(keep, n, t),
    ensures
        kept_at(keep, n + 1, t),
{
    let a = choose|a: int| 0 <= a < n && keep[a] && #[trigger] count_kept(keep, a) == t;
    assert(count_kept(keep, a) == t);
}

/// The renumbering: an input wire keeps its number, the output of the `j`-th operation (when
/// kept) becomes `ni + count_kept(keep, j)`.
spec fn remap_state(remap: Map<WireId, WireId>, ops: Seq<Operation>, keep: Seq<bool>, ni: nat, limit: int) -> bool {
    forall|j: int| 0 <= j < limit && #[trigger] keep[j] ==> remap.contains_key(ops[j].out) && remap[ops[j].out] == ni + count_kept(keep, j)
}

/// An operand renumbered: inputs keep their wires, the output of a kept operation `j` moves to
/// `ni + count_kept(keep, j)`.
pub open spec fn remapped(o: Operand, ni: nat, ops: Seq<Operation>, keep: Seq<bool>) -> Operand {
    match o {
        Operand::Const(_) => o,
        Operand::Wire(w) => if w < ni {
            o
        } else {
            Operand::Wire((ni + count_kept(keep, choose|j: int| 0 <= j < ops.len() && #[trigger] ops[j].out == w)) as WireId)
        },
    }
}

/// The kept operation `j`, renumbered.
pub open spec fn remapped_operation(ops: Seq<Operation>, keep: Seq<bool>, ni: nat, j: int) -> Operation {
    Operation {
        out: (ni + count_kept(keep, j)) as WireId,
        kind: op_with(ops[j].kind, remapped(op_lhs(ops[j].kind), ni, ops, keep), remapped(op_rhs(ops[j].kind), ni, ops, keep)),
    }
}

pub open spec fn remapped_constraint(c: Constraint, ni: nat, ops: Seq<Operation>, keep: Seq<bool>) -> Constraint {
    Constraint { lhs: remapped(c.lhs, ni, ops, keep), rhs: remapped(c.rhs, ni, ops, keep) }
}

pub open spec fn remapped_range(c: RangeConstraint, ni: nat, ops: Seq<Operation>, keep: Seq<bool>) -> RangeConstraint {
    RangeConstraint { value: remapped(c.value, ni, ops, keep), ty: c.ty }
}

fn remap_operand(operand: Operand, remap: &HashMap<WireId, WireId>, ni: usize, Ghost(ops): Ghost<Seq<Operation>>, Ghost(keep): Ghost<Seq<bool>>, Ghost(limit): Ghost<int>) -> (r: Operand)
    requires
        reaches_kept(operand, ni as nat, ops, keep, limit),
        remap_state(remap@, ops, keep, ni as nat, limit),
        0 <= limit <= ops.len() == keep.len(),
        ops_chained(ops, ni as nat),
    ensures
        wire_below(r, (ni + count_kept(keep, limit)) as nat),
        operand is Const ==> r == operand,
        r == remapped(operand, ni as nat, ops, keep),
{
    match operand {
        Operand::Const(_) => operand,
        Operand::Wire(wire) => {
            if wire < ni {
                proof {
                    lemma_count_kept_mono(keep, 0, limit);
                }
                Operand::Wire(wire)
            } else {
                let ghost j = choose|j: int| 0 <= j < limit && j < ops.len() && #[trigger] ops[j].out == wire && keep[j];
                proof {
                    lemma_count_kept_mono(keep, j, limit);
                    let j2 = choose|j2: int| 0 <= j2 < ops.len() && #[trigger] ops[j2].out == wire;
                    if j2 < j {
                        assert(ops[j2].out < ops[j].out);
                    } else if j < j2 {
                        assert(ops[j].out < ops[j2].out);
                    }
                }
                match remap.get(&wire) {
                    Some(new_wire) => Operand::Wire(*new_wire),
                    None => operand,
                }
            }
        },
    }
}

/// Simplifies a well-formed circuit: folds constants and algebraic identities, drops operations
/// whose results nothing reads, and renumbers the remaining wires densely. On every assignment of
/// field elements the result succeeds exactly when the circuit does, with the same output values.
pub fn optimize(ir: &CircuitIr) -> (r: CircuitIr)
    requires
        ir_well_formed(*ir),
    ensures
        ir_well_formed(r),
        r.name@ == ir.name@,
        r.public_inputs@ == ir.public_inputs@,
        r.private_inputs@ == ir.private_inputs@,
        r.constraints@.len() == ir.constraints@.len(),
        r.range_constraints@.len() == ir.range_constraints@.len(),
        r.outputs@.len() == ir.outputs@.len(),
        forall|c: int| 0 <= c < r.outputs@.len() ==> (#[trigger] r.outputs@[c]).name@ == ir.outputs@[c].name@,
        r.operations@.len() <= ir.operations@.len(),
        forall|t: int| 0 <= t < r.operations@.len() ==> irreducible(#[trigger] r.operations@[t].kind),
        forall|t: int| 0 <= t < r.operations@.len() ==> #[trigger] output_read(r, t),
        forall|inputs: RuntimeInputs| values_canonical(inputs) ==> #[trigger] same_behaviour(*ir, r, inputs),
{
    let ni = ir.public_inputs.len() + ir.private_inputs.len();
    let (replacements, simplified) = simplify_operations(ir);
    let ghost total = ni + ir.operations@.len();

    let mut constraints: Vec<Constraint> = Vec::new();
    let mut c: usize = 0;
    while c < ir.constraints.len()
        invariant
            c <= ir.constraints@.len(),
            ir_well_formed(*ir),
            ni == ir.public_inputs@.len() + ir.private_inputs@.len(),
            simplify_state(ir.operations@, ni as nat, ir.operations@.len(), replacements@, simplified@),
            total == ni + ir.operations@.len(),
            constraints@.len() == c,
            forall|a: int| 0 <= a < c ==> operand_defined_before(#[trigger] constraints@[a].lhs, ni as nat, simplified@, simplified@.len() as int)
                && operand_defined_before(constraints@[a].rhs, ni as nat, simplified@, simplified@.len() as int),
            forall|a: int| 0 <= a < c ==> #[trigger] constraints@[a] == rewritten_constraint(ir.constraints@[a], replacements@),
        decreases ir.constraints.len() - c,
    {
        let constraint = ir.constraints[c];
        assert(wire_below(ir.constraints@[c as int].lhs, total as nat));
        let lhs = rewrite_operand(constraint.lhs, &replacements);
        let rhs = rewrite_operand(constraint.rhs, &replacements);
        proof {
            lemma_rewritten_defined(constraint.lhs, lhs, ni as nat, ir.operations@.len(), replacements@, simplified@);
            lemma_rewritten_defined(constraint.rhs, rhs, ni as nat, ir.operations@.len(), replacements@, simplified@);
        }
        constraints.push(Constraint { lhs, rhs });
        c = c + 1;
    }
    let mut ranges: Vec<RangeConstraint> = Vec::new();
    let mut c: usize = 0;
    while c < ir.range_constraints.len()
        invariant
            c <= ir.range_constraints@.len(),
            ir_well_formed(*ir),
            ni == ir.public_inputs@.len() + ir.private_inputs@.len(),
            simplify_state(ir.operations@, ni as nat, ir.operations@.len(), replacements@, simplified@),
            total == ni + ir.operations@.len(),
            ranges@.len() == c,
            forall|a: int| 0 <= a < c ==> operand_defined_before(#[trigger] ranges@[a].value, ni as nat, simplified@, simplified@.len() as int),
            forall|a: int| 0 <= a < c ==> #[trigger] ranges@[a] == rewritten_range(ir.range_constraints@[a], replacements@),
        decreases ir.range_constraints.len() - c,
    {
        let range = ir.range_constraints[c];
        assert(wire_below(ir.range_constraints@[c as int].value, total as nat));
        let value = rewrite_operand(range.value, &replacements);
        proof {
            lemma_rewritten_defined(range.value, value, ni as nat, ir.operations@.len(), replacements@, simplified@);
        }
        ranges.push(RangeConstraint { value, ty: range.ty });
        c = c + 1;
    }
    let mut outputs: Vec<Output> = Vec::new();
    let mut c: usize = 0;
    while c < ir.outputs.len()
        invariant
            c <= ir.outputs@.len(),
            ir_well_formed(*ir),
            ni == ir.public_inputs@.len() + ir.private_inputs@.len(),
            simplify_state(ir.operations@, ni as nat, ir.operations@.len(), replacements@, simplified@),
            total == ni + ir.operations@.len(),
            outputs@.len() == c,
            forall|a: int| 0 <= a < c ==> (#[trigger] outputs@[a]).name@ == ir.outputs@[a].name@,
            forall|a: int| 0 <= a < c ==> operand_defined_before(#[trigger] outputs@[a].value, ni as nat, simplified@, simplified@.len() as int),
            forall|a: int| 0 <= a < c ==> (#[trigger] outputs@[a]).value == rewrite_spec(ir.outputs@[a].value, replacements@),
        decreases ir.outputs.len() - c,
    {
        let output = &ir.outputs[c];
        assert(wire_below(ir.outputs@[c as int].value, total as nat));
        let value = rewrite_operand(output.value, &replacements);
        proof {
            lemma_rewritten_defined(output.value, value, ni as nat, ir.operations@.len(), replacements@, simplified@);
        }
        outputs.push(Output { name: output.name.clone(), value });
        c = c + 1;
    }

    let keep = dead_code_eliminate(&simplified, &constraints, &ranges, &outputs, ni);
    let ghost cs = constraints@;
    let ghost rs = ranges@;
    let ghost os = outputs@;
    let r = compact_wires(ir, &simplified, &keep, constraints, ranges, outputs, ni);
    proof {
        assert(optimization_facts(*ir, r, replacements@, simplified@, cs, rs, os, keep@)) by {
            reveal(optimization_facts);
        }
        assert forall|inputs: RuntimeInputs| values_canonical(inputs) implies #[trigger] same_behaviour(*ir, r, inputs) by {
            lemma_optimized_behaviour(*ir, r, replacements@, simplified@, cs, rs, os, keep@, inputs);
        }
        lemma_compacted_ops(r, simplified@, keep@, ni as nat, cs, rs, os);
    }
    r
}

proof fn lemma_rewritten_defined(o: Operand, r: Operand, ni: nat, nops: nat, replacements: Map<WireId, Operand>, simplified: Seq<Operation>)
    requires
        wire_below(o, ni + nops),
        simplify_state(simplified, ni, nops, replacements, simplified) || true,
        forall|w: WireId| #[trigger] replacements.contains_key(w) ==> operand_defined_before(replacements[w], ni, simplified, simplified.len() as int),
        forall|w: nat| ni <= w < ni + nops ==> #[trigger] replacements.contains_key(w as WireId) || defined_before(w, ni, simplified, simplified.len() as int),
        match o {
            Operand::Const(_) => r == o,
            Operand::Wire(w) => if replacements.contains_key(w) {
                r == replacements[w]
            } else {
                r == o
            },
        },
    ensures
        operand_defined_before(r, ni, simplified, simplified.len() as int),
{
    if let Operand::Wire(w) = o {
        if !replacements.contains_key(w) && w >= ni {
            assert(replacements.contains_key(w as nat as WireId) || defined_before(w as nat, ni, simplified, simplified.len() as int));
        }
    }
}

/// Renumbers the kept operations densely after the inputs and rewrites every operand through
/// the renumbering.
fn compact_wires(
    original: &CircuitIr,
    ops: &Vec<Operation>,
    keep: &Vec<bool>,
    constraints: Vec<Constraint>,
    ranges: Vec<RangeConstraint>,
    outputs: Vec<Output>,
    ni: usize,
) -> (r: CircuitIr)
    requires
        ir_well_formed(*original),
        ni == original.public_inputs@.len() + original.private_inputs@.len(),
        ops_chained(ops@, ni as nat),
        keep@.len() == ops@.len(),
        forall|j: int| 0 <= j < ops@.len() && #[trigger] keep@[j] ==> reaches_kept(op_lhs(ops@[j].kind), ni as nat, ops@, keep@, j)
            && reaches_kept(op_rhs(ops@[j].kind), ni as nat, ops@, keep@, j),
        forall|c: int| 0 <= c < constraints@.len() ==> reaches_kept(#[trigger] constraints@[c].lhs, ni as nat, ops@, keep@, ops@.len() as int)
            && reaches_kept(constraints@[c].rhs, ni as nat, ops@, keep@, ops@.len() as int),
        forall|c: int| 0 <= c < ranges@.len() ==> reaches_kept(#[trigger] ranges@[c].value, ni as nat, ops@, keep@, ops@.len() as int),
        forall|c: int| 0 <= c < outputs@.len() ==> reaches_kept(#[trigger] outputs@[c].value, ni as nat, ops@, keep@, ops@.len() as int),
        constraints@.len() == original.constraints@.len(),
        ranges@.len() == original.range_constraints@.len(),
        outputs@.len() == original.outputs@.len(),
        forall|c: int| 0 <= c < outputs@.len() ==> (#[trigger] outputs@[c]).name@ == original.outputs@[c].name@,
        ops@.len() <= original.operations@.len(),
    ensures
        ir_well_formed(r),
        r.name@ == original.name@,
        r.public_inputs@ == original.public_inputs@,
        r.private_inputs@ == original.private_inputs@,
        r.constraints@.len() == original.constraints@.len(),
        r.range_constraints@.len() == original.range_constraints@.len(),
        r.outputs@.len() == original.outputs@.len(),
        forall|c: int| 0 <= c < r.outputs@.len() ==> (#[trigger] r.outputs@[c]).name@ == original.outputs@[c].name@,
        r.operations@.len() <= original.operations@.len(),
        r.operations@.len() == count_kept(keep@, ops@.len() as int),
        forall|j: int| 0 <= j < ops@.len() && #[trigger] keep@[j] ==> r.operations@[count_kept(keep@, j) as int] == remapped_operation(ops@, keep@, ni as nat, j),
        forall|c: int| 0 <= c < r.constraints@.len() ==> #[trigger] r.constraints@[c] == remapped_constraint(constraints@[c], ni as nat, ops@, keep@),
        forall|c: int| 0 <= c < r.range_constraints@.len() ==> #[trigger] r.range_constraints@[c] == remapped_range(ranges@[c], ni as nat, ops@, keep@),
        forall|c: int| 0 <= c < r.outputs@.len() ==> (#[trigger] r.outputs@[c]).value == remapped(outputs@[c].value, ni as nat, ops@, keep@),
        forall|t: int| 0 <= t < r.operations@.len() ==> #[trigger] kept_at(keep@, ops@.len() as int, t),
{
    let mut remap: HashMap<WireId, WireId> = HashMap::new();
    let mut new_ops: Vec<Operation> = Vec::new();
    let mut j: usize = 0;
    while j < ops.len()
        invariant
            j <= ops@.len() == keep@.len(),
            ops_chained(ops@, ni as nat),
            forall|a: int| 0 <= a < ops@.len() && #[trigger] keep@[a] ==> reaches_kept(op_lhs(ops@[a].kind), ni as nat, ops@, keep@, a)
                && reaches_kept(op_rhs(ops@[a].kind), ni as nat, ops@, keep@, a),
            remap_state(remap@, ops@, keep@, ni as nat, j as int),
            forall|w: WireId| #[trigger] remap@.contains_key(w) ==> exists|a: int| 0 <= a < j && #[trigger] ops@[a].out == w,
            new_ops@.len() == count_kept(keep@, j as int),
            forall|t: int| 0 <= t < new_ops@.len() ==> #[trigger] kept_at(keep@, j as int, t),
            forall|a: int| 0 <= a < j && #[trigger] keep@[a] ==> count_kept(keep@, a) < new_ops@.len() && new_ops@[count_kept(keep@, a) as int] == remapped_operation(ops@, keep@, ni as nat, a),
            forall|t: int| 0 <= t < new_ops@.len() ==> {
                &&& (#[trigger] new_ops@[t]).out == ni + t
                &&& wire_below(op_lhs(new_ops@[t].kind), (ni + t) as nat)
                &&& wire_below(op_rhs(new_ops@[t].kind), (ni + t) as nat)
            },
            ni + ops@.len() <= usize::MAX,
        decreases ops.len() - j,
    {
        let operation = ops[j];
        proof {
            lemma_count_kept_mono(keep@, j as int, j as int);
        }
        if keep[j] {
            let lhs = remap_operand(operation.kind.lhs(), &remap, ni, Ghost(ops@), Ghost(keep@), Ghost(j as int));
            let rhs = remap_operand(operation.kind.rhs(), &remap, ni, Ghost(ops@), Ghost(keep@), Ghost(j as int));
            let new_out = ni + new_ops.len();
            let ghost before = remap@;
            remap.insert(operation.out, new_out);
            proof {
                assert forall|a: int| 0 <= a < j + 1 && #[trigger] keep@[a] implies remap@.contains_key(ops@[a].out) && remap@[ops@[a].out] == ni + count_kept(keep@, a) by {
                    if a < j {
                        assert(ops@[a].out < ops@[j as int].out);
                    }
                }
                assert forall|w: WireId| #[trigger] remap@.contains_key(w) implies exists|a: int| 0 <= a < j + 1 && #[trigger] ops@[a].out == w by {
                    if w != operation.out {
                        assert(before.contains_key(w));
                    } else {
                        assert(ops@[j as int].out == w);
                    }
                }
            }
            let ghost prev = new_ops@;
            new_ops.push(Operation { out: new_out, kind: operation.kind.with_operands(lhs, rhs) });
            proof {
                assert forall|t: int| 0 <= t < new_ops@.len() implies {
                    &&& (#[trigger] new_ops@[t]).out == ni + t
                    &&& wire_below(op_lhs(new_ops@[t].kind), (ni + t) as nat)
                    &&& wire_below(op_rhs(new_ops@[t].kind), (ni + t) as nat)
                } by {
                    if t < prev.len() {
                        assert(new_ops@[t] == prev[t]);
                    }
                }
                assert forall|a: int| 0 <= a < j + 1 && #[trigger] keep@[a] implies count_kept(keep@, a) < new_ops@.len() && new_ops@[count_kept(keep@, a) as int] == remapped_operation(ops@, keep@, ni as nat, a) by {
                    if a < j {
                        assert(new_ops@[count_kept(keep@, a) as int] == prev[count_kept(keep@, a) as int]);
                    }
                }
                assert forall|t: int| 0 <= t < new_ops@.len() implies #[trigger] kept_at(keep@, j + 1, t) by {
                    if t == prev.len() {
                        assert(count_kept(keep@, j as int) == t);
                    } else {
                        lemma_kept_at_grow(keep@, j as int, t);
                    }
                }
            }
        } else {
            proof {
                assert forall|a: int| 0 <= a < j + 1 && #[trigger] keep@[a] implies remap@.contains_key(ops@[a].out) && remap@[ops@[a].out] == ni + count_kept(keep@, a) by {
                }
                assert forall|t: int| 0 <= t < new_ops@.len() implies #[trigger] kept_at(keep@, j + 1, t) by {
                    lemma_kept_at_grow(keep@, j as int, t);
                }
            }
        }
        j = j + 1;
    }
    let ghost nk = count_kept(keep@, ops@.len() as int);
    proof {
        lemma_count_kept_mono(keep@, 0, ops@.len() as int);
    }

    let mut new_constraints: Vec<Constraint> = Vec::new();
    let mut c: usize = 0;
    while c < constraints.len()
        invariant
            c <= constraints@.len(),
            remap_state(remap@, ops@, keep@, ni as nat, ops@.len() as int),
            ops@.len() == keep@.len(),
            forall|c: int| 0 <= c < constraints@.len() ==> reaches_kept(#[trigger] constraints@[c].lhs, ni as nat, ops@, keep@, ops@.len() as int)
                && reaches_kept(constraints@[c].rhs, ni as nat, ops@, keep@, ops@.len() as int),
            new_constraints@.len() == c,
            nk == count_kept(keep@, ops@.len() as int),
            forall|a: int| 0 <= a < c ==> wire_below(#[trigger] new_constraints@[a].lhs, (ni + nk) as nat)
                && wire_below(new_constraints@[a].rhs, (ni + nk) as nat),
            forall|a: int| 0 <= a < c ==> #[trigger] new_constraints@[a] == remapped_constraint(constraints@[a], ni as nat, ops@, keep@),
            ops_chained(ops@, ni as nat),
        decreases constraints.len() - c,
    {
        let lhs = remap_operand(constraints[c].lhs, &remap, ni, Ghost(ops@), Ghost(keep@), Ghost(ops@.len() as int));
        let rhs = remap_operand(constraints[c].rhs, &remap, ni, Ghost(ops@), Ghost(keep@), Ghost(ops@.len() as int));
        new_constraints.push(Constraint { lhs, rhs });
        c = c + 1;
    }
    let mut new_ranges: Vec<RangeConstraint> = Vec::new();
    let mut c: usize = 0;
    while c < ranges.len()
        invariant
            c <= ranges@.len(),
            remap_state(remap@, ops@, keep@, ni as nat, ops@.len() as int),
            ops@.len() == keep@.len(),
            forall|c: int| 0 <= c < ranges@.len() ==> reaches_kept(#[trigger] ranges@[c].value, ni as nat, ops@, keep@, ops@.len() as int),
            new_ranges@.len() == c,
            nk == count_kept(keep@, ops@.len() as int),
            forall|a: int| 0 <= a < c ==> wire_below(#[trigger] new_ranges@[a].value, (ni + nk) as nat),
            forall|a: int| 0 <= a < c ==> #[trigger] new_ranges@[a] == remapped_range(ranges@[a], ni as nat, ops@, keep@),
            ops_chained(ops@, ni as nat),
        decreases ranges.len() - c,
    {
        let value = remap_operand(ranges[c].value, &remap, ni, Ghost(ops@), Ghost(keep@), Ghost(ops@.len() as int));
        new_ranges.push(RangeConstraint { value, ty: ranges[c].ty });
        c = c + 1;
    }
    let mut new_outputs: Vec<Output> = Vec::new();
    let mut c: usize = 0;
    while c < outputs.len()
        invariant
            c <= outputs@.len(),
            remap_state(remap@, ops@, keep@, ni as nat, ops@.len() as int),
            ops@.len() == keep@.len(),
            forall|c: int| 0 <= c < outputs@.len() ==> reaches_kept(#[trigger] outputs@[c].value, ni as nat, ops@, keep@, ops@.len() as int),
            new_outputs@.len() == c,
            nk == count_kept(keep@, ops@.len() as int),
            forall|a: int| 0 <= a < c ==> wire_below(#[trigger] new_outputs@[a].value, (ni + nk) as nat),
            forall|a: int| 0 <= a < c ==> (#[trigger] new_outputs@[a]).name@ == outputs@[a].name@,
            forall|a: int| 0 <= a < c ==> (#[trigger] new_outputs@[a]).value == remapped(outputs@[a].value, ni as nat, ops@, keep@),
            ops_chained(ops@, ni as nat),
        decreases outputs.len() - c,
    {
        let value = remap_operand(outputs[c].value, &remap, ni, Ghost(ops@), Ghost(keep@), Ghost(ops@.len() as int));
        new_outputs.push(Output { name: outputs[c].name.clone(), value });
        c = c + 1;
    }
    let next_wire = ni + new_ops.len();
    let r = CircuitIr {
        name: original.name.clone(),
        public_inputs: copy_inputs(&original.public_inputs),
        private_inputs: copy_inputs(&original.private_inputs),
        operations: new_ops,
        constraints: new_constraints,
        range_constraints: new_ranges,
        outputs: new_outputs,
        next_wire,
    };
    r
}

/// The output of a kept operation `j`, renumbered, is the wire `ni + count_kept(keep, j)`.
proof fn lemma_remapped_output(ops: Seq<Operation>, keep: Seq<bool>, ni: nat, j: int)
    requires
        ops_chained(ops, ni),
        keep.len() == ops.len(),
        0 <= j < ops.len(),
    ensures
        remapped(Operand::Wire(ops[j].out), ni, ops, keep) == Operand::Wire((ni + count_kept(keep, j)) as WireId),
{
    let w = ops[j].out;
    assert(ni <= ops[j].out);
    let j2 = choose|j2: int| 0 <= j2 < ops.len() && #[trigger] ops[j2].out == w;
    if j2 < j {
        assert(ops[j2].out < ops[j].out);
    } else if j < j2 {
        assert(ops[j].out < ops[j2].out);
    }
}

/// Renumbering keeps two different wires apart.
proof fn lemma_remapped_injective(o1: Operand, o2: Operand, ni: nat, ops: Seq<Operation>, keep: Seq<bool>, limit: int)
    requires
        ops_chained(ops, ni),
        keep.len() == ops.len(),
        0 <= limit <= ops.len(),
        ni + ops.len() <= usize::MAX,
        reaches_kept(o1, ni, ops, keep, limit),
        reaches_kept(o2, ni, ops, keep, limit),
        o1 is Wire,
        o2 is Wire,
        o1 != o2,
    ensures
        remapped(o1, ni, ops, keep) != remapped(o2, ni, ops, keep),
{
    if let (Operand::Wire(w1), Operand::Wire(w2)) = (o1, o2) {
        if w1 >= ni {
            let j1 = choose|j: int| 0 <= j < limit && j < ops.len() && #[trigger] ops[j].out == w1 && keep[j];
            lemma_remapped_output(ops, keep, ni, j1);
            lemma_count_kept_mono(keep, j1, ops.len() as int);
            if w2 >= ni {
                let j2 = choose|j: int| 0 <= j < limit && j < ops.len() && #[trigger] ops[j].out == w2 && keep[j];
                lemma_remapped_output(ops, keep, ni, j2);
                lemma_count_kept_mono(keep, j2, ops.len() as int);
                if j1 < j2 {
                    lemma_count_kept_mono(keep, j1, j2);
                } else if j2 < j1 {
                    lemma_count_kept_mono(keep, j2, j1);
                }
            }
        } else if w2 >= ni {
            let j2 = choose|j: int| 0 <= j < limit && j < ops.len() && #[trigger] ops[j].out == w2 && keep[j];
            lemma_remapped_output(ops, keep, ni, j2);
            lemma_count_kept_mono(keep, j2, ops.len() as int);
        }
    }
}

/// Renumbering a kept operation that the rewrite rules leave alone gives one they leave alone too.
proof fn lemma_remapped_irreducible(ops: Seq<Operation>, keep: Seq<bool>, ni: nat, a: int)
    requires
        ops_chained(ops, ni),
        keep.len() == ops.len(),
        ni + ops.len() <= usize::MAX,
        0 <= a < ops.len(),
        keep[a],
        irreducible(ops[a].kind),
        reaches_kept(op_lhs(ops[a].kind), ni, ops, keep, a),
        reaches_kept(op_rhs(ops[a].kind), ni, ops, keep, a),
    ensures
        irreducible(remapped_operation(ops, keep, ni, a).kind),
{
    let l = op_lhs(ops[a].kind);
    let r = op_rhs(ops[a].kind);
    if l is Wire && r is Wire && l != r {
        lemma_remapped_injective(l, r, ni, ops, keep, a);
    }
}

/// The compacted operations are the kept ones renumbered: none of them is left to simplify, and
/// each one's output is read by a later operation, a constraint, a range constraint or an output.
proof fn lemma_compacted_ops(
    r: CircuitIr,
    ops: Seq<Operation>,
    keep: Seq<bool>,
    ni: nat,
    cs: Seq<Constraint>,
    rs: Seq<RangeConstraint>,
    os: Seq<Output>,
)
    requires
        ops_chained(ops, ni),
        keep.len() == ops.len(),
        ni + ops.len() <= usize::MAX,
        forall|j: int| 0 <= j < ops.len() ==> irreducible(#[trigger] ops[j].kind),
        forall|j: int| 0 <= j < ops.len() && #[trigger] keep[j] ==> reaches_kept(op_lhs(ops[j].kind), ni, ops, keep, j)
            && reaches_kept(op_rhs(ops[j].kind), ni, ops, keep, j),
        forall|j: int| 0 <= j < ops.len() && #[trigger] keep[j] ==> read_by_roots(ops[j].out, cs, rs, os)
            || read_by_kept(ops[j].out, ops, keep, j + 1),
        r.operations@.len() == count_kept(keep, ops.len() as int),
        forall|j: int| 0 <= j < ops.len() && #[trigger] keep[j] ==> r.operations@[count_kept(keep, j) as int] == remapped_operation(ops, keep, ni, j),
        forall|t: int| 0 <= t < r.operations@.len() ==> #[trigger] kept_at(keep, ops.len() as int, t),
        r.constraints@.len() == cs.len(),
        r.range_constraints@.len() == rs.len(),
        r.outputs@.len() == os.len(),
        forall|c: int| 0 <= c < r.constraints@.len() ==> #[trigger] r.constraints@[c] == remapped_constraint(cs[c], ni, ops, keep),
        forall|c: int| 0 <= c < r.range_constraints@.len() ==> #[trigger] r.range_constraints@[c] == remapped_range(rs[c], ni, ops, keep),
        forall|c: int| 0 <= c < r.outputs@.len() ==> (#[trigger] r.outputs@[c]).value == remapped(os[c].value, ni, ops, keep),
    ensures
        forall|t: int| 0 <= t < r.operations@.len() ==> irreducible(#[trigger] r.operations@[t].kind),
        forall|t: int| 0 <= t < r.operations@.len() ==> #[trigger] output_read(r, t),
{
    assert forall|t: int| 0 <= t < r.operations@.len() implies irreducible(#[trigger] r.operations@[t].kind) && output_read(r, t) by {
        assert(kept_at(keep, ops.len() as int, t));
        let a = choose|a: int| 0 <= a < ops.len() && keep[a] && #[trigger] count_kept(keep, a) == t;
        lemma_remapped_irreducible(ops, keep, ni, a);
        let w = ops[a].out;
        lemma_remapped_output(ops, keep, ni, a);
        let nw = r.operations@[t].out;
        assert(r.operations@[t] == remapped_operation(ops, keep, ni, a));
        assert(remapped(Operand::Wire(w), ni, ops, keep) == Operand::Wire(nw));
        if read_by_roots(w, cs, rs, os) {
            if exists|c: int| 0 <= c < cs.len() && (reads_wire((#[trigger] cs[c]).lhs, w) || reads_wire(cs[c].rhs, w)) {
                let c = choose|c: int| 0 <= c < cs.len() && (reads_wire((#[trigger] cs[c]).lhs, w) || reads_wire(cs[c].rhs, w));
                assert(r.constraints@[c] == remapped_constraint(cs[c], ni, ops, keep));
                assert(reads_wire(r.constraints@[c].lhs, nw) || reads_wire(r.constraints@[c].rhs, nw));
            } else if exists|c: int| 0 <= c < rs.len() && reads_wire((#[trigger] rs[c]).value, w) {
                let c = choose|c: int| 0 <= c < rs.len() && reads_wire((#[trigger] rs[c]).value, w);
                assert(r.range_constraints@[c] == remapped_range(rs[c], ni, ops, keep));
                assert(reads_wire(r.range_constraints@[c].value, nw));
            } else {
                let c = choose|c: int| 0 <= c < os.len() && reads_wire((#[trigger] os[c]).value, w);
                assert(r.outputs@[c].value == remapped(os[c].value, ni, ops, keep));
                assert(reads_wire(r.outputs@[c].value, nw));
            }
        } else {
            let k = choose|k: int| a + 1 <= k < ops.len() && keep[k]
                && (reads_wire(op_lhs((#[trigger] ops[k]).kind), w) || reads_wire(op_rhs(ops[k].kind), w));
            lemma_count_kept_mono(keep, a, k);
            lemma_count_kept_mono(keep, k, ops.len() as int);
            let tk = count_kept(keep, k) as int;
            assert(r.operations@[tk] == remapped_operation(ops, keep, ni, k));
            assert(reads_wire(op_lhs(r.operations@[tk].kind), nw) || reads_wire(op_rhs(r.operations@[tk].kind), nw));
            assert(t + 1 <= tk < r.operations@.len());
        }
    }
}

// ----- what an optimized circuit computes -----------------------------------------------------

/// Each operation's output wire holds its result on the operands read from `w`.
pub open spec fn ops_hold(ops: Seq<Operation>, w: Seq<nat>) -> bool {
    forall|k: int| 0 <= k < ops.len() ==> {
        &&& (#[trigger] ops[k]).out < w.len()
        &&& operand_value(op_lhs(ops[k].kind), w) is Some
        &&& operand_value(op_rhs(ops[k].kind), w) is Some
        &&& w[ops[k].out as int] == apply_op(
            ops[k].kind,
            operand_value(op_lhs(ops[k].kind), w)->0,
            operand_value(op_rhs(ops[k].kind), w)->0,
        )
    }
}

/// Operations numbered right after `ni` inputs, each reading only earlier wires.
pub open spec fn ops_dense(ops: Seq<Operation>, ni: nat) -> bool {
    forall|k: int| 0 <= k < ops.len() ==> {
        &&& #[trigger] ops[k].out == ni + k
        &&& wire_below(op_lhs(ops[k].kind), (ni + k) as nat)
        &&& wire_below(op_rhs(ops[k].kind), (ni + k) as nat)
    }
}

/// Every value of the wire table is a field element.
pub open spec fn wires_canonical(w: Seq<nat>) -> bool {
    forall|x: int| 0 <= x < w.len() ==> #[trigger] w[x] < modulus()
}

/// Running dense operations never fails: every operation's output holds its result, and the
/// other wires keep their values.
pub(crate) proof fn lemma_run_dense(ops: Seq<Operation>, ni: nat, s: Seq<nat>)
    requires
        ops_dense(ops, ni),
        ni + ops.len() <= s.len(),
    ensures
        run_ops(ops, s) is Some,
        run_ops(ops, s)->0.len() == s.len(),
        ops_hold(ops, run_ops(ops, s)->0),
        forall|x: int| 0 <= x < s.len() && (x < ni || x >= ni + ops.len()) ==> #[trigger] run_ops(ops, s)->0[x] == s[x],
    decreases ops.len(),
{
    if ops.len() > 0 {
        let init = ops.drop_last();
        assert forall|k: int| 0 <= k < init.len() implies {
            &&& #[trigger] init[k].out == ni + k
            &&& wire_below(op_lhs(init[k].kind), (ni + k) as nat)
            &&& wire_below(op_rhs(init[k].kind), (ni + k) as nat)
        } by {
            assert(init[k] == ops[k]);
        }
        lemma_run_dense(init, ni, s);
        let w0 = run_ops(init, s)->0;
        let n = ops.len() - 1;
        let op = ops.last();
        assert(op == ops[n]);
        assert(op.out == ni + n);
        assert(operand_value(op_lhs(op.kind), w0) is Some);
        assert(operand_value(op_rhs(op.kind), w0) is Some);
        let v = apply_op(op.kind, operand_value(op_lhs(op.kind), w0)->0, operand_value(op_rhs(op.kind), w0)->0);
        assert(run_ops(ops, s) == Some(w0.update(op.out as int, v)));
        let w = run_ops(ops, s)->0;
        assert forall|k: int| 0 <= k < ops.len() implies {
            &&& (#[trigger] ops[k]).out < w.len()
            &&& operand_value(op_lhs(ops[k].kind), w) is Some
            &&& operand_value(op_rhs(ops[k].kind), w) is Some
            &&& w[ops[k].out as int] == apply_op(
                ops[k].kind,
                operand_value(op_lhs(ops[k].kind), w)->0,
                operand_value(op_rhs(ops[k].kind), w)->0,
            )
        } by {
            if k < n {
                assert(init[k] == ops[k]);
            }
            assert(operand_value(op_lhs(ops[k].kind), w) == operand_value(op_lhs(ops[k].kind), w0));
            assert(operand_value(op_rhs(ops[k].kind), w) == operand_value(op_rhs(ops[k].kind), w0));
        }
    }
}

/// Two tables on which dense operations hold and which agree on the inputs agree on every wire
/// the operations write.
proof fn lemma_ops_hold_unique(ops: Seq<Operation>, ni: nat, w1: Seq<nat>, w2: Seq<nat>)
    requires
        ops_dense(ops, ni),
        ops_hold(ops, w1),
        ops_hold(ops, w2),
        ni + ops.len() <= w1.len(),
        ni + ops.len() <= w2.len(),
        forall|x: int| 0 <= x < ni ==> #[trigger] w1[x] == w2[x],
    ensures
        forall|x: int| 0 <= x < ni + ops.len() ==> #[trigger] w1[x] == w2[x],
    decreases ops.len(),
{
    if ops.len() > 0 {
        let init = ops.drop_last();
        let n = ops.len() - 1;
        assert forall|k: int| 0 <= k < init.len() implies {
            &&& #[trigger] init[k].out == ni + k
            &&& wire_below(op_lhs(init[k].kind), (ni + k) as nat)
            &&& wire_below(op_rhs(init[k].kind), (ni + k) as nat)
        } by {
            assert(init[k] == ops[k]);
        }
        assert forall|k: int| 0 <= k < init.len() implies #[trigger] init[k] == ops[k] by {}
        lemma_ops_hold_unique(init, ni, w1, w2);
        assert(ops[n].out == ni + n);
        assert(operand_value(op_lhs(ops[n].kind), w1) == operand_value(op_lhs(ops[n].kind), w2));
        assert(operand_value(op_rhs(ops[n].kind), w1) == operand_value(op_rhs(ops[n].kind), w2));
    }
}

proof fn lemma_reduce_below(v: int)
    ensures
        reduce(v) < modulus(),
{
    vstd::arithmetic::div_mod::lemma_mod_bound(v, modulus() as int);
}

/// A reduced value is a field element.
pub(crate) proof fn lemma_reduce_below_pub(v: int)
    ensures
        reduce(v) < modulus(),
{
    lemma_reduce_below(v);
}

/// The results of operations are field elements.
proof fn lemma_ops_canonical(ops: Seq<Operation>, ni: nat, w: Seq<nat>)
    requires
        ops_dense(ops, ni),
        ops_hold(ops, w),
        forall|x: int| 0 <= x < ni && x < w.len() ==> #[trigger] w[x] < modulus(),
        w.len() == ni + ops.len(),
    ensures
        wires_canonical(w),
{
    assert forall|x: int| 0 <= x < w.len() implies #[trigger] w[x] < modulus() by {
        if x >= ni {
            let k = x - ni;
            assert(ops[k].out == x);
            let a = operand_value(op_lhs(ops[k].kind), w)->0;
            let b = operand_value(op_rhs(ops[k].kind), w)->0;
            lemma_reduce_below((a + b) as int);
            lemma_reduce_below(a - b);
            lemma_reduce_below((a * b) as int);
        }
    }
}


/// An operation that simplifies to an operand has that operand's value.
proof fn lemma_alias_value(kind: OpKind, alias: Operand, w: Seq<nat>)
    requires
        simplifies_to(kind, Simplified::Alias(alias)),
        operand_value(op_lhs(kind), w) is Some,
        operand_value(op_rhs(kind), w) is Some,
        wires_canonical(w),
    ensures
        operand_value(alias, w) == Some(
            apply_op(kind, operand_value(op_lhs(kind), w)->0, operand_value(op_rhs(kind), w)->0),
        ),
{
    let l = op_lhs(kind);
    let r = op_rhs(kind);
    let a = operand_value(l, w)->0;
    let b = operand_value(r, w)->0;
    crate::field::lemma_reduce_small_value(0);
    if let Operand::Wire(x) = l {
        assert(w[x as int] < modulus());
        crate::field::lemma_reduce_small_value(a);
    }
    if let Operand::Wire(x) = r {
        assert(w[x as int] < modulus());
        crate::field::lemma_reduce_small_value(b);
    }
    assert(a * 0 == 0 && 0 * b == 0 && a * 1 == a && 1 * b == b) by (nonlinear_arith);
}


/// Reading an operand through the aliases does not change its value.
proof fn lemma_rewrite_value(
    ops: Seq<Operation>,
    ni: nat,
    reps: Map<WireId, Operand>,
    simplified: Seq<Operation>,
    w: Seq<nat>,
    o: Operand,
)
    requires
        ops_dense(ops, ni),
        simplified_from(ops, ops.len(), reps, simplified),
        forall|x: WireId| #[trigger] reps.contains_key(x) ==> ni <= x < ni + ops.len(),
        ops_hold(ops, w),
        w.len() == ni + ops.len(),
        wires_canonical(w),
        wire_below(o, (ni + ops.len()) as nat),
    ensures
        operand_value(rewrite_spec(o, reps), w) == operand_value(o, w),
    decreases (match o {
        Operand::Wire(x) => x + 1,
        Operand::Const(_) => 0,
    }),
{
    if let Operand::Wire(x) = o {
        if reps.contains_key(x) {
            let k = x - ni;
            assert(ops[k].out == x);
            let kind = ops[k].kind;
            lemma_rewrite_value(ops, ni, reps, simplified, w, op_lhs(kind));
            lemma_rewrite_value(ops, ni, reps, simplified, w, op_rhs(kind));
            assert(reps.contains_key(ops[k].out));
            let rk = rewritten_kind(kind, reps);
            lemma_alias_value(rk, reps[x], w);
        }
    }
}

/// The operations left after simplification hold on the original wire table.
proof fn lemma_simplified_hold(ops: Seq<Operation>, ni: nat, reps: Map<WireId, Operand>, simplified: Seq<Operation>, w: Seq<nat>)
    requires
        ops_dense(ops, ni),
        simplified_from(ops, ops.len(), reps, simplified),
        forall|x: WireId| #[trigger] reps.contains_key(x) ==> ni <= x < ni + ops.len(),
        ops_hold(ops, w),
        w.len() == ni + ops.len(),
        wires_canonical(w),
    ensures
        ops_hold(simplified, w),
{
    assert forall|j: int| 0 <= j < simplified.len() implies {
        &&& (#[trigger] simplified[j]).out < w.len()
        &&& operand_value(op_lhs(simplified[j].kind), w) is Some
        &&& operand_value(op_rhs(simplified[j].kind), w) is Some
        &&& w[simplified[j].out as int] == apply_op(
            simplified[j].kind,
            operand_value(op_lhs(simplified[j].kind), w)->0,
            operand_value(op_rhs(simplified[j].kind), w)->0,
        )
    } by {
        let a = choose|a: int| 0 <= a < ops.len() && #[trigger] ops[a].out == simplified[j].out
            && !reps.contains_key(ops[a].out) && simplified[j].kind == rewritten_kind(ops[a].kind, reps);
        assert(ops[a].out == ni + a);
        lemma_rewrite_value(ops, ni, reps, simplified, w, op_lhs(ops[a].kind));
        lemma_rewrite_value(ops, ni, reps, simplified, w, op_rhs(ops[a].kind));
    }
}


/// A renumbered operand reads on the new table what the operand read on the old one.
proof fn lemma_remapped_value(
    ops: Seq<Operation>,
    keep: Seq<bool>,
    ni: nat,
    w: Seq<nat>,
    v: Seq<nat>,
    o: Operand,
    limit: int,
)
    requires
        ops_chained(ops, ni),
        ops_hold(ops, w),
        keep.len() == ops.len(),
        0 <= limit <= ops.len(),
        reaches_kept(o, ni, ops, keep, limit),
        ni <= w.len(),
        v.len() == ni + count_kept(keep, ops.len() as int),
        v.len() <= usize::MAX,
        forall|x: int| 0 <= x < ni ==> #[trigger] v[x] == w[x],
        forall|j: int| 0 <= j < limit && #[trigger] keep[j] ==> v[(ni + count_kept(keep, j)) as int] == w[ops[j].out as int],
    ensures
        operand_value(remapped(o, ni, ops, keep), v) == operand_value(o, w),
{
    if let Operand::Wire(x) = o {
        if x >= ni {
            let j = choose|j: int| 0 <= j < limit && j < ops.len() && #[trigger] ops[j].out == x && keep[j];
            let j2 = choose|j2: int| 0 <= j2 < ops.len() && #[trigger] ops[j2].out == x;
            if j2 < j {
                assert(ops[j2].out < ops[j].out);
            } else if j < j2 {
                assert(ops[j].out < ops[j2].out);
            }
            lemma_count_kept_mono(keep, j, ops.len() as int);
            assert(ops[j].out < w.len());
        }
    }
}

/// Each kept operation's renumbered output holds, on the new table, what its output held on the
/// old one.
proof fn lemma_kept_values(
    ops: Seq<Operation>,
    keep: Seq<bool>,
    new_ops: Seq<Operation>,
    ni: nat,
    w: Seq<nat>,
    v: Seq<nat>,
    n: int,
)
    requires
        ops_chained(ops, ni),
        ops_hold(ops, w),
        keep.len() == ops.len(),
        0 <= n <= ops.len(),
        forall|j: int| 0 <= j < ops.len() && #[trigger] keep[j] ==> reaches_kept(op_lhs(ops[j].kind), ni, ops, keep, j)
            && reaches_kept(op_rhs(ops[j].kind), ni, ops, keep, j),
        new_ops.len() == count_kept(keep, ops.len() as int),
        ops_dense(new_ops, ni),
        forall|j: int| 0 <= j < ops.len() && #[trigger] keep[j] ==> new_ops[count_kept(keep, j) as int] == remapped_operation(ops, keep, ni, j),
        ops_hold(new_ops, v),
        ni <= w.len(),
        v.len() == ni + new_ops.len(),
        v.len() <= usize::MAX,
        forall|x: int| 0 <= x < ni ==> #[trigger] v[x] == w[x],
    ensures
        forall|j: int| 0 <= j < n && #[trigger] keep[j] ==> v[(ni + count_kept(keep, j)) as int] == w[ops[j].out as int],
    decreases n,
{
    if n > 0 {
        lemma_kept_values(ops, keep, new_ops, ni, w, v, n - 1);
        let j = n - 1;
        if keep[j] {
            let t = count_kept(keep, j) as int;
            lemma_count_kept_mono(keep, j, ops.len() as int);
            assert(new_ops[t] == remapped_operation(ops, keep, ni, j));
            assert(new_ops[t].out == ni + t);
            let kind = ops[j].kind;
            lemma_remapped_value(ops, keep, ni, w, v, op_lhs(kind), j);
            lemma_remapped_value(ops, keep, ni, w, v, op_rhs(kind), j);
            assert(op_lhs(new_ops[t].kind) == remapped(op_lhs(kind), ni, ops, keep));
            assert(op_rhs(new_ops[t].kind) == remapped(op_rhs(kind), ni, ops, keep));
        }
    }
}


/// Assigning inputs that all sit below `m` onto two tables that agree below `m` succeeds on
/// both or neither, and leaves tables that still agree below `m`.
proof fn lemma_assign_prefix(inputs: Seq<NamedInput>, e: Seq<(String, FieldElement)>, z1: Seq<nat>, z2: Seq<nat>, m: nat)
    requires
        forall|i: int| 0 <= i < inputs.len() ==> (#[trigger] inputs[i]).wire < m,
        m <= z1.len(),
        m <= z2.len(),
        forall|x: int| 0 <= x < m ==> #[trigger] z1[x] == z2[x],
    ensures
        assign_wires(inputs, e, z1) is Some <==> assign_wires(inputs, e, z2) is Some,
        assign_wires(inputs, e, z1) is Some ==> {
            &&& assign_wires(inputs, e, z1)->0.len() == z1.len()
            &&& assign_wires(inputs, e, z2)->0.len() == z2.len()
            &&& forall|x: int| 0 <= x < m ==> #[trigger] assign_wires(inputs, e, z1)->0[x] == assign_wires(inputs, e, z2)->0[x]
        },
    decreases inputs.len(),
{
    if inputs.len() > 0 {
        let init = inputs.drop_last();
        assert forall|i: int| 0 <= i < init.len() implies (#[trigger] init[i]).wire < m by {
            assert(init[i] == inputs[i]);
        }
        lemma_assign_prefix(init, e, z1, z2, m);
        assert(inputs.last() == inputs[inputs.len() - 1]);
    }
}

/// Assigning field elements onto a table of field elements leaves a table of field elements.
pub(crate) proof fn lemma_assign_canonical(inputs: Seq<NamedInput>, e: Seq<(String, FieldElement)>, z: Seq<nat>)
    requires
        forall|i: int| 0 <= i < inputs.len() ==> (#[trigger] inputs[i]).wire < z.len(),
        wires_canonical(z),
        entries_canonical(e),
    ensures
        assign_wires(inputs, e, z) matches Some(w) ==> wires_canonical(w) && w.len() == z.len(),
    decreases inputs.len(),
{
    if inputs.len() > 0 {
        let init = inputs.drop_last();
        assert forall|i: int| 0 <= i < init.len() implies (#[trigger] init[i]).wire < z.len() by {
            assert(init[i] == inputs[i]);
        }
        lemma_assign_canonical(init, e, z);
        assert(inputs.last() == inputs[inputs.len() - 1]);
        let n = inputs.last().name@;
        assert(lookup(e, n) is Some ==> lookup(e, n)->0 < modulus());
    }
}

/// `b` accepts the same assignments as `a`, and exposes the same values.
pub open spec fn same_behaviour(a: CircuitIr, b: CircuitIr, inputs: RuntimeInputs) -> bool {
    &&& execution_succeeds(b, inputs) <==> execution_succeeds(a, inputs)
    &&& execution_succeeds(a, inputs) ==> forall|c: int| 0 <= c < a.outputs@.len() ==> #[trigger] operand_value(
        b.outputs@[c].value,
        final_wires(b, inputs)->0,
    ) == operand_value(a.outputs@[c].value, final_wires(a, inputs)->0)
}


pub open spec fn input_count(ir: CircuitIr) -> nat {
    ir.public_inputs@.len() + ir.private_inputs@.len()
}

/// The old and new wire tables of one assignment, and what the optimization established
/// between them.
#[verifier::opaque]
pub open spec fn tables_related(
    ops: Seq<Operation>,
    ni: nat,
    reps: Map<WireId, Operand>,
    simplified: Seq<Operation>,
    keep: Seq<bool>,
    w: Seq<nat>,
    v: Seq<nat>,
) -> bool {
    &&& ops_dense(ops, ni)
    &&& simplified_from(ops, ops.len(), reps, simplified)
    &&& forall|x: WireId| #[trigger] reps.contains_key(x) ==> ni <= x < ni + ops.len()
    &&& ops_hold(ops, w)
    &&& w.len() == ni + ops.len()
    &&& wires_canonical(w)
    &&& ops_chained(simplified, ni)
    &&& ops_hold(simplified, w)
    &&& keep.len() == simplified.len()
    &&& v.len() == ni + count_kept(keep, simplified.len() as int)
    &&& v.len() <= usize::MAX
    &&& forall|x: int| 0 <= x < ni ==> #[trigger] v[x] == w[x]
    &&& forall|j: int| 0 <= j < simplified.len() && #[trigger] keep[j] ==> v[(ni + count_kept(keep, j)) as int] == w[simplified[j].out as int]
}

/// The operand `o` of the original circuit, rewritten and renumbered, reads on the new table what
/// it read on the old one.
proof fn lemma_root_value(
    ops: Seq<Operation>,
    ni: nat,
    reps: Map<WireId, Operand>,
    simplified: Seq<Operation>,
    keep: Seq<bool>,
    w: Seq<nat>,
    v: Seq<nat>,
    o: Operand,
)
    requires
        tables_related(ops, ni, reps, simplified, keep, w, v),
        wire_below(o, (ni + ops.len()) as nat),
        reaches_kept(rewrite_spec(o, reps), ni, simplified, keep, simplified.len() as int),
    ensures
        operand_value(remapped(rewrite_spec(o, reps), ni, simplified, keep), v) == operand_value(o, w),
{
    reveal(tables_related);
    lemma_rewrite_value(ops, ni, reps, simplified, w, o);
    lemma_remapped_value(simplified, keep, ni, w, v, rewrite_spec(o, reps), simplified.len() as int);
}

/// The rewritten and renumbered constraints hold on the new table exactly when the old ones
/// hold on the old table.
proof fn lemma_constraints_related(
    ops: Seq<Operation>,
    ni: nat,
    reps: Map<WireId, Operand>,
    simplified: Seq<Operation>,
    keep: Seq<bool>,
    w: Seq<nat>,
    v: Seq<nat>,
    old_cs: Seq<Constraint>,
    cs: Seq<Constraint>,
    new_cs: Seq<Constraint>,
)
    requires
        tables_related(ops, ni, reps, simplified, keep, w, v),
        cs.len() == old_cs.len(),
        new_cs.len() == old_cs.len(),
        forall|c: int| 0 <= c < old_cs.len() ==> wire_below(#[trigger] old_cs[c].lhs, (ni + ops.len()) as nat)
            && wire_below(old_cs[c].rhs, (ni + ops.len()) as nat),
        forall|c: int| 0 <= c < cs.len() ==> #[trigger] cs[c] == rewritten_constraint(old_cs[c], reps),
        forall|c: int| 0 <= c < cs.len() ==> reaches_kept(#[trigger] cs[c].lhs, ni, simplified, keep, simplified.len() as int)
            && reaches_kept(cs[c].rhs, ni, simplified, keep, simplified.len() as int),
        forall|c: int| 0 <= c < new_cs.len() ==> #[trigger] new_cs[c] == remapped_constraint(cs[c], ni, simplified, keep),
    ensures
        forall|c: int| 0 <= c < old_cs.len() ==> (constraint_holds(#[trigger] old_cs[c], w) <==> constraint_holds(new_cs[c], v)),
{
    assert forall|c: int| 0 <= c < old_cs.len() implies (constraint_holds(#[trigger] old_cs[c], w) <==> constraint_holds(new_cs[c], v)) by {
        assert(cs[c] == rewritten_constraint(old_cs[c], reps));
        assert(new_cs[c] == remapped_constraint(cs[c], ni, simplified, keep));
        lemma_root_value(ops, ni, reps, simplified, keep, w, v, old_cs[c].lhs);
        lemma_root_value(ops, ni, reps, simplified, keep, w, v, old_cs[c].rhs);
    }
}

/// The rewritten and renumbered range constraints hold on the new table exactly when the old
/// ones hold on the old table.
proof fn lemma_ranges_related(
    ops: Seq<Operation>,
    ni: nat,
    reps: Map<WireId, Operand>,
    simplified: Seq<Operation>,
    keep: Seq<bool>,
    w: Seq<nat>,
    v: Seq<nat>,
    old_rs: Seq<RangeConstraint>,
    rs: Seq<RangeConstraint>,
    new_rs: Seq<RangeConstraint>,
)
    requires
        tables_related(ops, ni, reps, simplified, keep, w, v),
        rs.len() == old_rs.len(),
        new_rs.len() == old_rs.len(),
        forall|c: int| 0 <= c < old_rs.len() ==> wire_below(#[trigger] old_rs[c].value, (ni + ops.len()) as nat),
        forall|c: int| 0 <= c < rs.len() ==> #[trigger] rs[c] == rewritten_range(old_rs[c], reps),
        forall|c: int| 0 <= c < rs.len() ==> reaches_kept(#[trigger] rs[c].value, ni, simplified, keep, simplified.len() as int),
        forall|c: int| 0 <= c < new_rs.len() ==> #[trigger] new_rs[c] == remapped_range(rs[c], ni, simplified, keep),
    ensures
        forall|c: int| 0 <= c < old_rs.len() ==> (range_holds(#[trigger] old_rs[c], w) <==> range_holds(new_rs[c], v)),
{
    assert forall|c: int| 0 <= c < old_rs.len() implies (range_holds(#[trigger] old_rs[c], w) <==> range_holds(new_rs[c], v)) by {
        assert(rs[c] == rewritten_range(old_rs[c], reps));
        assert(new_rs[c] == remapped_range(rs[c], ni, simplified, keep));
        lemma_root_value(ops, ni, reps, simplified, keep, w, v, old_rs[c].value);
    }
}

/// The rewritten and renumbered outputs read on the new table what the old ones read on the old
/// table.
proof fn lemma_outputs_related(
    ops: Seq<Operation>,
    ni: nat,
    reps: Map<WireId, Operand>,
    simplified: Seq<Operation>,
    keep: Seq<bool>,
    w: Seq<nat>,
    v: Seq<nat>,
    old_os: Seq<Output>,
    os: Seq<Output>,
    new_os: Seq<Output>,
)
    requires
        tables_related(ops, ni, reps, simplified, keep, w, v),
        os.len() == old_os.len(),
        new_os.len() == old_os.len(),
        forall|c: int| 0 <= c < old_os.len() ==> wire_below(#[trigger] old_os[c].value, (ni + ops.len()) as nat),
        forall|c: int| 0 <= c < os.len() ==> (#[trigger] os[c]).value == rewrite_spec(old_os[c].value, reps),
        forall|c: int| 0 <= c < os.len() ==> reaches_kept(#[trigger] os[c].value, ni, simplified, keep, simplified.len() as int),
        forall|c: int| 0 <= c < new_os.len() ==> (#[trigger] new_os[c]).value == remapped(os[c].value, ni, simplified, keep),
    ensures
        forall|c: int| 0 <= c < old_os.len() ==> #[trigger] operand_value(new_os[c].value, v) == operand_value(old_os[c].value, w),
{
    assert forall|c: int| 0 <= c < old_os.len() implies #[trigger] operand_value(new_os[c].value, v) == operand_value(old_os[c].value, w) by {
        assert(os[c].value == rewrite_spec(old_os[c].value, reps));
        lemma_root_value(ops, ni, reps, simplified, keep, w, v, old_os[c].value);
    }
}

/// The assignment's input tables of two circuits with the same inputs both exist or both do
/// not, agree on the input wires, and hold field elements.
proof fn lemma_input_tables(ir: CircuitIr, r: CircuitIr, inputs: RuntimeInputs)
    requires
        ir_well_formed(ir),
        ir_well_formed(r),
        r.public_inputs@ == ir.public_inputs@,
        r.private_inputs@ == ir.private_inputs@,
        values_canonical(inputs),
    ensures
        input_wires(ir, inputs) is Some <==> input_wires(r, inputs) is Some,
        input_wires(ir, inputs) is Some ==> {
            &&& input_wires(ir, inputs)->0.len() == ir.next_wire
            &&& input_wires(r, inputs)->0.len() == r.next_wire
            &&& wires_canonical(input_wires(ir, inputs)->0)
            &&& forall|x: int| 0 <= x < input_count(ir) ==> #[trigger] input_wires(ir, inputs)->0[x] == input_wires(r, inputs)->0[x]
        },
{
    let ni = input_count(ir);
    let za = Seq::new(ir.next_wire as nat, |i: int| 0nat);
    let zb = Seq::new(r.next_wire as nat, |i: int| 0nat);
    assert forall|i: int| 0 <= i < ir.public_inputs@.len() implies (#[trigger] ir.public_inputs@[i]).wire < ni by {}
    assert forall|i: int| 0 <= i < ir.private_inputs@.len() implies (#[trigger] ir.private_inputs@[i]).wire < ni by {}
    lemma_assign_prefix(ir.public_inputs@, inputs.public_entries(), za, zb, ni);
    lemma_assign_canonical(ir.public_inputs@, inputs.public_entries(), za);
    if let Some(a1) = assign_wires(ir.public_inputs@, inputs.public_entries(), za) {
        let b1 = assign_wires(ir.public_inputs@, inputs.public_entries(), zb)->0;
        lemma_assign_prefix(ir.private_inputs@, inputs.private_entries(), a1, b1, ni);
        lemma_assign_canonical(ir.private_inputs@, inputs.private_entries(), a1);
    }
}

/// What one optimization run establishes about the aliases and the operations left, the
/// rewritten constraints, range constraints and outputs, the kept flags and the renumbered
/// circuit.
#[verifier::opaque]
spec fn optimization_facts(
    ir: CircuitIr,
    r: CircuitIr,
    reps: Map<WireId, Operand>,
    simplified: Seq<Operation>,
    cs: Seq<Constraint>,
    rs: Seq<RangeConstraint>,
    os: Seq<Output>,
    keep: Seq<bool>,
) -> bool {
    &&& ir_well_formed(ir)
    &&& ir_well_formed(r)
    &&& r.public_inputs@ == ir.public_inputs@
    &&& r.private_inputs@ == ir.private_inputs@
    &&& simplify_state(ir.operations@, input_count(ir), ir.operations@.len(), reps, simplified)
    &&& simplified_from(ir.operations@, ir.operations@.len(), reps, simplified)
    &&& cs.len() == ir.constraints@.len()
    &&& forall|c: int| 0 <= c < cs.len() ==> #[trigger] cs[c] == rewritten_constraint(ir.constraints@[c], reps)
    &&& rs.len() == ir.range_constraints@.len()
    &&& forall|c: int| 0 <= c < rs.len() ==> #[trigger] rs[c] == rewritten_range(ir.range_constraints@[c], reps)
    &&& os.len() == ir.outputs@.len()
    &&& forall|c: int| 0 <= c < os.len() ==> (#[trigger] os[c]).value == rewrite_spec(ir.outputs@[c].value, reps)
    &&& keep.len() == simplified.len()
    &&& forall|j: int| 0 <= j < simplified.len() && #[trigger] keep[j] ==> reaches_kept(op_lhs(simplified[j].kind), input_count(ir), simplified, keep, j) && reaches_kept(op_rhs(simplified[j].kind), input_count(ir), simplified, keep, j)
    &&& forall|c: int| 0 <= c < cs.len() ==> reaches_kept(#[trigger] cs[c].lhs, input_count(ir), simplified, keep, simplified.len() as int) && reaches_kept(cs[c].rhs, input_count(ir), simplified, keep, simplified.len() as int)
    &&& forall|c: int| 0 <= c < rs.len() ==> reaches_kept(#[trigger] rs[c].value, input_count(ir), simplified, keep, simplified.len() as int)
    &&& forall|c: int| 0 <= c < os.len() ==> reaches_kept(#[trigger] os[c].value, input_count(ir), simplified, keep, simplified.len() as int)
    &&& r.operations@.len() == count_kept(keep, simplified.len() as int)
    &&& forall|j: int| 0 <= j < simplified.len() && #[trigger] keep[j] ==> r.operations@[count_kept(keep, j) as int] == remapped_operation(simplified, keep, input_count(ir), j)
    &&& r.constraints@.len() == cs.len()
    &&& forall|c: int| 0 <= c < r.constraints@.len() ==> #[trigger] r.constraints@[c] == remapped_constraint(cs[c], input_count(ir), simplified, keep)
    &&& r.range_constraints@.len() == rs.len()
    &&& forall|c: int| 0 <= c < r.range_constraints@.len() ==> #[trigger] r.range_constraints@[c] == remapped_range(rs[c], input_count(ir), simplified, keep)
    &&& r.outputs@.len() == os.len()
    &&& forall|c: int| 0 <= c < r.outputs@.len() ==> (#[trigger] r.outputs@[c]).value == remapped(os[c].value, input_count(ir), simplified, keep)
}

/// On an assignment whose input tables exist, the rewritten and renumbered constraints, range
/// constraints and outputs of the new circuit read what the old ones read.
#[verifier::spinoff_prover]
#[verifier::rlimit(60)]
proof fn lemma_runs_related(
    ir: CircuitIr,
    r: CircuitIr,
    reps: Map<WireId, Operand>,
    simplified: Seq<Operation>,
    cs: Seq<Constraint>,
    rs: Seq<RangeConstraint>,
    os: Seq<Output>,
    keep: Seq<bool>,
    inputs: RuntimeInputs,
)
    requires
        ir_well_formed(ir),
        ir_well_formed(r),
        r.public_inputs@ == ir.public_inputs@,
        r.private_inputs@ == ir.private_inputs@,
        optimization_facts(ir, r, reps, simplified, cs, rs, os, keep),
        values_canonical(inputs),
        input_wires(ir, inputs) is Some,
    ensures
        final_wires(ir, inputs) is Some,
        final_wires(r, inputs) is Some,
        r.constraints@.len() == ir.constraints@.len(),
        r.range_constraints@.len() == ir.range_constraints@.len(),
        r.outputs@.len() == ir.outputs@.len(),
        forall|c: int| 0 <= c < ir.constraints@.len() ==> (constraint_holds(#[trigger] ir.constraints@[c], final_wires(ir, inputs)->0)
            <==> constraint_holds(r.constraints@[c], final_wires(r, inputs)->0)),
        forall|c: int| 0 <= c < ir.range_constraints@.len() ==> (range_holds(#[trigger] ir.range_constraints@[c], final_wires(ir, inputs)->0)
            <==> range_holds(r.range_constraints@[c], final_wires(r, inputs)->0)),
        forall|c: int| 0 <= c < ir.outputs@.len() ==> #[trigger] operand_value(r.outputs@[c].value, final_wires(r, inputs)->0)
            == operand_value(ir.outputs@[c].value, final_wires(ir, inputs)->0),
{
    reveal(optimization_facts);
    let ni = input_count(ir);
    let ops = ir.operations@;
    lemma_input_tables(ir, r, inputs);
    let sa = input_wires(ir, inputs)->0;
    let sb = input_wires(r, inputs)->0;
    assert(ops_dense(ops, ni));
    assert(ops_dense(r.operations@, ni));
    lemma_run_dense(ops, ni, sa);
    lemma_run_dense(r.operations@, ni, sb);
    let w = run_ops(ops, sa)->0;
    let v = run_ops(r.operations@, sb)->0;
    assert(final_wires(ir, inputs) == Some(w));
    assert(final_wires(r, inputs) == Some(v));
    assert forall|x: int| 0 <= x < ni && x < w.len() implies #[trigger] w[x] < modulus() by {
        assert(w[x] == sa[x]);
    }
    lemma_ops_canonical(ops, ni, w);
    lemma_simplified_hold(ops, ni, reps, simplified, w);
    assert forall|x: int| 0 <= x < ni implies #[trigger] v[x] == w[x] by {
        assert(v[x] == sb[x] && w[x] == sa[x]);
    }
    lemma_kept_values(simplified, keep, r.operations@, ni, w, v, simplified.len() as int);
    assert(tables_related(ops, ni, reps, simplified, keep, w, v)) by {
        reveal(tables_related);
    }
    lemma_constraints_related(ops, ni, reps, simplified, keep, w, v, ir.constraints@, cs, r.constraints@);
    lemma_ranges_related(ops, ni, reps, simplified, keep, w, v, ir.range_constraints@, rs, r.range_constraints@);
    lemma_outputs_related(ops, ni, reps, simplified, keep, w, v, ir.outputs@, os, r.outputs@);
}

/// What one optimization run gathered (the aliases and the operations left, the rewritten
/// constraints, range constraints and outputs, the kept flags and the renumbered circuit) makes
/// the new circuit behave as the old one on every assignment of field elements.
proof fn lemma_optimized_behaviour(
    ir: CircuitIr,
    r: CircuitIr,
    reps: Map<WireId, Operand>,
    simplified: Seq<Operation>,
    cs: Seq<Constraint>,
    rs: Seq<RangeConstraint>,
    os: Seq<Output>,
    keep: Seq<bool>,
    inputs: RuntimeInputs,
)
    requires
        ir_well_formed(ir),
        ir_well_formed(r),
        r.public_inputs@ == ir.public_inputs@,
        r.private_inputs@ == ir.private_inputs@,
        optimization_facts(ir, r, reps, simplified, cs, rs, os, keep),
        values_canonical(inputs),
    ensures
        same_behaviour(ir, r, inputs),
{
    lemma_input_tables(ir, r, inputs);
    assert(assignments_declared(ir, inputs) == assignments_declared(r, inputs));
    if input_wires(ir, inputs) is Some {
        lemma_runs_related(ir, r, reps, simplified, cs, rs, os, keep, inputs);
        let w = final_wires(ir, inputs)->0;
        let v = final_wires(r, inputs)->0;
        assert((forall|c: int| 0 <= c < ir.constraints@.len() ==> constraint_holds(#[trigger] ir.constraints@[c], w))
            <==> (forall|c: int| 0 <= c < r.constraints@.len() ==> constraint_holds(#[trigger] r.constraints@[c], v))) by {
            if forall|c: int| 0 <= c < ir.constraints@.len() ==> constraint_holds(#[trigger] ir.constraints@[c], w) {
                assert forall|c: int| 0 <= c < r.constraints@.len() implies constraint_holds(#[trigger] r.constraints@[c], v) by {
                    assert(constraint_holds(ir.constraints@[c], w));
                }
            }
            if forall|c: int| 0 <= c < r.constraints@.len() ==> constraint_holds(#[trigger] r.constraints@[c], v) {
                assert forall|c: int| 0 <= c < ir.constraints@.len() implies constraint_holds(#[trigger] ir.constraints@[c], w) by {
                    assert(constraint_holds(r.constraints@[c], v));
                }
            }
        }
        assert((forall|c: int| 0 <= c < ir.range_constraints@.len() ==> range_holds(#[trigger] ir.range_constraints@[c], w))
            <==> (forall|c: int| 0 <= c < r.range_constraints@.len() ==> range_holds(#[trigger] r.range_constraints@[c], v))) by {
            if forall|c: int| 0 <= c < ir.range_constraints@.len() ==> range_holds(#[trigger] ir.range_constraints@[c], w) {
                assert forall|c: int| 0 <= c < r.range_constraints@.len() implies range_holds(#[trigger] r.range_constraints@[c], v) by {
                    assert(range_holds(ir.range_constraints@[c], w));
                }
            }
            if forall|c: int| 0 <= c < r.range_constraints@.len() ==> range_holds(#[trigger] r.range_constraints@[c], v) {
                assert forall|c: int| 0 <= c < ir.range_constraints@.len() implies range_holds(#[trigger] ir.range_constraints@[c], w) by {
                    assert(range_holds(r.range_constraints@[c], v));
                }
            }
        }
        assert((forall|c: int| 0 <= c < ir.outputs@.len() ==> operand_value(#[trigger] ir.outputs@[c].value, w) is Some)
            <==> (forall|c: int| 0 <= c < r.outputs@.len() ==> operand_value(#[trigger] r.outputs@[c].value, v) is Some)) by {
            if forall|c: int| 0 <= c < ir.outputs@.len() ==> operand_value(#[trigger] ir.outputs@[c].value, w) is Some {
                assert forall|c: int| 0 <= c < r.outputs@.len() implies operand_value(#[trigger] r.outputs@[c].value, v) is Some by {
                    assert(operand_value(r.outputs@[c].value, v) == operand_value(ir.outputs@[c].value, w));
                }
            }
            if forall|c: int| 0 <= c < r.outputs@.len() ==> operand_value(#[trigger] r.outputs@[c].value, v) is Some {
                assert forall|c: int| 0 <= c < ir.outputs@.len() implies operand_value(#[trigger] ir.outputs@[c].value, w) is Some by {
                    assert(operand_value(r.outputs@[c].value, v) == operand_value(ir.outputs@[c].value, w));
                }
            }
        }
    } else {
        assert(final_wires(ir, inputs) is None);
        assert(final_wires(r, inputs) is None);
    }
}
} // verus!
