//! Size statistics of a circuit: inputs, outputs, constraints, wires, operations by kind and
//! operands by kind.
use vstd::prelude::*;

use crate::ir::{CircuitIr, Constraint, OpKind, Operand, Operation, Output, RangeConstraint};
use crate::text::{decimal, push_decimal, push_escaped, push_str, escape, to_owned};

verus! {

#[derive(Debug, PartialEq, Eq)]
pub struct CircuitReport {
    pub name: String,
    pub public_inputs: usize,
    pub private_inputs: usize,
    pub outputs: usize,
    pub constraints: usize,
    pub range_constraints: usize,
    pub wires: usize,
    pub operations: OperationCounts,
    pub constant_operands: usize,
    pub wire_operands: usize,
}

#[derive(Debug, Clone, Copy, PartialEq, Eq, Structural)]
pub struct OperationCounts {
    pub add: usize,
    pub sub: usize,
    pub mul: usize,
}

impl Default for OperationCounts {
    fn default() -> (r: OperationCounts)
        ensures
            r.add == 0 && r.sub == 0 && r.mul == 0,
    {
        OperationCounts { add: 0, sub: 0, mul: 0 }
    }
}

impl OperationCounts {
    /// The number of operations of every kind together.
    pub fn total(self) -> (r: usize)
        requires
            self.add + self.sub + self.mul <= usize::MAX,
        ensures
            r == self.add + self.sub + self.mul,
    {
        self.add + self.sub + self.mul
    }
}

/// How many operations are additions (0), subtractions (1) or multiplications (2).
pub open spec fn count_kind(ops: Seq<Operation>, kind: nat) -> nat
    decreases ops.len(),
{
    if ops.len() == 0 {
        0
    } else {
        let here: nat = match ops.last().kind {
            OpKind::Add(_, _) => if kind == 0 { 1 } else { 0 },
            OpKind::Sub(_, _) => if kind == 1 { 1 } else { 0 },
            OpKind::Mul(_, _) => if kind == 2 { 1 } else { 0 },
        };
        count_kind(ops.drop_last(), kind) + here
    }
}

/// Every operand a circuit reads, in order: operations' two operands, constraints' two sides,
/// range constraints' values, outputs' values.
pub open spec fn operation_operands(ops: Seq<Operation>) -> Seq<Operand>
    decreases ops.len(),
{
    if ops.len() == 0 {
        Seq::empty()
    } else {
        operation_operands(ops.drop_last()) + seq![
            crate::ir::op_lhs(ops.last().kind),
            crate::ir::op_rhs(ops.last().kind),
        ]
    }
}

pub open spec fn constraint_operands(cs: Seq<Constraint>) -> Seq<Operand>
    decreases cs.len(),
{
    if cs.len() == 0 {
        Seq::empty()
    } else {
        constraint_operands(cs.drop_last()) + seq![cs.last().lhs, cs.last().rhs]
    }
}

pub open spec fn circuit_operands(ir: CircuitIr) -> Seq<Operand> {
    operation_operands(ir.operations@) + constraint_operands(ir.constraints@)
        + ir.range_constraints@.map_values(|c: RangeConstraint| c.value)
        + ir.outputs@.map_values(|o: Output| o.value)
}

/// How many of the operands are constants.
pub open spec fn count_consts(operands: Seq<Operand>) -> nat
    decreases operands.len(),
{
    if operands.len() == 0 {
        0
    } else {
        count_consts(operands.drop_last()) + if operands.last() is Const { 1nat } else { 0nat }
    }
}

/// The report of a circuit.
pub open spec fn report_of(ir: CircuitIr, r: CircuitReport) -> bool {
    &&& r.name@ == ir.name@
    &&& r.public_inputs == ir.public_inputs@.len()
    &&& r.private_inputs == ir.private_inputs@.len()
    &&& r.outputs == ir.outputs@.len()
    &&& r.constraints == ir.constraints@.len()
    &&& r.range_constraints == ir.range_constraints@.len()
    &&& r.wires == ir.next_wire
    &&& r.operations.add == count_kind(ir.operations@, 0)
    &&& r.operations.sub == count_kind(ir.operations@, 1)
    &&& r.operations.mul == count_kind(ir.operations@, 2)
    &&& r.constant_operands == count_consts(circuit_operands(ir))
    &&& r.wire_operands == circuit_operands(ir).len() - count_consts(circuit_operands(ir))
}

proof fn lemma_count_kinds_bounded(ops: Seq<Operation>)
    ensures
        count_kind(ops, 0) + count_kind(ops, 1) + count_kind(ops, 2) == ops.len(),
    decreases ops.len(),
{
    if ops.len() > 0 {
        lemma_count_kinds_bounded(ops.drop_last());
    }
}

proof fn lemma_count_consts_push(s: Seq<Operand>, o: Operand)
    ensures
        count_consts(s.push(o)) == count_consts(s) + if o is Const { 1nat } else { 0nat },
        count_consts(s) <= s.len(),
    decreases s.len(),
{
    assert(s.push(o).drop_last() =~= s);
    if s.len() > 0 {
        lemma_count_consts_push(s.drop_last(), s.last());
        assert(s.drop_last().push(s.last()) =~= s);
    }
}

/// Counts operations by kind and operands by kind.
///
/// The operand total must fit in `usize`.
pub fn analyze(ir: &CircuitIr) -> (r: CircuitReport)
    requires
        2 * ir.operations@.len() + 2 * ir.constraints@.len() + ir.range_constraints@.len()
            + ir.outputs@.len() <= usize::MAX,
    ensures
        report_of(*ir, r),
{
    let mut operations = OperationCounts::default();
    let mut constant_operands: usize = 0;
    let mut wire_operands: usize = 0;
    let ghost mut seen: Seq<Operand> = Seq::empty();
    let mut k: usize = 0;
    while k < ir.operations.len()
        invariant
            k <= ir.operations@.len(),
            2 * ir.operations@.len() + 2 * ir.constraints@.len() + ir.range_constraints@.len()
                + ir.outputs@.len() <= usize::MAX,
            operations.add == count_kind(ir.operations@.subrange(0, k as int), 0),
            operations.sub == count_kind(ir.operations@.subrange(0, k as int), 1),
            operations.mul == count_kind(ir.operations@.subrange(0, k as int), 2),
            seen == operation_operands(ir.operations@.subrange(0, k as int)),
            seen.len() == 2 * k,
            constant_operands == count_consts(seen),
            wire_operands == seen.len() - count_consts(seen),
        decreases ir.operations.len() - k,
    {
        let operation = ir.operations[k];
        proof {
            let done = ir.operations@.subrange(0, k + 1);
            assert(done.drop_last() =~= ir.operations@.subrange(0, k as int));
            lemma_count_kinds_bounded(ir.operations@.subrange(0, k as int));
        }
        let (lhs, rhs) = match operation.kind {
            OpKind::Add(lhs, rhs) => {
                operations.add = operations.add + 1;
                (lhs, rhs)
            },
            OpKind::Sub(lhs, rhs) => {
                operations.sub = operations.sub + 1;
                (lhs, rhs)
            },
            OpKind::Mul(lhs, rhs) => {
                operations.mul = operations.mul + 1;
                (lhs, rhs)
            },
        };
        proof {
            lemma_count_consts_push(seen, lhs);
            lemma_count_consts_push(seen.push(lhs), rhs);
        }
        count_operand(lhs, &mut constant_operands, &mut wire_operands);
        count_operand(rhs, &mut constant_operands, &mut wire_operands);
        proof {
            assert(seen.push(lhs).push(rhs) =~= seen + seq![lhs, rhs]);
            seen = seen.push(lhs).push(rhs);
        }
        k = k + 1;
    }
    assert(ir.operations@.subrange(0, k as int) =~= ir.operations@);
    let ghost ops_part = seen;
    let mut c: usize = 0;
    while c < ir.constraints.len()
        invariant
            c <= ir.constraints@.len(),
            2 * ir.operations@.len() + 2 * ir.constraints@.len() + ir.range_constraints@.len()
                + ir.outputs@.len() <= usize::MAX,
            seen == ops_part + constraint_operands(ir.constraints@.subrange(0, c as int)),
            seen.len() == 2 * ir.operations@.len() + 2 * c,
            constant_operands == count_consts(seen),
            wire_operands == seen.len() - count_consts(seen),
        decreases ir.constraints.len() - c,
    {
        let constraint = ir.constraints[c];
        proof {
            let done = ir.constraints@.subrange(0, c + 1);
            assert(done.drop_last() =~= ir.constraints@.subrange(0, c as int));
            lemma_count_consts_push(seen, constraint.lhs);
            lemma_count_consts_push(seen.push(constraint.lhs), constraint.rhs);
        }
        count_operand(constraint.lhs, &mut constant_operands, &mut wire_operands);
        count_operand(constraint.rhs, &mut constant_operands, &mut wire_operands);
        proof {
            assert(seen.push(constraint.lhs).push(constraint.rhs) =~= ops_part + constraint_operands(
                ir.constraints@.subrange(0, c + 1),
            ));
            seen = seen.push(constraint.lhs).push(constraint.rhs);
        }
        c = c + 1;
    }
    assert(ir.constraints@.subrange(0, c as int) =~= ir.constraints@);
    let ghost before_ranges = seen;
    let mut a: usize = 0;
    while a < ir.range_constraints.len()
        invariant
            a <= ir.range_constraints@.len(),
            2 * ir.operations@.len() + 2 * ir.constraints@.len() + ir.range_constraints@.len()
                + ir.outputs@.len() <= usize::MAX,
            seen == before_ranges + ir.range_constraints@.subrange(0, a as int).map_values(|c: RangeConstraint| c.value),
            before_ranges.len() == 2 * ir.operations@.len() + 2 * ir.constraints@.len(),
            seen.len() == before_ranges.len() + a,
            constant_operands == count_consts(seen),
            wire_operands == seen.len() - count_consts(seen),
        decreases ir.range_constraints.len() - a,
    {
        let value = ir.range_constraints[a].value;
        proof {
            lemma_count_consts_push(seen, value);
        }
        count_operand(value, &mut constant_operands, &mut wire_operands);
        proof {
            assert(seen.push(value) =~= before_ranges + ir.range_constraints@.subrange(0, a + 1).map_values(
                |c: RangeConstraint| c.value,
            ));
            seen = seen.push(value);
        }
        a = a + 1;
    }
    assert(ir.range_constraints@.subrange(0, a as int) =~= ir.range_constraints@);
    let ghost before_outputs = seen;
    let mut o: usize = 0;
    while o < ir.outputs.len()
        invariant
            o <= ir.outputs@.len(),
            2 * ir.operations@.len() + 2 * ir.constraints@.len() + ir.range_constraints@.len()
                + ir.outputs@.len() <= usize::MAX,
            seen == before_outputs + ir.outputs@.subrange(0, o as int).map_values(|x: Output| x.value),
            before_outputs.len() == 2 * ir.operations@.len() + 2 * ir.constraints@.len() + ir.range_constraints@.len(),
            seen.len() == before_outputs.len() + o,
            constant_operands == count_consts(seen),
            wire_operands == seen.len() - count_consts(seen),
        decreases ir.outputs.len() - o,
    {
        let value = ir.outputs[o].value;
        proof {
            lemma_count_consts_push(seen, value);
        }
        count_operand(value, &mut constant_operands, &mut wire_operands);
        proof {
            assert(seen.push(value) =~= before_outputs + ir.outputs@.subrange(0, o + 1).map_values(|x: Output| x.value));
            seen = seen.push(value);
        }
        o = o + 1;
    }
    assert(ir.outputs@.subrange(0, o as int) =~= ir.outputs@);
    assert(seen =~= circuit_operands(*ir));
    CircuitReport {
        name: ir.name.clone(),
        public_inputs: ir.public_inputs.len(),
        private_inputs: ir.private_inputs.len(),
        outputs: ir.outputs.len(),
        constraints: ir.constraints.len(),
        range_constraints: ir.range_constraints.len(),
        wires: ir.next_wire,
        operations,
        constant_operands,
        wire_operands,
    }
}

fn count_operand(operand: Operand, constant_operands: &mut usize, wire_operands: &mut usize)
    requires
        *old(constant_operands) + *old(wire_operands) < usize::MAX,
    ensures
        operand is Const ==> *final(constant_operands) == *old(constant_operands) + 1
            && *final(wire_operands) == *old(wire_operands),
        operand is Wire ==> *final(wire_operands) == *old(wire_operands) + 1
            && *final(constant_operands) == *old(constant_operands),
{
    match operand {
        Operand::Const(_) => *constant_operands = *constant_operands + 1,
        Operand::Wire(_) => *wire_operands = *wire_operands + 1,
    }
}

/// The JSON document of a report.
pub open spec fn report_json(r: CircuitReport) -> Seq<char> {
    "{\"name\":\""@ + escape(r.name@) + "\",\"public_inputs\":"@ + decimal(r.public_inputs as nat)
        + ",\"private_inputs\":"@ + decimal(r.private_inputs as nat) + ",\"outputs\":"@ + decimal(r.outputs as nat)
        + ",\"constraints\":"@ + decimal(r.constraints as nat) + ",\"range_constraints\":"@
        + decimal(r.range_constraints as nat) + ",\"wires\":"@ + decimal(r.wires as nat)
        + ",\"operations\":{\"add\":"@ + decimal(r.operations.add as nat) + ",\"sub\":"@
        + decimal(r.operations.sub as nat) + ",\"mul\":"@ + decimal(r.operations.mul as nat) + ",\"total\":"@
        + decimal((r.operations.add + r.operations.sub + r.operations.mul) as nat)
        + "},\"operands\":{\"constant\":"@ + decimal(r.constant_operands as nat) + ",\"wire\":"@
        + decimal(r.wire_operands as nat) + "}}"@
}

/// The text summary of a report.
pub open spec fn report_text(r: CircuitReport) -> Seq<char> {
    "circuit analysis for "@ + r.name@ + "\ninputs: public="@ + decimal(r.public_inputs as nat) + " private="@
        + decimal(r.private_inputs as nat) + "\noutputs: "@ + decimal(r.outputs as nat) + "\nconstraints: "@
        + decimal(r.constraints as nat) + "\nrange constraints: "@ + decimal(r.range_constraints as nat)
        + "\nwires: "@ + decimal(r.wires as nat) + "\noperations: add="@ + decimal(r.operations.add as nat)
        + " sub="@ + decimal(r.operations.sub as nat) + " mul="@ + decimal(r.operations.mul as nat) + " total="@
        + decimal((r.operations.add + r.operations.sub + r.operations.mul) as nat) + "\noperands: const="@
        + decimal(r.constant_operands as nat) + " wire="@ + decimal(r.wire_operands as nat) + "\n"@
}

impl CircuitReport {
    /// The report as JSON; the operation total is computed here.
    pub fn to_json(&self) -> (s: String)
        requires
            self.operations.add + self.operations.sub + self.operations.mul <= usize::MAX,
        ensures
            s@ == report_json(*self),
    {
        let mut out = to_owned("{\"name\":\"");
        push_escaped(&mut out, self.name.as_str());
        push_str(&mut out, "\",\"public_inputs\":");
        push_decimal(&mut out, self.public_inputs as u128);
        push_str(&mut out, ",\"private_inputs\":");
        push_decimal(&mut out, self.private_inputs as u128);
        push_str(&mut out, ",\"outputs\":");
        push_decimal(&mut out, self.outputs as u128);
        push_str(&mut out, ",\"constraints\":");
        push_decimal(&mut out, self.constraints as u128);
        push_str(&mut out, ",\"range_constraints\":");
        push_decimal(&mut out, self.range_constraints as u128);
        push_str(&mut out, ",\"wires\":");
        push_decimal(&mut out, self.wires as u128);
        push_str(&mut out, ",\"operations\":{\"add\":");
        push_decimal(&mut out, self.operations.add as u128);
        push_str(&mut out, ",\"sub\":");
        push_decimal(&mut out, self.operations.sub as u128);
        push_str(&mut out, ",\"mul\":");
        push_decimal(&mut out, self.operations.mul as u128);
        push_str(&mut out, ",\"total\":");
        push_decimal(&mut out, self.operations.total() as u128);
        push_str(&mut out, "},\"operands\":{\"constant\":");
        push_decimal(&mut out, self.constant_operands as u128);
        push_str(&mut out, ",\"wire\":");
        push_decimal(&mut out, self.wire_operands as u128);
        push_str(&mut out, "}}");
        out
    }

    /// The report as lines of text; the operation total is computed here.
    pub fn to_text(&self) -> (s: String)
        requires
            self.operations.add + self.operations.sub + self.operations.mul <= usize::MAX,
        ensures
            s@ == report_text(*self),
    {
        let mut out = to_owned("circuit analysis for ");
        push_str(&mut out, self.name.as_str());
        push_str(&mut out, "\ninputs: public=");
        push_decimal(&mut out, self.public_inputs as u128);
        push_str(&mut out, " private=");
        push_decimal(&mut out, self.private_inputs as u128);
        push_str(&mut out, "\noutputs: ");
        push_decimal(&mut out, self.outputs as u128);
        push_str(&mut out, "\nconstraints: ");
        push_decimal(&mut out, self.constraints as u128);
        push_str(&mut out, "\nrange constraints: ");
        push_decimal(&mut out, self.range_constraints as u128);
        push_str(&mut out, "\nwires: ");
        push_decimal(&mut out, self.wires as u128);
        push_str(&mut out, "\noperations: add=");
        push_decimal(&mut out, self.operations.add as u128);
        push_str(&mut out, " sub=");
        push_decimal(&mut out, self.operations.sub as u128);
        push_str(&mut out, " mul=");
        push_decimal(&mut out, self.operations.mul as u128);
        push_str(&mut out, " total=");
        push_decimal(&mut out, self.operations.total() as u128);
        push_str(&mut out, "\noperands: const=");
        push_decimal(&mut out, self.constant_operands as u128);
        push_str(&mut out, " wire=");
        push_decimal(&mut out, self.wire_operands as u128);
        push_str(&mut out, "\n");
        out
    }
}

/// Every report that `analyze` gives counts each operation exactly once.
pub proof fn lemma_operation_total(ir: CircuitIr, r: CircuitReport)
    requires
        report_of(ir, r),
    ensures
        r.operations.add + r.operations.sub + r.operations.mul == ir.operations@.len(),
        r.constant_operands + r.wire_operands == circuit_operands(ir).len(),
{
    lemma_count_kinds_bounded(ir.operations@);
    lemma_count_consts_bounded(circuit_operands(ir));
}

proof fn lemma_count_consts_bounded(s: Seq<Operand>)
    ensures
        count_consts(s) <= s.len(),
    decreases s.len(),
{
    if s.len() > 0 {
        lemma_count_consts_bounded(s.drop_last());
    }
}

proof fn lemma_operand_lengths(ops: Seq<Operation>, cs: Seq<Constraint>)
    ensures
        operation_operands(ops).len() == 2 * ops.len(),
        constraint_operands(cs).len() == 2 * cs.len(),
    decreases ops.len() + cs.len(),
{
    if ops.len() > 0 {
        lemma_operand_lengths(ops.drop_last(), cs);
    }
    if cs.len() > 0 {
        lemma_operand_lengths(ops, cs.drop_last());
    }
}

/// In a report, the counts of additions, subtractions and multiplications add up to the number of
/// operations, and the constant and wire operand counts add up to every operand the circuit reads.
pub proof fn lemma_report_totals(ir: CircuitIr, r: CircuitReport)
    requires
        report_of(ir, r),
    ensures
        r.operations.add + r.operations.sub + r.operations.mul == ir.operations@.len(),
        r.constant_operands + r.wire_operands == 2 * ir.operations@.len() + 2 * ir.constraints@.len()
            + ir.range_constraints@.len() + ir.outputs@.len(),
{
    lemma_count_kinds_bounded(ir.operations@);
    lemma_operand_lengths(ir.operations@, ir.constraints@);
    lemma_count_consts_le(circuit_operands(ir));
}

proof fn lemma_count_consts_le(s: Seq<Operand>)
    ensures
        count_consts(s) <= s.len(),
    decreases s.len(),
{
    if s.len() > 0 {
        lemma_count_consts_le(s.drop_last());
    }
}

} // verus!
