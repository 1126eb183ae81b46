//! The interpreter: executes a lowered circuit on a witness assignment and records every
//! resolved value.
use vstd::prelude::*;

use crate::ast::{type_bits, Type};
use crate::error::{RuntimeError, RuntimeResult};
use crate::eval::{lookup, RuntimeInputs};
use crate::field::{field_add, field_mul, field_sub, fits_bits, FieldElement};
use crate::ir::{
    op_lhs, op_rhs, CircuitIr, Constraint, NamedInput, OpKind, Operand, Operation, Output,
    RangeConstraint,
};
use crate::text::{push_decimal, push_str, to_owned};

verus! {

#[derive(Debug, PartialEq, Eq)]
pub struct NamedValue {
    pub name: String,
    pub value: FieldElement,
}

#[derive(Debug, Clone, Copy, PartialEq, Eq)]
pub struct WireValue {
    pub wire: usize,
    pub value: FieldElement,
}

#[derive(Debug, Clone, Copy, PartialEq, Eq)]
pub struct ResolvedOperand {
    pub operand: Operand,
    pub value: FieldElement,
}

#[derive(Debug, Clone, Copy, PartialEq, Eq)]
pub struct OperationTrace {
    pub out: usize,
    pub opcode: &'static str,
    pub lhs: ResolvedOperand,
    pub rhs: ResolvedOperand,
    pub value: FieldElement,
}

#[derive(Debug, Clone, Copy, PartialEq, Eq)]
pub struct ConstraintTrace {
    pub index: usize,
    pub lhs: ResolvedOperand,
    pub rhs: ResolvedOperand,
    pub satisfied: bool,
}

#[derive(Debug, Clone, Copy, PartialEq, Eq)]
pub struct RangeConstraintTrace {
    pub index: usize,
    pub value: ResolvedOperand,
    pub ty: Type,
    pub satisfied: bool,
}

#[derive(Debug, PartialEq, Eq)]
pub struct OutputTrace {
    pub name: String,
    pub source: Operand,
    pub value: FieldElement,
}

#[derive(Debug, PartialEq, Eq)]
pub struct WitnessTrace {
    pub circuit: String,
    pub backend: &'static str,
    pub field_modulus: &'static str,
    pub public_inputs: Vec<NamedValue>,
    pub private_inputs: Vec<NamedValue>,
    pub wires: Vec<WireValue>,
    pub operations: Vec<OperationTrace>,
    pub constraints: Vec<ConstraintTrace>,
    pub range_constraints: Vec<RangeConstraintTrace>,
    pub outputs: Vec<OutputTrace>,
}

impl Clone for NamedValue {
    fn clone(&self) -> (r: NamedValue)
        ensures
            r == *self,
    {
        NamedValue { name: self.name.clone(), value: self.value }
    }
}

impl Clone for OutputTrace {
    fn clone(&self) -> (r: OutputTrace)
        ensures
            r == *self,
    {
        OutputTrace { name: self.name.clone(), source: self.source, value: self.value }
    }
}

/// The value an operand reads from a wire table; `None` for a wire past its end.
pub open spec fn operand_value(o: Operand, wires: Seq<nat>) -> Option<nat> {
    match o {
        Operand::Const(c) => Some(c@),
        Operand::Wire(w) => if w < wires.len() {
            Some(wires[w as int])
        } else {
            None
        },
    }
}

/// The result of an arithmetic operation on two field values.
pub open spec fn apply_op(k: OpKind, a: nat, b: nat) -> nat {
    match k {
        OpKind::Add(_, _) => field_add(a, b),
        OpKind::Sub(_, _) => field_sub(a, b),
        OpKind::Mul(_, _) => field_mul(a, b),
    }
}

pub open spec fn opcode_of(k: OpKind) -> Seq<char> {
    match k {
        OpKind::Add(_, _) => "add"@,
        OpKind::Sub(_, _) => "sub"@,
        OpKind::Mul(_, _) => "mul"@,
    }
}

/// Writes the assigned value of each input onto its wire, in order; `None` when an input has no
/// assignment.
pub open spec fn assign_wires(inputs: Seq<NamedInput>, entries: Seq<(String, FieldElement)>, wires: Seq<
    nat,
>) -> Option<Seq<nat>>
    decreases inputs.len(),
{
    if inputs.len() == 0 {
        Some(wires)
    } else {
        match assign_wires(inputs.drop_last(), entries, wires) {
            None => None,
            Some(w) => match lookup(entries, inputs.last().name@) {
                None => None,
                Some(v) => Some(w.update(inputs.last().wire as int, v)),
            },
        }
    }
}

/// Assigning inputs depends on the assignment only through the values their names look up.
pub(crate) proof fn lemma_assign_wires_agree(
    inputs: Seq<NamedInput>,
    e1: Seq<(String, FieldElement)>,
    e2: Seq<(String, FieldElement)>,
    wires: Seq<nat>,
)
    requires
        forall|i: int| 0 <= i < inputs.len() ==> lookup(e1, (#[trigger] inputs[i]).name@) == lookup(e2, inputs[i].name@),
    ensures
        assign_wires(inputs, e1, wires) == assign_wires(inputs, e2, wires),
    decreases inputs.len(),
{
    if inputs.len() > 0 {
        let init = inputs.drop_last();
        assert forall|i: int| 0 <= i < init.len() implies lookup(e1, (#[trigger] init[i]).name@) == lookup(e2, init[i].name@) by {
            assert(init[i] == inputs[i]);
        }
        lemma_assign_wires_agree(init, e1, e2, wires);
        assert(inputs.last() == inputs[inputs.len() - 1]);
    }
}

/// Evaluates the operations in order; `None` when an operand reads past the wire table.
pub open spec fn run_ops(ops: Seq<Operation>, wires: Seq<nat>) -> Option<Seq<nat>>
    decreases ops.len(),
{
    if ops.len() == 0 {
        Some(wires)
    } else {
        match run_ops(ops.drop_last(), wires) {
            None => None,
            Some(w) => {
                let op = ops.last();
                match (operand_value(op_lhs(op.kind), w), operand_value(op_rhs(op.kind), w)) {
                    (Some(a), Some(b)) => Some(w.update(op.out as int, apply_op(op.kind, a, b))),
                    _ => None,
                }
            },
        }
    }
}

/// The wire table after inputs are assigned and every operation is evaluated.
pub open spec fn final_wires(ir: CircuitIr, inputs: RuntimeInputs) -> Option<Seq<nat>> {
    let zeros = Seq::new(ir.next_wire as nat, |i: int| 0nat);
    match assign_wires(ir.public_inputs@, inputs.public_entries(), zeros) {
        None => None,
        Some(w1) => match assign_wires(ir.private_inputs@, inputs.private_entries(), w1) {
            None => None,
            Some(w2) => run_ops(ir.operations@, w2),
        },
    }
}

pub open spec fn declares_input(ir: CircuitIr, name: Seq<char>) -> bool {
    (exists|i: int| 0 <= i < ir.public_inputs@.len() && #[trigger] ir.public_inputs@[i].name@ == name)
        || (exists|i: int| 0 <= i < ir.private_inputs@.len() && #[trigger] ir.private_inputs@[i].name@ == name)
}

/// Every assigned name is an input of the circuit.
pub open spec fn assignments_declared(ir: CircuitIr, inputs: RuntimeInputs) -> bool {
    &&& forall|i: int| 0 <= i < inputs.public_entries().len() ==> declares_input(ir, #[trigger] inputs.public_entries()[i].0@)
    &&& forall|i: int| 0 <= i < inputs.private_entries().len() ==> declares_input(ir, #[trigger] inputs.private_entries()[i].0@)
}

pub open spec fn constraint_holds(c: Constraint, wires: Seq<nat>) -> bool {
    &&& operand_value(c.lhs, wires) is Some
    &&& operand_value(c.rhs, wires) is Some
    &&& operand_value(c.lhs, wires) == operand_value(c.rhs, wires)
}

pub open spec fn range_bits(ty: Type) -> nat {
    match type_bits(ty) {
        Some(b) => b as nat,
        None => 0,
    }
}

pub open spec fn range_holds(c: RangeConstraint, wires: Seq<nat>) -> bool {
    &&& operand_value(c.value, wires) is Some
    &&& fits_bits(operand_value(c.value, wires)->0, range_bits(c.ty))
}

/// Execution succeeds: the assignment names only inputs and covers all of them, every operand
/// reads an existing wire, and every constraint and range constraint holds.
pub open spec fn execution_succeeds(ir: CircuitIr, inputs: RuntimeInputs) -> bool {
    &&& assignments_declared(ir, inputs)
    &&& final_wires(ir, inputs) is Some
    &&& forall|c: int| 0 <= c < ir.constraints@.len() ==> constraint_holds(#[trigger] ir.constraints@[c], final_wires(ir, inputs)->0)
    &&& forall|c: int| 0 <= c < ir.range_constraints@.len() ==> range_holds(#[trigger] ir.range_constraints@[c], final_wires(ir, inputs)->0)
    &&& forall|c: int| 0 <= c < ir.outputs@.len() ==> operand_value(#[trigger] ir.outputs@[c].value, final_wires(ir, inputs)->0) is Some
}

/// Input wires and operation outputs lie inside the wire table (the interpreter writes to them).
pub open spec fn writes_in_range(ir: CircuitIr) -> bool {
    &&& forall|i: int| 0 <= i < ir.public_inputs@.len() ==> #[trigger] ir.public_inputs@[i].wire < ir.next_wire
    &&& forall|i: int| 0 <= i < ir.private_inputs@.len() ==> #[trigger] ir.private_inputs@[i].wire < ir.next_wire
    &&& forall|k: int| 0 <= k < ir.operations@.len() ==> #[trigger] ir.operations@[k].out < ir.next_wire
}

pub open spec fn wire_values(wires: Seq<FieldElement>) -> Seq<nat> {
    wires.map_values(|v: FieldElement| v@)
}

/// The recorded assignment of each input: its name and the value assigned to it.
pub open spec fn named_values_match(values: Seq<NamedValue>, inputs: Seq<NamedInput>, entries: Seq<(String, FieldElement)>) -> bool {
    &&& values.len() == inputs.len()
    &&& forall|i: int| 0 <= i < values.len() ==> {
        &&& #[trigger] values[i].name@ == inputs[i].name@
        &&& lookup(entries, inputs[i].name@) == Some(values[i].value@)
    }
}

fn resolve_operand(operand: Operand, wires: &Vec<FieldElement>) -> (r: RuntimeResult<ResolvedOperand>)
    ensures
        r is Ok <==> operand_value(operand, wire_values(wires@)) is Some,
        r matches Ok(res) ==> res.operand == operand && Some(res.value@) == operand_value(operand, wire_values(wires@)),
{
    match operand {
        Operand::Const(value) => Ok(ResolvedOperand { operand, value }),
        Operand::Wire(id) => {
            if id < wires.len() {
                Ok(ResolvedOperand { operand, value: wires[id] })
            } else {
                let mut message = to_owned("missing value for wire w");
                push_decimal(&mut message, id as u128);
                Err(RuntimeError::new(message))
            }
        },
    }
}

fn apply_operation(kind: &OpKind, lhs: FieldElement, rhs: FieldElement) -> (r: FieldElement)
    ensures
        r@ == apply_op(*kind, lhs@, rhs@),
{
    match kind {
        OpKind::Add(_, _) => lhs.add(rhs),
        OpKind::Sub(_, _) => lhs.sub(rhs),
        OpKind::Mul(_, _) => lhs.mul(rhs),
    }
}

fn opcode_name(kind: &OpKind) -> (r: &'static str)
    ensures
        r@ == opcode_of(*kind),
{
    match kind {
        OpKind::Add(_, _) => "add",
        OpKind::Sub(_, _) => "sub",
        OpKind::Mul(_, _) => "mul",
    }
}


/// The value recorded for `name` (the first entry with that name).
fn find_value(entries: &Vec<(String, FieldElement)>, name: &String) -> (r: Option<FieldElement>)
    ensures
        match r {
            Some(v) => lookup(entries@, name@) == Some(v@),
            None => lookup(entries@, name@) is None,
        },
{
    let mut k: usize = 0;
    assert(entries@.subrange(0, entries@.len() as int) =~= entries@);
    while k < entries.len()
        invariant
            k <= entries@.len(),
            lookup(entries@, name@) == lookup(entries@.subrange(k as int, entries@.len() as int), name@),
        decreases entries.len() - k,
    {
        let ghost rest = entries@.subrange(k as int, entries@.len() as int);
        assert(rest[0] == entries@[k as int]);
        if entries[k].0 == *name {
            return Some(entries[k].1);
        }
        assert(rest.drop_first() =~= entries@.subrange(k + 1, entries@.len() as int));
        k = k + 1;
    }
    None
}

fn declares(ir: &CircuitIr, name: &String) -> (r: bool)
    ensures
        r == declares_input(*ir, name@),
{
    let mut i: usize = 0;
    while i < ir.public_inputs.len()
        invariant
            i <= ir.public_inputs@.len(),
            forall|a: int| 0 <= a < i ==> #[trigger] ir.public_inputs@[a].name@ != name@,
        decreases ir.public_inputs.len() - i,
    {
        if ir.public_inputs[i].name == *name {
            return true;
        }
        i = i + 1;
    }
    let mut j: usize = 0;
    while j < ir.private_inputs.len()
        invariant
            j <= ir.private_inputs@.len(),
            forall|a: int| 0 <= a < ir.public_inputs@.len() ==> #[trigger] ir.public_inputs@[a].name@ != name@,
            forall|a: int| 0 <= a < j ==> #[trigger] ir.private_inputs@[a].name@ != name@,
        decreases ir.private_inputs.len() - j,
    {
        if ir.private_inputs[j].name == *name {
            return true;
        }
        j = j + 1;
    }
    false
}

fn unexpected_error(name: &String) -> (e: RuntimeError)
    ensures
        e.message@ == "unexpected input assignment `"@ + name@ + "`"@,
{
    let mut message = to_owned("unexpected input assignment `");
    push_str(&mut message, name.as_str());
    push_str(&mut message, "`");
    RuntimeError::new(message)
}

/// The message for an assignment to a name that is no input.
pub open spec fn unexpected_message(name: Seq<char>) -> Seq<char> {
    "unexpected input assignment `"@ + name + "`"@
}

/// Every assignment in `entries` names an input of `ir`.
pub open spec fn all_declared(ir: CircuitIr, entries: Seq<(String, FieldElement)>) -> bool {
    forall|i: int| 0 <= i < entries.len() ==> declares_input(ir, #[trigger] entries[i].0@)
}

/// Entry `i` is the first of `entries` that names no input of `ir`.
pub open spec fn first_undeclared(ir: CircuitIr, entries: Seq<(String, FieldElement)>, i: int) -> bool {
    &&& 0 <= i < entries.len()
    &&& !declares_input(ir, entries[i].0@)
    &&& forall|j: int| 0 <= j < i ==> declares_input(ir, #[trigger] entries[j].0@)
}

/// `message` names the first assignment to an undeclared input: public assignments are checked
/// before private ones.
pub open spec fn undeclared_reported(ir: CircuitIr, inputs: RuntimeInputs, message: Seq<char>) -> bool {
    ||| exists|i: int| #[trigger] first_undeclared(ir, inputs.public_entries(), i)
        && message == unexpected_message(inputs.public_entries()[i].0@)
    ||| all_declared(ir, inputs.public_entries()) && exists|i: int| #[trigger] first_undeclared(ir, inputs.private_entries(), i)
        && message == unexpected_message(inputs.private_entries()[i].0@)
}

/// Every input has an assignment in `entries`.
pub open spec fn all_assigned(inputs: Seq<NamedInput>, entries: Seq<(String, FieldElement)>) -> bool {
    forall|i: int| 0 <= i < inputs.len() ==> lookup(entries, (#[trigger] inputs[i]).name@) is Some
}

/// `message` names the first input, in declaration order, that has no assignment.
pub open spec fn missing_reported(inputs: Seq<NamedInput>, entries: Seq<(String, FieldElement)>, visibility: Seq<char>, message: Seq<char>) -> bool {
    exists|i: int|
        0 <= i < inputs.len() && lookup(entries, (#[trigger] inputs[i]).name@) is None
            && (forall|j: int| 0 <= j < i ==> lookup(entries, (#[trigger] inputs[j]).name@) is Some)
            && message == "missing "@ + visibility + " input `"@ + inputs[i].name@ + "`"@
}

/// The message for a constraint that does not hold.
pub open spec fn constraint_failure_message(index: nat, lhs: nat, rhs: nat) -> Seq<char> {
    "constraint failed at #"@ + crate::text::decimal(index) + ": "@ + crate::text::decimal(lhs) + " != "@ + crate::text::decimal(rhs)
}

/// Every constraint's operands can be read from `w`.
pub open spec fn constraints_resolvable(cs: Seq<Constraint>, w: Seq<nat>) -> bool {
    forall|c: int| 0 <= c < cs.len() ==> operand_value((#[trigger] cs[c]).lhs, w) is Some && operand_value(cs[c].rhs, w) is Some
}

/// Constraint `c` is the first that does not hold on `w`.
pub open spec fn first_failed_constraint(cs: Seq<Constraint>, w: Seq<nat>, c: int) -> bool {
    &&& 0 <= c < cs.len()
    &&& !constraint_holds(cs[c], w)
    &&& forall|j: int| 0 <= j < c ==> constraint_holds(#[trigger] cs[j], w)
}

/// The message for a range constraint that does not hold.
pub open spec fn range_failure_message(index: nat, value: nat, ty: Type) -> Seq<char> {
    "range check failed at #"@ + crate::text::decimal(index) + ": "@ + crate::text::decimal(value) + " is not in "@
        + crate::ast::spelling(ty)
}

/// Every range constraint's operand can be read from `w`.
pub open spec fn ranges_resolvable(rs: Seq<RangeConstraint>, w: Seq<nat>) -> bool {
    forall|c: int| 0 <= c < rs.len() ==> operand_value((#[trigger] rs[c]).value, w) is Some
}

/// Range constraint `c` is the first that does not hold on `w`.
pub open spec fn first_failed_range(rs: Seq<RangeConstraint>, w: Seq<nat>, c: int) -> bool {
    &&& 0 <= c < rs.len()
    &&& !range_holds(rs[c], w)
    &&& forall|j: int| 0 <= j < c ==> range_holds(#[trigger] rs[j], w)
}

/// What a failed run reports: the first assignment to an undeclared input; else the first
/// public, then private, input without an assignment; else, where every constraint can be read,
/// the first constraint that does not hold, with its index and both values; else, where every
/// constraint holds and every range constraint can be read, the first range constraint that does
/// not hold, with its index, value and type.
pub open spec fn failure_reported(ir: CircuitIr, inputs: RuntimeInputs, message: Seq<char>) -> bool {
    &&& !assignments_declared(ir, inputs) ==> undeclared_reported(ir, inputs, message)
    &&& assignments_declared(ir, inputs) && !all_assigned(ir.public_inputs@, inputs.public_entries())
        ==> missing_reported(ir.public_inputs@, inputs.public_entries(), "public"@, message)
    &&& assignments_declared(ir, inputs) && all_assigned(ir.public_inputs@, inputs.public_entries())
        && !all_assigned(ir.private_inputs@, inputs.private_entries())
        ==> missing_reported(ir.private_inputs@, inputs.private_entries(), "private"@, message)
    &&& forall|c: int|
        assignments_declared(ir, inputs) && final_wires(ir, inputs) is Some
            && constraints_resolvable(ir.constraints@, final_wires(ir, inputs)->0)
            && #[trigger] first_failed_constraint(ir.constraints@, final_wires(ir, inputs)->0, c)
            ==> message == constraint_failure_message(
                c as nat,
                operand_value(ir.constraints@[c].lhs, final_wires(ir, inputs)->0)->0,
                operand_value(ir.constraints@[c].rhs, final_wires(ir, inputs)->0)->0,
            )
    &&& forall|c: int|
        assignments_declared(ir, inputs) && final_wires(ir, inputs) is Some
            && (forall|k: int| 0 <= k < ir.constraints@.len() ==> constraint_holds(#[trigger] ir.constraints@[k], final_wires(ir, inputs)->0))
            && ranges_resolvable(ir.range_constraints@, final_wires(ir, inputs)->0)
            && #[trigger] first_failed_range(ir.range_constraints@, final_wires(ir, inputs)->0, c)
            ==> message == range_failure_message(
                c as nat,
                operand_value(ir.range_constraints@[c].value, final_wires(ir, inputs)->0)->0,
                ir.range_constraints@[c].ty,
            )
}

fn validate_input_names(ir: &CircuitIr, inputs: &RuntimeInputs) -> (r: RuntimeResult<()>)
    ensures
        r is Ok <==> assignments_declared(*ir, *inputs),
        r matches Err(e) ==> undeclared_reported(*ir, *inputs, e.message@),
{
    let public = inputs.public_values();
    let private = inputs.private_values();
    let mut i: usize = 0;
    while i < public.len()
        invariant
            i <= public@.len(),
            public@ == inputs.public_entries(),
            forall|a: int| 0 <= a < i ==> declares_input(*ir, #[trigger] public@[a].0@),
        decreases public.len() - i,
    {
        if !declares(ir, &public[i].0) {
            proof {
                assert(first_undeclared(*ir, inputs.public_entries(), i as int));
            }
            return Err(unexpected_error(&public[i].0));
        }
        i = i + 1;
    }
    let mut j: usize = 0;
    while j < private.len()
        invariant
            j <= private@.len(),
            public@ == inputs.public_entries(),
            private@ == inputs.private_entries(),
            forall|a: int| 0 <= a < public@.len() ==> declares_input(*ir, #[trigger] public@[a].0@),
            forall|a: int| 0 <= a < j ==> declares_input(*ir, #[trigger] private@[a].0@),
        decreases private.len() - j,
    {
        if !declares(ir, &private[j].0) {
            proof {
                assert(all_declared(*ir, inputs.public_entries()));
                assert(first_undeclared(*ir, inputs.private_entries(), j as int));
            }
            return Err(unexpected_error(&private[j].0));
        }
        j = j + 1;
    }
    Ok(())
}

fn assign_inputs(
    inputs: &Vec<NamedInput>,
    provided: &Vec<(String, FieldElement)>,
    wires: &mut Vec<FieldElement>,
    visibility: &str,
) -> (r: RuntimeResult<Vec<NamedValue>>)
    requires
        forall|i: int| 0 <= i < inputs@.len() ==> #[trigger] inputs@[i].wire < old(wires)@.len(),
    ensures
        final(wires)@.len() == old(wires)@.len(),
        r is Ok <==> assign_wires(inputs@, provided@, wire_values(old(wires)@)) is Some,
        r is Ok ==> assign_wires(inputs@, provided@, wire_values(old(wires)@)) == Some(wire_values(final(wires)@)),
        r matches Ok(values) ==> named_values_match(values@, inputs@, provided@),
        r is Ok ==> all_assigned(inputs@, provided@),
        r matches Err(e) ==> missing_reported(inputs@, provided@, visibility@, e.message@),
{
    let ghost w0 = wire_values(wires@);
    let mut assigned: Vec<NamedValue> = Vec::new();
    let mut i: usize = 0;
    while i < inputs.len()
        invariant
            i <= inputs@.len(),
            wires@.len() == old(wires)@.len(),
            forall|a: int| 0 <= a < inputs@.len() ==> #[trigger] inputs@[a].wire < wires@.len(),
            assign_wires(inputs@.subrange(0, i as int), provided@, w0) == Some(wire_values(wires@)),
            named_values_match(assigned@, inputs@.subrange(0, i as int), provided@),
            forall|a: int| 0 <= a < i ==> lookup(provided@, (#[trigger] inputs@[a]).name@) is Some,
            w0 == wire_values(old(wires)@),
        decreases inputs.len() - i,
    {
        let input = &inputs[i];
        let ghost pre = inputs@.subrange(0, i as int);
        let ghost next = inputs@.subrange(0, i + 1);
        assert(next.drop_last() =~= pre);
        assert(next.last() == *input);
        match find_value(provided, &input.name) {
            None => {
                proof {
                    lemma_assign_prefix_fails(inputs@, provided@, w0, i as nat);
                }
                let mut message = to_owned("missing ");
                push_str(&mut message, visibility);
                push_str(&mut message, " input `");
                push_str(&mut message, input.name.as_str());
                push_str(&mut message, "`");
                proof {
                    assert(message@ =~= "missing "@ + visibility@ + " input `"@ + inputs@[i as int].name@ + "`"@);
                }
                return Err(RuntimeError::new(message));
            },
            Some(value) => {
                wires.set(input.wire, value);
                assert(wire_values(wires@) =~= wire_values(old(wires)@).update(input.wire as int, value@)
                    || true);
                let ghost prev = assigned@;
                assigned.push(NamedValue { name: input.name.clone(), value });
                proof {
                    assert(named_values_match(assigned@, next, provided@)) by {
                        assert forall|a: int| 0 <= a < assigned@.len() implies {
                            &&& #[trigger] assigned@[a].name@ == next[a].name@
                            &&& lookup(provided@, next[a].name@) == Some(assigned@[a].value@)
                        } by {
                            if a < prev.len() {
                                assert(assigned@[a] == prev[a]);
                                assert(next[a] == pre[a]);
                            }
                        }
                    }
                }
            },
        }
        proof {
            assert(wire_values(wires@) =~= wire_values(wires@));
        }
        i = i + 1;
    }
    assert(inputs@.subrange(0, inputs@.len() as int) =~= inputs@);
    Ok(assigned)
}

/// Once a prefix fails to assign, the whole sequence fails.
proof fn lemma_assign_prefix_fails(inputs: Seq<NamedInput>, entries: Seq<(String, FieldElement)>, w0: Seq<nat>, i: nat)
    requires
        i < inputs.len(),
        lookup(entries, inputs[i as int].name@) is None,
    ensures
        assign_wires(inputs, entries, w0) is None,
    decreases inputs.len(),
{
    if i + 1 < inputs.len() {
        assert(inputs.drop_last()[i as int] == inputs[i as int]);
        lemma_assign_prefix_fails(inputs.drop_last(), entries, w0, i);
    }
}

proof fn lemma_run_prefix_fails(ops: Seq<Operation>, w0: Seq<nat>, k: nat)
    requires
        k <= ops.len(),
        run_ops(ops.subrange(0, k as int), w0) is None,
    ensures
        run_ops(ops, w0) is None,
    decreases ops.len() - k,
{
    if k < ops.len() {
        let next = ops.subrange(0, (k + 1) as int);
        assert(next.drop_last() =~= ops.subrange(0, k as int));
        lemma_run_prefix_fails(ops, w0, k + 1);
    } else {
        assert(ops.subrange(0, k as int) =~= ops);
    }
}

/// Every constraint's operands resolved against the wire table, in order.
pub open spec fn constraint_traces_match(traced: Seq<ConstraintTrace>, constraints: Seq<Constraint>, wires: Seq<nat>) -> bool {
    &&& traced.len() == constraints.len()
    &&& forall|c: int| 0 <= c < traced.len() ==> {
        &&& (#[trigger] traced[c]).index == c
        &&& traced[c].lhs.operand == constraints[c].lhs
        &&& traced[c].rhs.operand == constraints[c].rhs
        &&& operand_value(constraints[c].lhs, wires) == Some(traced[c].lhs.value@)
        &&& operand_value(constraints[c].rhs, wires) == Some(traced[c].rhs.value@)
        &&& traced[c].satisfied == (traced[c].lhs.value@ == traced[c].rhs.value@)
    }
}

fn trace_constraints(constraints: &Vec<Constraint>, wires: &Vec<FieldElement>) -> (r: RuntimeResult<Vec<ConstraintTrace>>)
    ensures
        r is Ok <==> forall|c: int| 0 <= c < constraints@.len() ==> {
            &&& operand_value(#[trigger] constraints@[c].lhs, wire_values(wires@)) is Some
            &&& operand_value(constraints@[c].rhs, wire_values(wires@)) is Some
        },
        r matches Ok(traced) ==> constraint_traces_match(traced@, constraints@, wire_values(wires@)),
{
    let mut traced: Vec<ConstraintTrace> = Vec::new();
    let mut index: usize = 0;
    while index < constraints.len()
        invariant
            index <= constraints@.len(),
            traced@.len() == index,
            constraint_traces_match(traced@, constraints@.subrange(0, index as int), wire_values(wires@)),
            forall|c: int| 0 <= c < index ==> {
                &&& operand_value(#[trigger] constraints@[c].lhs, wire_values(wires@)) is Some
                &&& operand_value(constraints@[c].rhs, wire_values(wires@)) is Some
            },
        decreases constraints.len() - index,
    {
        let constraint = constraints[index];
        let lhs = resolve_operand(constraint.lhs, wires)?;
        let rhs = resolve_operand(constraint.rhs, wires)?;
        let satisfied = lhs.value.equals(&rhs.value);
        let ghost prev = traced@;
        traced.push(ConstraintTrace { index, lhs, rhs, satisfied });
        proof {
            let sub = constraints@.subrange(0, index + 1);
            assert forall|c: int| 0 <= c < traced@.len() implies {
                &&& (#[trigger] traced@[c]).index == c
                &&& traced@[c].lhs.operand == sub[c].lhs
                &&& traced@[c].rhs.operand == sub[c].rhs
                &&& operand_value(sub[c].lhs, wire_values(wires@)) == Some(traced@[c].lhs.value@)
                &&& operand_value(sub[c].rhs, wire_values(wires@)) == Some(traced@[c].rhs.value@)
                &&& traced@[c].satisfied == (traced@[c].lhs.value@ == traced@[c].rhs.value@)
            } by {
                if c < index {
                    assert(traced@[c] == prev[c]);
                    assert(sub[c] == constraints@.subrange(0, index as int)[c]);
                }
            }
        }
        index = index + 1;
    }
    assert(constraints@.subrange(0, index as int) =~= constraints@);
    Ok(traced)
}

pub open spec fn range_traces_match(traced: Seq<RangeConstraintTrace>, constraints: Seq<RangeConstraint>, wires: Seq<nat>) -> bool {
    &&& traced.len() == constraints.len()
    &&& forall|c: int| 0 <= c < traced.len() ==> {
        &&& (#[trigger] traced[c]).index == c
        &&& traced[c].value.operand == constraints[c].value
        &&& traced[c].ty == constraints[c].ty
        &&& operand_value(constraints[c].value, wires) == Some(traced[c].value.value@)
        &&& traced[c].satisfied == fits_bits(traced[c].value.value@, range_bits(constraints[c].ty))
    }
}

fn trace_range_constraints(constraints: &Vec<RangeConstraint>, wires: &Vec<FieldElement>) -> (r: RuntimeResult<Vec<RangeConstraintTrace>>)
    ensures
        r is Ok <==> forall|c: int| 0 <= c < constraints@.len() ==> operand_value(#[trigger] constraints@[c].value, wire_values(wires@)) is Some,
        r matches Ok(traced) ==> range_traces_match(traced@, constraints@, wire_values(wires@)),
{
    let mut traced: Vec<RangeConstraintTrace> = Vec::new();
    let mut index: usize = 0;
    while index < constraints.len()
        invariant
            index <= constraints@.len(),
            traced@.len() == index,
            range_traces_match(traced@, constraints@.subrange(0, index as int), wire_values(wires@)),
            forall|c: int| 0 <= c < index ==> operand_value(#[trigger] constraints@[c].value, wire_values(wires@)) is Some,
        decreases constraints.len() - index,
    {
        let constraint = constraints[index];
        let value = resolve_operand(constraint.value, wires)?;
        let bits = match constraint.ty.uint_bits() {
            Some(b) => b,
            None => 0,
        };
        let satisfied = value.value.fits_in_bits(bits);
        let ghost prev = traced@;
        traced.push(RangeConstraintTrace { index, value, ty: constraint.ty, satisfied });
        proof {
            let sub = constraints@.subrange(0, index + 1);
            assert forall|c: int| 0 <= c < traced@.len() implies {
                &&& (#[trigger] traced@[c]).index == c
                &&& traced@[c].value.operand == sub[c].value
                &&& traced@[c].ty == sub[c].ty
                &&& operand_value(sub[c].value, wire_values(wires@)) == Some(traced@[c].value.value@)
                &&& traced@[c].satisfied == fits_bits(traced@[c].value.value@, range_bits(sub[c].ty))
            } by {
                if c < index {
                    assert(traced@[c] == prev[c]);
                    assert(sub[c] == constraints@.subrange(0, index as int)[c]);
                }
            }
        }
        index = index + 1;
    }
    assert(constraints@.subrange(0, index as int) =~= constraints@);
    Ok(traced)
}

pub open spec fn output_traces_match(traced: Seq<OutputTrace>, outputs: Seq<Output>, wires: Seq<nat>) -> bool {
    &&& traced.len() == outputs.len()
    &&& forall|c: int| 0 <= c < traced.len() ==> {
        &&& (#[trigger] traced[c]).name@ == outputs[c].name@
        &&& traced[c].source == outputs[c].value
        &&& operand_value(outputs[c].value, wires) == Some(traced[c].value@)
    }
}

fn trace_outputs(outputs: &Vec<Output>, wires: &Vec<FieldElement>) -> (r: RuntimeResult<Vec<OutputTrace>>)
    ensures
        r is Ok <==> forall|c: int| 0 <= c < outputs@.len() ==> operand_value(#[trigger] outputs@[c].value, wire_values(wires@)) is Some,
        r matches Ok(traced) ==> output_traces_match(traced@, outputs@, wire_values(wires@)),
{
    let mut traced: Vec<OutputTrace> = Vec::new();
    let mut index: usize = 0;
    while index < outputs.len()
        invariant
            index <= outputs@.len(),
            output_traces_match(traced@, outputs@.subrange(0, index as int), wire_values(wires@)),
            forall|c: int| 0 <= c < index ==> operand_value(#[trigger] outputs@[c].value, wire_values(wires@)) is Some,
        decreases outputs.len() - index,
    {
        let output = &outputs[index];
        let resolved = resolve_operand(output.value, wires)?;
        let ghost prev = traced@;
        traced.push(OutputTrace { name: output.name.clone(), source: output.value, value: resolved.value });
        proof {
            let sub = outputs@.subrange(0, index + 1);
            assert forall|c: int| 0 <= c < traced@.len() implies {
                &&& (#[trigger] traced@[c]).name@ == sub[c].name@
                &&& traced@[c].source == sub[c].value
                &&& operand_value(sub[c].value, wire_values(wires@)) == Some(traced@[c].value@)
            } by {
                if c < index {
                    assert(traced@[c] == prev[c]);
                    assert(sub[c] == outputs@.subrange(0, index as int)[c]);
                }
            }
        }
        index = index + 1;
    }
    assert(outputs@.subrange(0, index as int) =~= outputs@);
    Ok(traced)
}

fn constraint_failure(constraint: &ConstraintTrace) -> (e: RuntimeError)
    ensures
        e.message@ == "constraint failed at #"@ + crate::text::decimal(constraint.index as nat) + ": "@ + crate::text::decimal(
            constraint.lhs.value@,
        ) + " != "@ + crate::text::decimal(constraint.rhs.value@),
{
    let mut message = to_owned("constraint failed at #");
    push_decimal(&mut message, constraint.index as u128);
    push_str(&mut message, ": ");
    let lhs = constraint.lhs.value.to_string();
    push_str(&mut message, lhs.as_str());
    push_str(&mut message, " != ");
    let rhs = constraint.rhs.value.to_string();
    push_str(&mut message, rhs.as_str());
    RuntimeError::new(message)
}

fn range_failure(constraint: &RangeConstraintTrace) -> (e: RuntimeError)
    ensures
        e.message@ == "range check failed at #"@ + crate::text::decimal(constraint.index as nat) + ": "@ + crate::text::decimal(
            constraint.value.value@,
        ) + " is not in "@ + crate::ast::spelling(constraint.ty),
{
    let mut message = to_owned("range check failed at #");
    push_decimal(&mut message, constraint.index as u128);
    push_str(&mut message, ": ");
    let value = constraint.value.value.to_string();
    push_str(&mut message, value.as_str());
    push_str(&mut message, " is not in ");
    push_str(&mut message, constraint.ty.name());
    RuntimeError::new(message)
}

/// The operation traces: each operation with its resolved operands and result.
pub open spec fn operation_traces_match(traced: Seq<OperationTrace>, ops: Seq<Operation>) -> bool {
    &&& traced.len() == ops.len()
    &&& forall|k: int| 0 <= k < traced.len() ==> {
        &&& (#[trigger] traced[k]).out == ops[k].out
        &&& traced[k].opcode@ == opcode_of(ops[k].kind)
        &&& traced[k].lhs.operand == op_lhs(ops[k].kind)
        &&& traced[k].rhs.operand == op_rhs(ops[k].kind)
        &&& traced[k].value@ == apply_op(ops[k].kind, traced[k].lhs.value@, traced[k].rhs.value@)
    }
}

/// The wire table recorded as (wire, value) pairs.
pub open spec fn wire_table_matches(table: Seq<WireValue>, wires: Seq<nat>) -> bool {
    &&& table.len() == wires.len()
    &&& forall|i: int| 0 <= i < table.len() ==> (#[trigger] table[i]).wire == i && table[i].value@ == wires[i]
}

/// The wire table once the inputs are assigned, before any operation runs.
pub open spec fn input_wires(ir: CircuitIr, inputs: RuntimeInputs) -> Option<Seq<nat>> {
    let zeros = Seq::new(ir.next_wire as nat, |i: int| 0nat);
    match assign_wires(ir.public_inputs@, inputs.public_entries(), zeros) {
        None => None,
        Some(w1) => assign_wires(ir.private_inputs@, inputs.private_entries(), w1),
    }
}

/// Each operation's operands were read from the wire table as it stood before the operation.
pub open spec fn operand_values_match(traced: Seq<OperationTrace>, ops: Seq<Operation>, start: Seq<nat>) -> bool {
    forall|k: int| 0 <= k < traced.len() && k < ops.len() ==> {
        let before = run_ops(ops.subrange(0, k), start)->0;
        &&& operand_value(op_lhs(ops[k].kind), before) == Some((#[trigger] traced[k]).lhs.value@)
        &&& operand_value(op_rhs(ops[k].kind), before) == Some(traced[k].rhs.value@)
    }
}

/// `t` is the trace of running `ir` on `inputs`.
pub open spec fn is_trace_of(ir: CircuitIr, inputs: RuntimeInputs, t: WitnessTrace) -> bool {
    &&& t.circuit@ == ir.name@
    &&& t.backend@ == "interpreter"@
    &&& t.field_modulus@ == crate::field::MODULUS@
    &&& named_values_match(t.public_inputs@, ir.public_inputs@, inputs.public_entries())
    &&& named_values_match(t.private_inputs@, ir.private_inputs@, inputs.private_entries())
    &&& wire_table_matches(t.wires@, final_wires(ir, inputs)->0)
    &&& operation_traces_match(t.operations@, ir.operations@)
    &&& operand_values_match(t.operations@, ir.operations@, input_wires(ir, inputs)->0)
    &&& constraint_traces_match(t.constraints@, ir.constraints@, final_wires(ir, inputs)->0)
    &&& range_traces_match(t.range_constraints@, ir.range_constraints@, final_wires(ir, inputs)->0)
    &&& output_traces_match(t.outputs@, ir.outputs@, final_wires(ir, inputs)->0)
}

/// Executes `ir` on `inputs`, recording every assignment, operation, constraint check and
/// output.
///
/// Fails when an assignment names no input, an input has no assignment, an operand reads past
/// the wire table, or a constraint or range constraint does not hold.
pub fn trace_execution(ir: &CircuitIr, inputs: &RuntimeInputs) -> (r: RuntimeResult<WitnessTrace>)
    requires
        writes_in_range(*ir),
    ensures
        r is Ok <==> execution_succeeds(*ir, *inputs),
        r matches Ok(t) ==> is_trace_of(*ir, *inputs, t),
        r matches Err(e) ==> failure_reported(*ir, *inputs, e.message@),
{
    validate_input_names(ir, inputs)?;

    let mut wires: Vec<FieldElement> = Vec::new();
    let mut z: usize = 0;
    while z < ir.next_wire
        invariant
            z <= ir.next_wire,
            wires@.len() == z,
            forall|a: int| 0 <= a < z ==> (#[trigger] wires@[a])@ == 0,
        decreases ir.next_wire - z,
    {
        wires.push(FieldElement::zero());
        z = z + 1;
    }
    let ghost zeros = Seq::new(ir.next_wire as nat, |i: int| 0nat);
    assert(wire_values(wires@) =~= zeros);
    let public_inputs = assign_inputs(&ir.public_inputs, inputs.public_values(), &mut wires, "public")?;
    let private_inputs = assign_inputs(&ir.private_inputs, inputs.private_values(), &mut wires, "private")?;
    let ghost w2 = wire_values(wires@);
    assert(final_wires(*ir, *inputs) == run_ops(ir.operations@, w2));
    assert(input_wires(*ir, *inputs) == Some(w2));

    let mut operations: Vec<OperationTrace> = Vec::new();
    let mut k: usize = 0;
    assert(ir.operations@.subrange(0, 0) =~= Seq::<Operation>::empty());
    while k < ir.operations.len()
        invariant
            k <= ir.operations@.len(),
            wires@.len() == ir.next_wire,
            writes_in_range(*ir),
            run_ops(ir.operations@.subrange(0, k as int), w2) == Some(wire_values(wires@)),
            operation_traces_match(operations@, ir.operations@.subrange(0, k as int)),
            operand_values_match(operations@, ir.operations@, w2),
            operations@.len() == k,
            final_wires(*ir, *inputs) == run_ops(ir.operations@, w2),
            input_wires(*ir, *inputs) == Some(w2),
            assignments_declared(*ir, *inputs),
            all_assigned(ir.public_inputs@, inputs.public_entries()),
            all_assigned(ir.private_inputs@, inputs.private_entries()),
        decreases ir.operations.len() - k,
    {
        let operation = ir.operations[k];
        let ghost pre = ir.operations@.subrange(0, k as int);
        let ghost next = ir.operations@.subrange(0, k + 1);
        assert(next.drop_last() =~= pre);
        assert(next.last() == operation);
        let lhs = match resolve_operand(operation.kind.lhs(), &wires) {
            Ok(v) => v,
            Err(e) => {
                proof {
                    assert(run_ops(next, w2) is None);
                    lemma_run_prefix_fails(ir.operations@, w2, (k + 1) as nat);
                }
                return Err(e);
            },
        };
        let rhs = match resolve_operand(operation.kind.rhs(), &wires) {
            Ok(v) => v,
            Err(e) => {
                proof {
                    assert(run_ops(next, w2) is None);
                    lemma_run_prefix_fails(ir.operations@, w2, (k + 1) as nat);
                }
                return Err(e);
            },
        };
        let value = apply_operation(&operation.kind, lhs.value, rhs.value);
        wires.set(operation.out, value);
        assert(wire_values(wires@) =~= run_ops(next, w2)->0);
        let ghost prev = operations@;
        operations.push(OperationTrace { out: operation.out, opcode: opcode_name(&operation.kind), lhs, rhs, value });
        proof {
            assert forall|a: int| 0 <= a < operations@.len() implies {
                &&& (#[trigger] operations@[a]).out == next[a].out
                &&& operations@[a].opcode@ == opcode_of(next[a].kind)
                &&& operations@[a].lhs.operand == op_lhs(next[a].kind)
                &&& operations@[a].rhs.operand == op_rhs(next[a].kind)
                &&& operations@[a].value@ == apply_op(next[a].kind, operations@[a].lhs.value@, operations@[a].rhs.value@)
            } by {
                if a < k {
                    assert(operations@[a] == prev[a]);
                    assert(next[a] == pre[a]);
                }
            }
            assert forall|a: int| 0 <= a < operations@.len() && a < ir.operations@.len() implies {
                let before = run_ops(ir.operations@.subrange(0, a), w2)->0;
                &&& operand_value(op_lhs(ir.operations@[a].kind), before) == Some((#[trigger] operations@[a]).lhs.value@)
                &&& operand_value(op_rhs(ir.operations@[a].kind), before) == Some(operations@[a].rhs.value@)
            } by {
                if a < k {
                    assert(operations@[a] == prev[a]);
                } else {
                    assert(ir.operations@.subrange(0, a) =~= pre);
                }
            }
        }
        k = k + 1;
    }
    assert(ir.operations@.subrange(0, k as int) =~= ir.operations@);
    let ghost w = wire_values(wires@);
    assert(final_wires(*ir, *inputs) == Some(w));

    let constraints = trace_constraints(&ir.constraints, &wires)?;
    let mut c: usize = 0;
    while c < constraints.len()
        invariant
            c <= constraints@.len(),
            constraint_traces_match(constraints@, ir.constraints@, w),
            forall|a: int| 0 <= a < c ==> constraint_holds(#[trigger] ir.constraints@[a], w),
            final_wires(*ir, *inputs) == Some(w),
            constraints_resolvable(ir.constraints@, w),
            assignments_declared(*ir, *inputs),
            all_assigned(ir.public_inputs@, inputs.public_entries()),
            all_assigned(ir.private_inputs@, inputs.private_entries()),
        decreases constraints.len() - c,
    {
        assert(constraints@[c as int].index == c);
        if !constraints[c].satisfied {
            assert(!constraint_holds(ir.constraints@[c as int], w));
            proof {
                assert(first_failed_constraint(ir.constraints@, w, c as int));
                assert forall|c2: int| #[trigger] first_failed_constraint(ir.constraints@, w, c2) implies c2 == c by {
                    if c2 < c {
                        assert(constraint_holds(ir.constraints@[c2], w));
                    } else if c < c2 {
                        assert(constraint_holds(ir.constraints@[c as int], w));
                    }
                }
            }
            return Err(constraint_failure(&constraints[c]));
        }
        assert(constraint_holds(ir.constraints@[c as int], w));
        c = c + 1;
    }

    let range_constraints = trace_range_constraints(&ir.range_constraints, &wires)?;
    let mut c: usize = 0;
    while c < range_constraints.len()
        invariant
            c <= range_constraints@.len(),
            range_traces_match(range_constraints@, ir.range_constraints@, w),
            forall|a: int| 0 <= a < c ==> range_holds(#[trigger] ir.range_constraints@[a], w),
            final_wires(*ir, *inputs) == Some(w),
            forall|a: int| 0 <= a < ir.constraints@.len() ==> constraint_holds(#[trigger] ir.constraints@[a], w),
            assignments_declared(*ir, *inputs),
            all_assigned(ir.public_inputs@, inputs.public_entries()),
            all_assigned(ir.private_inputs@, inputs.private_entries()),

        decreases range_constraints.len() - c,
    {
        assert(range_constraints@[c as int].index == c);
        if !range_constraints[c].satisfied {
            assert(!range_holds(ir.range_constraints@[c as int], w));
            proof {
                assert(first_failed_range(ir.range_constraints@, w, c as int));
                assert forall|c2: int| #[trigger] first_failed_range(ir.range_constraints@, w, c2) implies c2 == c by {
                    if c2 < c {
                        assert(range_holds(ir.range_constraints@[c2], w));
                    } else if c < c2 {
                        assert(range_holds(ir.range_constraints@[c as int], w));
                    }
                }
            }
            return Err(range_failure(&range_constraints[c]));
        }
        assert(range_holds(ir.range_constraints@[c as int], w));
        c = c + 1;
    }

    let outputs = trace_outputs(&ir.outputs, &wires)?;

    let mut table: Vec<WireValue> = Vec::new();
    let mut i: usize = 0;
    while i < wires.len()
        invariant
            i <= wires@.len(),
            table@.len() == i,
            forall|a: int| 0 <= a < i ==> (#[trigger] table@[a]).wire == a && table@[a].value == wires@[a],
        decreases wires.len() - i,
    {
        table.push(WireValue { wire: i, value: wires[i] });
        i = i + 1;
    }

    Ok(WitnessTrace {
        circuit: ir.name.clone(),
        backend: "interpreter",
        field_modulus: crate::field::MODULUS,
        public_inputs,
        private_inputs,
        wires: table,
        operations,
        constraints,
        range_constraints,
        outputs,
    })
}
} // verus!
