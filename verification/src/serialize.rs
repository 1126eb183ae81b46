//! The JSON form of the circuit IR.
use vstd::prelude::*;

use crate::ast::spelling;
use crate::field::MODULUS;
use crate::ir::{op_lhs, op_rhs, CircuitIr, Constraint, NamedInput, OpKind, Operand, Operation, Output};
use crate::text::{
    decimal, json_array_text, json_string, push_decimal, push_field, push_json_array, push_str, quoted,
    to_owned, usize_to_string, views,
};

verus! {

pub open spec fn operand_json(o: Operand) -> Seq<char> {
    match o {
        Operand::Wire(w) => "{\"kind\":\"wire\",\"wire\":"@ + decimal(w as nat) + "}"@,
        Operand::Const(v) => "{\"kind\":\"const\",\"value\":"@ + quoted(decimal(v@)) + "}"@,
    }
}

pub open spec fn opcode_text(k: OpKind) -> Seq<char> {
    match k {
        OpKind::Add(_, _) => "add"@,
        OpKind::Sub(_, _) => "sub"@,
        OpKind::Mul(_, _) => "mul"@,
    }
}

pub open spec fn named_input_json(i: NamedInput) -> Seq<char> {
    "{\"binding\":"@ + decimal(i.binding as nat) + ",\"name\":"@ + quoted(i.name@) + ",\"type\":\""@
        + spelling(i.ty) + "\",\"wire\":"@ + decimal(i.wire as nat) + "}"@
}

pub open spec fn operation_json(op: Operation) -> Seq<char> {
    "{\"out\":"@ + decimal(op.out as nat) + ",\"op\":\""@ + opcode_text(op.kind) + "\",\"lhs\":"@
        + operand_json(op_lhs(op.kind)) + ",\"rhs\":"@ + operand_json(op_rhs(op.kind)) + "}"@
}

pub open spec fn constraint_json(c: Constraint) -> Seq<char> {
    "{\"lhs\":"@ + operand_json(c.lhs) + ",\"rhs\":"@ + operand_json(c.rhs) + "}"@
}

pub open spec fn output_json(o: Output) -> Seq<char> {
    "{\"name\":"@ + quoted(o.name@) + ",\"value\":"@ + operand_json(o.value) + "}"@
}

/// The JSON document of a circuit: name, field modulus, inputs, operations, constraints,
/// outputs and the next free wire.
pub open spec fn ir_json(ir: CircuitIr) -> Seq<char> {
    "{"@ + quoted("name"@) + seq![':'] + quoted(ir.name@)
        + ","@ + quoted("field_modulus"@) + seq![':'] + MODULUS@
        + ","@ + quoted("public_inputs"@) + seq![':'] + json_array_text(ir.public_inputs@.map_values(|i: NamedInput| named_input_json(i)))
        + ","@ + quoted("private_inputs"@) + seq![':'] + json_array_text(ir.private_inputs@.map_values(|i: NamedInput| named_input_json(i)))
        + ","@ + quoted("operations"@) + seq![':'] + json_array_text(ir.operations@.map_values(|o: Operation| operation_json(o)))
        + ","@ + quoted("constraints"@) + seq![':'] + json_array_text(ir.constraints@.map_values(|c: Constraint| constraint_json(c)))
        + ","@ + quoted("outputs"@) + seq![':'] + json_array_text(ir.outputs@.map_values(|o: Output| output_json(o)))
        + ","@ + quoted("next_wire"@) + seq![':'] + decimal(ir.next_wire as nat) + "}"@
}

/// The JSON encoding of an operand.
pub fn operand_to_json(operand: Operand) -> (s: String)
    ensures
        s@ == operand_json(operand),
{
    match operand {
        Operand::Wire(wire) => {
            let mut out = to_owned("{\"kind\":\"wire\",\"wire\":");
            push_decimal(&mut out, wire as u128);
            push_str(&mut out, "}");
            out
        },
        Operand::Const(value) => {
            let mut out = to_owned("{\"kind\":\"const\",\"value\":");
            push_str(&mut out, json_string(value.to_string().as_str()).as_str());
            push_str(&mut out, "}");
            out
        },
    }
}

fn opcode(kind: OpKind) -> (r: &'static str)
    ensures
        r@ == opcode_text(kind),
{
    match kind {
        OpKind::Add(_, _) => "add",
        OpKind::Sub(_, _) => "sub",
        OpKind::Mul(_, _) => "mul",
    }
}

fn inputs_array(inputs: &Vec<NamedInput>) -> (s: String)
    ensures
        s@ == json_array_text(inputs@.map_values(|i: NamedInput| named_input_json(i))),
{
    let mut parts: Vec<String> = Vec::new();
    let mut k: usize = 0;
    while k < inputs.len()
        invariant
            k <= inputs@.len(),
            parts@.len() == k,
            forall|j: int| 0 <= j < k ==> (#[trigger] parts@[j])@ == named_input_json(inputs@[j]),
        decreases inputs.len() - k,
    {
        let input = &inputs[k];
        let mut part = to_owned("{\"binding\":");
        push_decimal(&mut part, input.binding as u128);
        push_str(&mut part, ",\"name\":");
        push_str(&mut part, json_string(input.name.as_str()).as_str());
        push_str(&mut part, ",\"type\":\"");
        push_str(&mut part, input.ty.name());
        push_str(&mut part, "\",\"wire\":");
        push_decimal(&mut part, input.wire as u128);
        push_str(&mut part, "}");
        parts.push(part);
        k = k + 1;
    }
    assert(views(parts@) =~= inputs@.map_values(|i: NamedInput| named_input_json(i)));
    let mut out = String::new();
    push_json_array(&mut out, &parts);
    out
}

fn operations_array(ops: &Vec<Operation>) -> (s: String)
    ensures
        s@ == json_array_text(ops@.map_values(|o: Operation| operation_json(o))),
{
    let mut parts: Vec<String> = Vec::new();
    let mut k: usize = 0;
    while k < ops.len()
        invariant
            k <= ops@.len(),
            parts@.len() == k,
            forall|j: int| 0 <= j < k ==> (#[trigger] parts@[j])@ == operation_json(ops@[j]),
        decreases ops.len() - k,
    {
        let op = ops[k];
        let (lhs, rhs) = match op.kind {
            OpKind::Add(lhs, rhs) => (lhs, rhs),
            OpKind::Sub(lhs, rhs) => (lhs, rhs),
            OpKind::Mul(lhs, rhs) => (lhs, rhs),
        };
        let mut part = to_owned("{\"out\":");
        push_decimal(&mut part, op.out as u128);
        push_str(&mut part, ",\"op\":\"");
        push_str(&mut part, opcode(op.kind));
        push_str(&mut part, "\",\"lhs\":");
        push_str(&mut part, operand_to_json(lhs).as_str());
        push_str(&mut part, ",\"rhs\":");
        push_str(&mut part, operand_to_json(rhs).as_str());
        push_str(&mut part, "}");
        parts.push(part);
        k = k + 1;
    }
    assert(views(parts@) =~= ops@.map_values(|o: Operation| operation_json(o)));
    let mut out = String::new();
    push_json_array(&mut out, &parts);
    out
}

fn constraints_array(cs: &Vec<Constraint>) -> (s: String)
    ensures
        s@ == json_array_text(cs@.map_values(|c: Constraint| constraint_json(c))),
{
    let mut parts: Vec<String> = Vec::new();
    let mut k: usize = 0;
    while k < cs.len()
        invariant
            k <= cs@.len(),
            parts@.len() == k,
            forall|j: int| 0 <= j < k ==> (#[trigger] parts@[j])@ == constraint_json(cs@[j]),
        decreases cs.len() - k,
    {
        let c = cs[k];
        let mut part = to_owned("{\"lhs\":");
        push_str(&mut part, operand_to_json(c.lhs).as_str());
        push_str(&mut part, ",\"rhs\":");
        push_str(&mut part, operand_to_json(c.rhs).as_str());
        push_str(&mut part, "}");
        parts.push(part);
        k = k + 1;
    }
    assert(views(parts@) =~= cs@.map_values(|c: Constraint| constraint_json(c)));
    let mut out = String::new();
    push_json_array(&mut out, &parts);
    out
}

fn outputs_array(os: &Vec<Output>) -> (s: String)
    ensures
        s@ == json_array_text(os@.map_values(|o: Output| output_json(o))),
{
    let mut parts: Vec<String> = Vec::new();
    let mut k: usize = 0;
    while k < os.len()
        invariant
            k <= os@.len(),
            parts@.len() == k,
            forall|j: int| 0 <= j < k ==> (#[trigger] parts@[j])@ == output_json(os@[j]),
        decreases os.len() - k,
    {
        let output = &os[k];
        let mut part = to_owned("{\"name\":");
        push_str(&mut part, json_string(output.name.as_str()).as_str());
        push_str(&mut part, ",\"value\":");
        push_str(&mut part, operand_to_json(output.value).as_str());
        push_str(&mut part, "}");
        parts.push(part);
        k = k + 1;
    }
    assert(views(parts@) =~= os@.map_values(|o: Output| output_json(o)));
    let mut out = String::new();
    push_json_array(&mut out, &parts);
    out
}

/// The JSON document of `ir`.
pub fn ir_to_json(ir: &CircuitIr) -> (s: String)
    ensures
        s@ == ir_json(*ir),
{
    let mut out = to_owned("{");
    push_field(&mut out, "name", json_string(ir.name.as_str()).as_str());
    push_str(&mut out, ",");
    push_field(&mut out, "field_modulus", MODULUS);
    push_str(&mut out, ",");
    push_field(&mut out, "public_inputs", inputs_array(&ir.public_inputs).as_str());
    push_str(&mut out, ",");
    push_field(&mut out, "private_inputs", inputs_array(&ir.private_inputs).as_str());
    push_str(&mut out, ",");
    push_field(&mut out, "operations", operations_array(&ir.operations).as_str());
    push_str(&mut out, ",");
    push_field(&mut out, "constraints", constraints_array(&ir.constraints).as_str());
    push_str(&mut out, ",");
    push_field(&mut out, "outputs", outputs_array(&ir.outputs).as_str());
    push_str(&mut out, ",");
    push_field(&mut out, "next_wire", usize_to_string(ir.next_wire).as_str());
    push_str(&mut out, "}");
    out
}

} // verus!
