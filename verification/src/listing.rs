//! Human-readable listings of circuits, and the JSON and text forms of witness traces.
use vstd::prelude::*;

use crate::ast::spelling;
use crate::field::MODULUS;
use crate::ir::{op_lhs, op_rhs, CircuitIr, Constraint, NamedInput, OpKind, Operand, Operation, Output, RangeConstraint};
use crate::serialize::{operand_json, operand_to_json};
use crate::text::{
    decimal, json_array_text, json_string, lines_or_none, push_char, push_decimal, push_field,
    push_json_array, push_lines_or_none, push_str, quoted, to_owned, views,
};
use crate::trace::{
    opcode_of, ConstraintTrace, NamedValue, OperationTrace, OutputTrace, RangeConstraintTrace,
    ResolvedOperand, WireValue, WitnessTrace,
};

verus! {

// ----- circuit listing ------------------------------------------------------------------------

/// `w<wire>` for a wire, the decimal value for a constant.
pub open spec fn operand_text(o: Operand) -> Seq<char> {
    match o {
        Operand::Wire(w) => seq!['w'] + decimal(w as nat),
        Operand::Const(v) => decimal(v@),
    }
}

/// `w<out> = <opcode> <lhs>, <rhs>`.
pub open spec fn operation_text(op: Operation) -> Seq<char> {
    seq!['w'] + decimal(op.out as nat) + " = "@ + opcode_of(op.kind) + seq![' '] + operand_text(op_lhs(op.kind))
        + ", "@ + operand_text(op_rhs(op.kind))
}

pub open spec fn input_lines(inputs: Seq<NamedInput>) -> Seq<Seq<char>> {
    inputs.map_values(|i: NamedInput| "  "@ + i.name@ + " -> w"@ + decimal(i.wire as nat) + "\n"@)
}

pub open spec fn operation_lines(ops: Seq<Operation>) -> Seq<Seq<char>> {
    ops.map_values(|o: Operation| "  "@ + operation_text(o) + "\n"@)
}

pub open spec fn constraint_lines(cs: Seq<Constraint>) -> Seq<Seq<char>> {
    cs.map_values(|c: Constraint| "  "@ + operand_text(c.lhs) + " == "@ + operand_text(c.rhs) + "\n"@)
}

pub open spec fn range_lines(rs: Seq<RangeConstraint>) -> Seq<Seq<char>> {
    rs.map_values(|c: RangeConstraint| "  "@ + operand_text(c.value) + " in "@ + spelling(c.ty) + "\n"@)
}

pub open spec fn output_lines(os: Seq<Output>) -> Seq<Seq<char>> {
    os.map_values(|o: Output| "  "@ + o.name@ + " = "@ + operand_text(o.value) + "\n"@)
}

/// The text listing of a circuit.
pub open spec fn circuit_text(ir: CircuitIr) -> Seq<char> {
    "circuit "@ + ir.name@ + "\n"@ + "field modulus "@ + MODULUS@ + "\n"@
        + "public_inputs:\n"@ + lines_or_none(input_lines(ir.public_inputs@))
        + "private_inputs:\n"@ + lines_or_none(input_lines(ir.private_inputs@))
        + "operations:\n"@ + lines_or_none(operation_lines(ir.operations@))
        + "constraints:\n"@ + lines_or_none(constraint_lines(ir.constraints@))
        + "range_constraints:\n"@ + lines_or_none(range_lines(ir.range_constraints@))
        + "outputs:\n"@ + lines_or_none(output_lines(ir.outputs@))
}

impl Operand {
    pub fn to_text(&self) -> (s: String)
        ensures
            s@ == operand_text(*self),
    {
        match self {
            Operand::Wire(w) => {
                let mut out = String::new();
                push_char(&mut out, 'w');
                push_decimal(&mut out, *w as u128);
                assert(out@ =~= operand_text(*self));
                out
            },
            Operand::Const(v) => v.to_string(),
        }
    }
}

impl Operation {
    pub fn to_text(&self) -> (s: String)
        ensures
            s@ == operation_text(*self),
    {
        let (name, lhs, rhs) = match self.kind {
            OpKind::Add(lhs, rhs) => ("add", lhs, rhs),
            OpKind::Sub(lhs, rhs) => ("sub", lhs, rhs),
            OpKind::Mul(lhs, rhs) => ("mul", lhs, rhs),
        };
        let mut out = String::new();
        push_char(&mut out, 'w');
        push_decimal(&mut out, self.out as u128);
        push_str(&mut out, " = ");
        push_str(&mut out, name);
        push_char(&mut out, ' ');
        push_str(&mut out, lhs.to_text().as_str());
        push_str(&mut out, ", ");
        push_str(&mut out, rhs.to_text().as_str());
        assert(out@ =~= operation_text(*self));
        out
    }
}

fn input_lines_of(inputs: &Vec<NamedInput>) -> (r: Vec<String>)
    ensures
        views(r@) == input_lines(inputs@),
{
    let mut lines: Vec<String> = Vec::new();
    let mut k: usize = 0;
    while k < inputs.len()
        invariant
            k <= inputs@.len(),
            lines@.len() == k,
            forall|j: int| 0 <= j < k ==> (#[trigger] lines@[j])@ == "  "@ + inputs@[j].name@ + " -> w"@
                + decimal(inputs@[j].wire as nat) + "\n"@,
        decreases inputs.len() - k,
    {
        let mut line = to_owned("  ");
        push_str(&mut line, inputs[k].name.as_str());
        push_str(&mut line, " -> w");
        push_decimal(&mut line, inputs[k].wire as u128);
        push_str(&mut line, "\n");
        lines.push(line);
        k = k + 1;
    }
    assert(views(lines@) =~= input_lines(inputs@));
    lines
}

impl CircuitIr {
    /// The text listing: header, inputs, operations, constraints, range constraints, outputs.
    pub fn to_text(&self) -> (s: String)
        ensures
            s@ == circuit_text(*self),
    {
        let mut out = to_owned("circuit ");
        push_str(&mut out, self.name.as_str());
        push_str(&mut out, "\n");
        push_str(&mut out, "field modulus ");
        push_str(&mut out, MODULUS);
        push_str(&mut out, "\n");
        push_str(&mut out, "public_inputs:\n");
        push_lines_or_none(&mut out, &input_lines_of(&self.public_inputs));
        push_str(&mut out, "private_inputs:\n");
        push_lines_or_none(&mut out, &input_lines_of(&self.private_inputs));
        push_str(&mut out, "operations:\n");
        let mut lines: Vec<String> = Vec::new();
        let mut k: usize = 0;
        while k < self.operations.len()
            invariant
                k <= self.operations@.len(),
                lines@.len() == k,
                forall|j: int| 0 <= j < k ==> (#[trigger] lines@[j])@ == "  "@ + operation_text(self.operations@[j]) + "\n"@,
            decreases self.operations.len() - k,
        {
            let mut line = to_owned("  ");
            push_str(&mut line, self.operations[k].to_text().as_str());
            push_str(&mut line, "\n");
            lines.push(line);
            k = k + 1;
        }
        assert(views(lines@) =~= operation_lines(self.operations@));
        push_lines_or_none(&mut out, &lines);
        push_str(&mut out, "constraints:\n");
        let mut lines: Vec<String> = Vec::new();
        let mut k: usize = 0;
        while k < self.constraints.len()
            invariant
                k <= self.constraints@.len(),
                lines@.len() == k,
                forall|j: int| 0 <= j < k ==> (#[trigger] lines@[j])@ == "  "@ + operand_text(self.constraints@[j].lhs)
                    + " == "@ + operand_text(self.constraints@[j].rhs) + "\n"@,
            decreases self.constraints.len() - k,
        {
            let mut line = to_owned("  ");
            push_str(&mut line, self.constraints[k].lhs.to_text().as_str());
            push_str(&mut line, " == ");
            push_str(&mut line, self.constraints[k].rhs.to_text().as_str());
            push_str(&mut line, "\n");
            lines.push(line);
            k = k + 1;
        }
        assert(views(lines@) =~= constraint_lines(self.constraints@));
        push_lines_or_none(&mut out, &lines);
        push_str(&mut out, "range_constraints:\n");
        let mut lines: Vec<String> = Vec::new();
        let mut k: usize = 0;
        while k < self.range_constraints.len()
            invariant
                k <= self.range_constraints@.len(),
                lines@.len() == k,
                forall|j: int| 0 <= j < k ==> (#[trigger] lines@[j])@ == "  "@ + operand_text(self.range_constraints@[j].value)
                    + " in "@ + spelling(self.range_constraints@[j].ty) + "\n"@,
            decreases self.range_constraints.len() - k,
        {
            let mut line = to_owned("  ");
            push_str(&mut line, self.range_constraints[k].value.to_text().as_str());
            push_str(&mut line, " in ");
            push_str(&mut line, self.range_constraints[k].ty.name());
            push_str(&mut line, "\n");
            lines.push(line);
            k = k + 1;
        }
        assert(views(lines@) =~= range_lines(self.range_constraints@));
        push_lines_or_none(&mut out, &lines);
        push_str(&mut out, "outputs:\n");
        let mut lines: Vec<String> = Vec::new();
        let mut k: usize = 0;
        while k < self.outputs.len()
            invariant
                k <= self.outputs@.len(),
                lines@.len() == k,
                forall|j: int| 0 <= j < k ==> (#[trigger] lines@[j])@ == "  "@ + self.outputs@[j].name@ + " = "@
                    + operand_text(self.outputs@[j].value) + "\n"@,
            decreases self.outputs.len() - k,
        {
            let mut line = to_owned("  ");
            push_str(&mut line, self.outputs[k].name.as_str());
            push_str(&mut line, " = ");
            push_str(&mut line, self.outputs[k].value.to_text().as_str());
            push_str(&mut line, "\n");
            lines.push(line);
            k = k + 1;
        }
        assert(views(lines@) =~= output_lines(self.outputs@));
        push_lines_or_none(&mut out, &lines);
        out
    }
}

// ----- witness trace: JSON --------------------------------------------------------------------

pub open spec fn value_json(v: crate::field::FieldElement) -> Seq<char> {
    quoted(decimal(v@))
}

pub open spec fn named_value_json(v: NamedValue) -> Seq<char> {
    "{\"name\":"@ + quoted(v.name@) + ",\"value\":"@ + value_json(v.value) + "}"@
}

pub open spec fn wire_value_json(v: WireValue) -> Seq<char> {
    "{\"wire\":"@ + decimal(v.wire as nat) + ",\"value\":"@ + value_json(v.value) + "}"@
}

pub open spec fn resolved_json(r: ResolvedOperand) -> Seq<char> {
    "{\"operand\":"@ + operand_json(r.operand) + ",\"value\":"@ + value_json(r.value) + "}"@
}

pub open spec fn bool_text(b: bool) -> Seq<char> {
    if b {
        "true"@
    } else {
        "false"@
    }
}

pub open spec fn operation_trace_json(o: OperationTrace) -> Seq<char> {
    "{\"out\":"@ + decimal(o.out as nat) + ",\"op\":"@ + quoted(o.opcode@) + ",\"lhs\":"@ + resolved_json(o.lhs)
        + ",\"rhs\":"@ + resolved_json(o.rhs) + ",\"value\":"@ + value_json(o.value) + "}"@
}

pub open spec fn constraint_trace_json(c: ConstraintTrace) -> Seq<char> {
    "{\"index\":"@ + decimal(c.index as nat) + ",\"lhs\":"@ + resolved_json(c.lhs) + ",\"rhs\":"@
        + resolved_json(c.rhs) + ",\"satisfied\":"@ + bool_text(c.satisfied) + "}"@
}

pub open spec fn range_trace_json(c: RangeConstraintTrace) -> Seq<char> {
    "{\"index\":"@ + decimal(c.index as nat) + ",\"value\":"@ + resolved_json(c.value) + ",\"type\":"@
        + quoted(spelling(c.ty)) + ",\"satisfied\":"@ + bool_text(c.satisfied) + "}"@
}

pub open spec fn output_trace_json(o: OutputTrace) -> Seq<char> {
    "{\"name\":"@ + quoted(o.name@) + ",\"source\":"@ + operand_json(o.source) + ",\"value\":"@
        + value_json(o.value) + "}"@
}

/// The JSON document of a witness trace.
pub open spec fn trace_json(t: WitnessTrace) -> Seq<char> {
    "{"@ + quoted("circuit"@) + seq![':'] + quoted(t.circuit@)
        + ","@ + quoted("backend"@) + seq![':'] + quoted(t.backend@)
        + ","@ + quoted("field_modulus"@) + seq![':'] + quoted(t.field_modulus@)
        + ","@ + quoted("public_inputs"@) + seq![':'] + json_array_text(t.public_inputs@.map_values(|v: NamedValue| named_value_json(v)))
        + ","@ + quoted("private_inputs"@) + seq![':'] + json_array_text(t.private_inputs@.map_values(|v: NamedValue| named_value_json(v)))
        + ","@ + quoted("wires"@) + seq![':'] + json_array_text(t.wires@.map_values(|v: WireValue| wire_value_json(v)))
        + ","@ + quoted("operations"@) + seq![':'] + json_array_text(t.operations@.map_values(|o: OperationTrace| operation_trace_json(o)))
        + ","@ + quoted("constraints"@) + seq![':'] + json_array_text(t.constraints@.map_values(|c: ConstraintTrace| constraint_trace_json(c)))
        + ","@ + quoted("range_constraints"@) + seq![':']
        + json_array_text(t.range_constraints@.map_values(|c: RangeConstraintTrace| range_trace_json(c)))
        + ","@ + quoted("outputs"@) + seq![':'] + json_array_text(t.outputs@.map_values(|o: OutputTrace| output_trace_json(o)))
        + "}"@
}

fn value_to_json(v: crate::field::FieldElement) -> (s: String)
    ensures
        s@ == value_json(v),
{
    json_string(v.to_string().as_str())
}

fn bool_to_text(b: bool) -> (s: &'static str)
    ensures
        s@ == bool_text(b),
{
    if b {
        "true"
    } else {
        "false"
    }
}

fn resolved_to_json(r: ResolvedOperand) -> (s: String)
    ensures
        s@ == resolved_json(r),
{
    let mut out = to_owned("{\"operand\":");
    push_str(&mut out, operand_to_json(r.operand).as_str());
    push_str(&mut out, ",\"value\":");
    push_str(&mut out, value_to_json(r.value).as_str());
    push_str(&mut out, "}");
    out
}

fn named_values_array(values: &Vec<NamedValue>) -> (s: String)
    ensures
        s@ == json_array_text(values@.map_values(|v: NamedValue| named_value_json(v))),
{
    let mut parts: Vec<String> = Vec::new();
    let mut k: usize = 0;
    while k < values.len()
        invariant
            k <= values@.len(),
            parts@.len() == k,
            forall|j: int| 0 <= j < k ==> (#[trigger] parts@[j])@ == named_value_json(values@[j]),
        decreases values.len() - k,
    {
        let mut part = to_owned("{\"name\":");
        push_str(&mut part, json_string(values[k].name.as_str()).as_str());
        push_str(&mut part, ",\"value\":");
        push_str(&mut part, value_to_json(values[k].value).as_str());
        push_str(&mut part, "}");
        parts.push(part);
        k = k + 1;
    }
    assert(views(parts@) =~= values@.map_values(|v: NamedValue| named_value_json(v)));
    let mut out = String::new();
    push_json_array(&mut out, &parts);
    out
}

fn wires_array(values: &Vec<WireValue>) -> (s: String)
    ensures
        s@ == json_array_text(values@.map_values(|v: WireValue| wire_value_json(v))),
{
    let mut parts: Vec<String> = Vec::new();
    let mut k: usize = 0;
    while k < values.len()
        invariant
            k <= values@.len(),
            parts@.len() == k,
            forall|j: int| 0 <= j < k ==> (#[trigger] parts@[j])@ == wire_value_json(values@[j]),
        decreases values.len() - k,
    {
        let mut part = to_owned("{\"wire\":");
        push_decimal(&mut part, values[k].wire as u128);
        push_str(&mut part, ",\"value\":");
        push_str(&mut part, value_to_json(values[k].value).as_str());
        push_str(&mut part, "}");
        parts.push(part);
        k = k + 1;
    }
    assert(views(parts@) =~= values@.map_values(|v: WireValue| wire_value_json(v)));
    let mut out = String::new();
    push_json_array(&mut out, &parts);
    out
}

fn operation_traces_array(ops: &Vec<OperationTrace>) -> (s: String)
    ensures
        s@ == json_array_text(ops@.map_values(|o: OperationTrace| operation_trace_json(o))),
{
    let mut parts: Vec<String> = Vec::new();
    let mut k: usize = 0;
    while k < ops.len()
        invariant
            k <= ops@.len(),
            parts@.len() == k,
            forall|j: int| 0 <= j < k ==> (#[trigger] parts@[j])@ == operation_trace_json(ops@[j]),
        decreases ops.len() - k,
    {
        let o = ops[k];
        let mut part = to_owned("{\"out\":");
        push_decimal(&mut part, o.out as u128);
        push_str(&mut part, ",\"op\":");
        push_str(&mut part, json_string(o.opcode).as_str());
        push_str(&mut part, ",\"lhs\":");
        push_str(&mut part, resolved_to_json(o.lhs).as_str());
        push_str(&mut part, ",\"rhs\":");
        push_str(&mut part, resolved_to_json(o.rhs).as_str());
        push_str(&mut part, ",\"value\":");
        push_str(&mut part, value_to_json(o.value).as_str());
        push_str(&mut part, "}");
        parts.push(part);
        k = k + 1;
    }
    assert(views(parts@) =~= ops@.map_values(|o: OperationTrace| operation_trace_json(o)));
    let mut out = String::new();
    push_json_array(&mut out, &parts);
    out
}

fn constraint_traces_array(cs: &Vec<ConstraintTrace>) -> (s: String)
    ensures
        s@ == json_array_text(cs@.map_values(|c: ConstraintTrace| constraint_trace_json(c))),
{
    let mut parts: Vec<String> = Vec::new();
    let mut k: usize = 0;
    while k < cs.len()
        invariant
            k <= cs@.len(),
            parts@.len() == k,
            forall|j: int| 0 <= j < k ==> (#[trigger] parts@[j])@ == constraint_trace_json(cs@[j]),
        decreases cs.len() - k,
    {
        let c = cs[k];
        let mut part = to_owned("{\"index\":");
        push_decimal(&mut part, c.index as u128);
        push_str(&mut part, ",\"lhs\":");
        push_str(&mut part, resolved_to_json(c.lhs).as_str());
        push_str(&mut part, ",\"rhs\":");
        push_str(&mut part, resolved_to_json(c.rhs).as_str());
        push_str(&mut part, ",\"satisfied\":");
        push_str(&mut part, bool_to_text(c.satisfied));
        push_str(&mut part, "}");
        parts.push(part);
        k = k + 1;
    }
    assert(views(parts@) =~= cs@.map_values(|c: ConstraintTrace| constraint_trace_json(c)));
    let mut out = String::new();
    push_json_array(&mut out, &parts);
    out
}

fn range_traces_array(cs: &Vec<RangeConstraintTrace>) -> (s: String)
    ensures
        s@ == json_array_text(cs@.map_values(|c: RangeConstraintTrace| range_trace_json(c))),
{
    let mut parts: Vec<String> = Vec::new();
    let mut k: usize = 0;
    while k < cs.len()
        invariant
            k <= cs@.len(),
            parts@.len() == k,
            forall|j: int| 0 <= j < k ==> (#[trigger] parts@[j])@ == range_trace_json(cs@[j]),
        decreases cs.len() - k,
    {
        let c = cs[k];
        let mut part = to_owned("{\"index\":");
        push_decimal(&mut part, c.index as u128);
        push_str(&mut part, ",\"value\":");
        push_str(&mut part, resolved_to_json(c.value).as_str());
        push_str(&mut part, ",\"type\":");
        push_str(&mut part, json_string(c.ty.name()).as_str());
        push_str(&mut part, ",\"satisfied\":");
        push_str(&mut part, bool_to_text(c.satisfied));
        push_str(&mut part, "}");
        parts.push(part);
        k = k + 1;
    }
    assert(views(parts@) =~= cs@.map_values(|c: RangeConstraintTrace| range_trace_json(c)));
    let mut out = String::new();
    push_json_array(&mut out, &parts);
    out
}

fn output_traces_array(os: &Vec<OutputTrace>) -> (s: String)
    ensures
        s@ == json_array_text(os@.map_values(|o: OutputTrace| output_trace_json(o))),
{
    let mut parts: Vec<String> = Vec::new();
    let mut k: usize = 0;
    while k < os.len()
        invariant
            k <= os@.len(),
            parts@.len() == k,
            forall|j: int| 0 <= j < k ==> (#[trigger] parts@[j])@ == output_trace_json(os@[j]),
        decreases os.len() - k,
    {
        let mut part = to_owned("{\"name\":");
        push_str(&mut part, json_string(os[k].name.as_str()).as_str());
        push_str(&mut part, ",\"source\":");
        push_str(&mut part, operand_to_json(os[k].source).as_str());
        push_str(&mut part, ",\"value\":");
        push_str(&mut part, value_to_json(os[k].value).as_str());
        push_str(&mut part, "}");
        parts.push(part);
        k = k + 1;
    }
    assert(views(parts@) =~= os@.map_values(|o: OutputTrace| output_trace_json(o)));
    let mut out = String::new();
    push_json_array(&mut out, &parts);
    out
}

// ----- witness trace: text --------------------------------------------------------------------

pub open spec fn status_text(satisfied: bool) -> Seq<char> {
    if satisfied {
        "ok"@
    } else {
        "failed"@
    }
}

pub open spec fn resolved_text(r: ResolvedOperand) -> Seq<char> {
    operand_text(r.operand) + " ("@ + decimal(r.value@) + ")"@
}

pub open spec fn named_value_lines(vs: Seq<NamedValue>) -> Seq<Seq<char>> {
    vs.map_values(|v: NamedValue| "  "@ + v.name@ + " = "@ + decimal(v.value@) + "\n"@)
}

pub open spec fn operation_trace_line(o: OperationTrace) -> Seq<char> {
    "  w"@ + decimal(o.out as nat) + " = "@ + o.opcode@ + " "@ + resolved_text(o.lhs) + " , "@ + resolved_text(o.rhs)
        + " => "@ + decimal(o.value@) + "\n"@
}

pub open spec fn constraint_trace_line(c: ConstraintTrace) -> Seq<char> {
    "  #"@ + decimal(c.index as nat) + ": "@ + resolved_text(c.lhs) + " == "@ + resolved_text(c.rhs) + " ["@
        + status_text(c.satisfied) + "]\n"@
}

pub open spec fn range_trace_line(c: RangeConstraintTrace) -> Seq<char> {
    "  #"@ + decimal(c.index as nat) + ": "@ + resolved_text(c.value) + " in "@ + spelling(c.ty) + " ["@
        + status_text(c.satisfied) + "]\n"@
}

pub open spec fn output_trace_line(o: OutputTrace) -> Seq<char> {
    "  "@ + o.name@ + " = "@ + operand_text(o.source) + " ("@ + decimal(o.value@) + ")\n"@
}

pub open spec fn wire_line(w: WireValue) -> Seq<char> {
    "  w"@ + decimal(w.wire as nat) + " = "@ + decimal(w.value@) + "\n"@
}

/// The text form of a witness trace.
pub open spec fn trace_text(t: WitnessTrace) -> Seq<char> {
    "execution trace for "@ + t.circuit@ + " via "@ + t.backend@ + " over field modulus "@ + t.field_modulus@ + "\n"@
        + "public inputs:\n"@ + lines_or_none(named_value_lines(t.public_inputs@))
        + "private inputs:\n"@ + lines_or_none(named_value_lines(t.private_inputs@))
        + "operations:\n"@ + lines_or_none(t.operations@.map_values(|o: OperationTrace| operation_trace_line(o)))
        + "constraints:\n"@ + lines_or_none(t.constraints@.map_values(|c: ConstraintTrace| constraint_trace_line(c)))
        + "range constraints:\n"@ + lines_or_none(t.range_constraints@.map_values(|c: RangeConstraintTrace| range_trace_line(c)))
        + "outputs:\n"@ + lines_or_none(t.outputs@.map_values(|o: OutputTrace| output_trace_line(o)))
        + "wires:\n"@ + lines_or_none(t.wires@.map_values(|w: WireValue| wire_line(w)))
}

fn status_of(satisfied: bool) -> (s: &'static str)
    ensures
        s@ == status_text(satisfied),
{
    if satisfied {
        "ok"
    } else {
        "failed"
    }
}

fn push_resolved(out: &mut String, r: ResolvedOperand)
    ensures
        final(out)@ == old(out)@ + resolved_text(r),
{
    push_str(out, r.operand.to_text().as_str());
    push_str(out, " (");
    push_str(out, r.value.to_string().as_str());
    push_str(out, ")");
}

fn named_value_lines_of(values: &Vec<NamedValue>) -> (r: Vec<String>)
    ensures
        views(r@) == named_value_lines(values@),
{
    let mut lines: Vec<String> = Vec::new();
    let mut k: usize = 0;
    while k < values.len()
        invariant
            k <= values@.len(),
            lines@.len() == k,
            forall|j: int| 0 <= j < k ==> (#[trigger] lines@[j])@ == "  "@ + values@[j].name@ + " = "@
                + decimal(values@[j].value@) + "\n"@,
        decreases values.len() - k,
    {
        let mut line = to_owned("  ");
        push_str(&mut line, values[k].name.as_str());
        push_str(&mut line, " = ");
        push_str(&mut line, values[k].value.to_string().as_str());
        push_str(&mut line, "\n");
        lines.push(line);
        k = k + 1;
    }
    assert(views(lines@) =~= named_value_lines(values@));
    lines
}

fn operation_trace_lines(ops: &Vec<OperationTrace>) -> (r: Vec<String>)
    ensures
        views(r@) == ops@.map_values(|o: OperationTrace| operation_trace_line(o)),
{
    let mut lines: Vec<String> = Vec::new();
    let mut k: usize = 0;
    while k < ops.len()
        invariant
            k <= ops@.len(),
            lines@.len() == k,
            forall|j: int| 0 <= j < k ==> (#[trigger] lines@[j])@ == operation_trace_line(ops@[j]),
        decreases ops.len() - k,
    {
        let o = ops[k];
        let mut line = to_owned("  w");
        push_decimal(&mut line, o.out as u128);
        push_str(&mut line, " = ");
        push_str(&mut line, o.opcode);
        push_str(&mut line, " ");
        push_resolved(&mut line, o.lhs);
        push_str(&mut line, " , ");
        push_resolved(&mut line, o.rhs);
        push_str(&mut line, " => ");
        push_str(&mut line, o.value.to_string().as_str());
        push_str(&mut line, "\n");
        lines.push(line);
        k = k + 1;
    }
    assert(views(lines@) =~= ops@.map_values(|o: OperationTrace| operation_trace_line(o)));
    lines
}

fn constraint_trace_lines(cs: &Vec<ConstraintTrace>) -> (r: Vec<String>)
    ensures
        views(r@) == cs@.map_values(|c: ConstraintTrace| constraint_trace_line(c)),
{
    let mut lines: Vec<String> = Vec::new();
    let mut k: usize = 0;
    while k < cs.len()
        invariant
            k <= cs@.len(),
            lines@.len() == k,
            forall|j: int| 0 <= j < k ==> (#[trigger] lines@[j])@ == constraint_trace_line(cs@[j]),
        decreases cs.len() - k,
    {
        let c = cs[k];
        let mut line = to_owned("  #");
        push_decimal(&mut line, c.index as u128);
        push_str(&mut line, ": ");
        push_resolved(&mut line, c.lhs);
        push_str(&mut line, " == ");
        push_resolved(&mut line, c.rhs);
        push_str(&mut line, " [");
        push_str(&mut line, status_of(c.satisfied));
        push_str(&mut line, "]\n");
        lines.push(line);
        k = k + 1;
    }
    assert(views(lines@) =~= cs@.map_values(|c: ConstraintTrace| constraint_trace_line(c)));
    lines
}

fn range_trace_lines(cs: &Vec<RangeConstraintTrace>) -> (r: Vec<String>)
    ensures
        views(r@) == cs@.map_values(|c: RangeConstraintTrace| range_trace_line(c)),
{
    let mut lines: Vec<String> = Vec::new();
    let mut k: usize = 0;
    while k < cs.len()
        invariant
            k <= cs@.len(),
            lines@.len() == k,
            forall|j: int| 0 <= j < k ==> (#[trigger] lines@[j])@ == range_trace_line(cs@[j]),
        decreases cs.len() - k,
    {
        let c = cs[k];
        let mut line = to_owned("  #");
        push_decimal(&mut line, c.index as u128);
        push_str(&mut line, ": ");
        push_resolved(&mut line, c.value);
        push_str(&mut line, " in ");
        push_str(&mut line, c.ty.name());
        push_str(&mut line, " [");
        push_str(&mut line, status_of(c.satisfied));
        push_str(&mut line, "]\n");
        lines.push(line);
        k = k + 1;
    }
    assert(views(lines@) =~= cs@.map_values(|c: RangeConstraintTrace| range_trace_line(c)));
    lines
}

fn output_trace_lines(os: &Vec<OutputTrace>) -> (r: Vec<String>)
    ensures
        views(r@) == os@.map_values(|o: OutputTrace| output_trace_line(o)),
{
    let mut lines: Vec<String> = Vec::new();
    let mut k: usize = 0;
    while k < os.len()
        invariant
            k <= os@.len(),
            lines@.len() == k,
            forall|j: int| 0 <= j < k ==> (#[trigger] lines@[j])@ == output_trace_line(os@[j]),
        decreases os.len() - k,
    {
        let mut line = to_owned("  ");
        push_str(&mut line, os[k].name.as_str());
        push_str(&mut line, " = ");
        push_str(&mut line, os[k].source.to_text().as_str());
        push_str(&mut line, " (");
        push_str(&mut line, os[k].value.to_string().as_str());
        push_str(&mut line, ")\n");
        lines.push(line);
        k = k + 1;
    }
    assert(views(lines@) =~= os@.map_values(|o: OutputTrace| output_trace_line(o)));
    lines
}

fn wire_lines(ws: &Vec<WireValue>) -> (r: Vec<String>)
    ensures
        views(r@) == ws@.map_values(|w: WireValue| wire_line(w)),
{
    let mut lines: Vec<String> = Vec::new();
    let mut k: usize = 0;
    while k < ws.len()
        invariant
            k <= ws@.len(),
            lines@.len() == k,
            forall|j: int| 0 <= j < k ==> (#[trigger] lines@[j])@ == wire_line(ws@[j]),
        decreases ws.len() - k,
    {
        let mut line = to_owned("  w");
        push_decimal(&mut line, ws[k].wire as u128);
        push_str(&mut line, " = ");
        push_str(&mut line, ws[k].value.to_string().as_str());
        push_str(&mut line, "\n");
        lines.push(line);
        k = k + 1;
    }
    assert(views(lines@) =~= ws@.map_values(|w: WireValue| wire_line(w)));
    lines
}

impl WitnessTrace {
    /// The JSON document of the trace.
    pub fn to_json(&self) -> (s: String)
        ensures
            s@ == trace_json(*self),
    {
        let mut out = to_owned("{");
        push_field(&mut out, "circuit", json_string(self.circuit.as_str()).as_str());
        push_str(&mut out, ",");
        push_field(&mut out, "backend", json_string(self.backend).as_str());
        push_str(&mut out, ",");
        push_field(&mut out, "field_modulus", json_string(self.field_modulus).as_str());
        push_str(&mut out, ",");
        push_field(&mut out, "public_inputs", named_values_array(&self.public_inputs).as_str());
        push_str(&mut out, ",");
        push_field(&mut out, "private_inputs", named_values_array(&self.private_inputs).as_str());
        push_str(&mut out, ",");
        push_field(&mut out, "wires", wires_array(&self.wires).as_str());
        push_str(&mut out, ",");
        push_field(&mut out, "operations", operation_traces_array(&self.operations).as_str());
        push_str(&mut out, ",");
        push_field(&mut out, "constraints", constraint_traces_array(&self.constraints).as_str());
        push_str(&mut out, ",");
        push_field(&mut out, "range_constraints", range_traces_array(&self.range_constraints).as_str());
        push_str(&mut out, ",");
        push_field(&mut out, "outputs", output_traces_array(&self.outputs).as_str());
        push_str(&mut out, "}");
        out
    }

    /// The text form of the trace: header, inputs, operations, constraints, range constraints,
    /// outputs and the final wire table.
    pub fn to_text(&self) -> (s: String)
        ensures
            s@ == trace_text(*self),
    {
        let mut out = to_owned("execution trace for ");
        push_str(&mut out, self.circuit.as_str());
        push_str(&mut out, " via ");
        push_str(&mut out, self.backend);
        push_str(&mut out, " over field modulus ");
        push_str(&mut out, self.field_modulus);
        push_str(&mut out, "\n");
        push_str(&mut out, "public inputs:\n");
        push_lines_or_none(&mut out, &named_value_lines_of(&self.public_inputs));
        push_str(&mut out, "private inputs:\n");
        push_lines_or_none(&mut out, &named_value_lines_of(&self.private_inputs));
        push_str(&mut out, "operations:\n");
        push_lines_or_none(&mut out, &operation_trace_lines(&self.operations));
        push_str(&mut out, "constraints:\n");
        push_lines_or_none(&mut out, &constraint_trace_lines(&self.constraints));
        push_str(&mut out, "range constraints:\n");
        push_lines_or_none(&mut out, &range_trace_lines(&self.range_constraints));
        push_str(&mut out, "outputs:\n");
        push_lines_or_none(&mut out, &output_trace_lines(&self.outputs));
        push_str(&mut out, "wires:\n");
        push_lines_or_none(&mut out, &wire_lines(&self.wires));
        out
    }
}

} // verus!
