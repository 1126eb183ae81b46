//! A non-zero-knowledge debug proof system: keys and proofs are digests of the circuit and of
//! a witness trace, and verification re-executes the circuit on the values a proof carries.
use vstd::prelude::*;

use crate::ast::{spelling, Type};
use crate::constraint::{self, constraint_ir_json, lowers_to, ConstraintIr};
use crate::error::{RuntimeError, RuntimeResult};
use crate::eval::RuntimeInputs;
use crate::field::{modulus, parsed_value, FieldElement};
use crate::ir::{CircuitIr, NamedInput, Output};
use crate::listing::{
    constraint_trace_json, named_value_json, operation_trace_json, output_trace_json, range_trace_json, trace_json, wire_value_json,
};
use crate::records::{
    has_no, lemma_decimal_reads_back, lemma_lines_text_concat, strip_cr, lemma_split_nonempty, lines_text, parse_usize, split_at_char, split_lines, split_on, text_lines, trim,
    trimmed, unsigned_error, unsigned_value,
};
use crate::text::{
    decimal, json_array_text, json_string, push_char, push_decimal, push_json_array, push_str, quoted,
    to_owned, views,
};
use crate::ir::{op_lhs, op_rhs};
use crate::eval::lookup;
use crate::trace::{
    assign_wires, execution_succeeds, final_wires, input_wires, is_trace_of, lemma_assign_wires_agree, operand_value, run_ops,
    trace_execution, writes_in_range, ConstraintTrace, NamedValue, OperationTrace, OutputTrace, RangeConstraintTrace, WireValue,
    WitnessTrace,
};
use crate::eval::eq_str;

verus! {

pub const DEBUG_BACKEND_NAME: &'static str = "debug-non-zk";

#[derive(Debug, PartialEq, Eq)]
pub struct DebugVerificationKey {
    pub backend: &'static str,
    pub circuit: String,
    pub circuit_digest: String,
    pub constraint_digest: String,
    pub public_inputs: Vec<InputSpec>,
    pub private_inputs: Vec<InputSpec>,
    pub outputs: Vec<String>,
    pub equations: usize,
    pub range_assertions: usize,
    pub wires: usize,
}

#[derive(Debug, PartialEq, Eq)]
pub struct DebugProof {
    pub backend: String,
    pub circuit: String,
    pub circuit_digest: String,
    pub constraint_digest: String,
    pub trace_digest: String,
    pub public_inputs: Vec<NamedValue>,
    pub private_inputs: Vec<NamedValue>,
    pub outputs: Vec<NamedValue>,
    pub wires: Vec<WireValue>,
}

#[derive(Debug, PartialEq, Eq)]
pub struct DebugVerificationReport {
    pub backend: String,
    pub circuit: String,
    pub public_inputs: usize,
    pub private_inputs: usize,
    pub outputs: usize,
    pub wires: usize,
}

#[derive(Debug, PartialEq, Eq)]
pub struct InputSpec {
    pub name: String,
    pub ty: Type,
}

// ----- digests --------------------------------------------------------------------------------

/// 64-bit FNV-1a over `bytes`.
pub open spec fn fnv1a(bytes: Seq<u8>) -> u64
    decreases bytes.len(),
{
    if bytes.len() == 0 {
        0xcbf29ce484222325u64
    } else {
        let h = fnv1a(bytes.drop_last()) ^ (bytes.last() as u64);
        ((h as nat * 0x100000001b3nat) % 0x1_0000_0000_0000_0000nat) as u64
    }
}

pub open spec fn hex_char(d: nat) -> char {
    if d < 10 {
        (48 + d) as char
    } else {
        (87 + d) as char
    }
}

/// The low `width` hexadecimal digits of `v`, most significant first, lower case.
pub open spec fn hex_fixed(v: nat, width: nat) -> Seq<char>
    decreases width,
{
    if width == 0 {
        Seq::empty()
    } else {
        hex_fixed(v / 16, (width - 1) as nat).push(hex_char(v % 16))
    }
}

/// The digest of a text: FNV-1a of its UTF-8 bytes as 16 hexadecimal digits.
pub open spec fn digest(text: Seq<char>) -> Seq<char> {
    hex_fixed(fnv1a(vstd::utf8::encode_utf8(text)) as nat, 16)
}

fn push_hex_fixed(out: &mut String, v: u64, width: u8)
    requires
        width <= 16,
    ensures
        final(out)@ == old(out)@ + hex_fixed(v as nat, width as nat),
    decreases width,
{
    if width > 0 {
        push_hex_fixed(out, v / 16, width - 1);
        let d = v % 16;
        let c = if d < 10 {
            ((48 + d) as u8) as char
        } else {
            ((87 + d) as u8) as char
        };
        push_char(out, c);
        assert(out@ =~= old(out)@ + hex_fixed(v as nat, width as nat));
    }
}

fn digest_text(input: &str) -> (s: String)
    ensures
        s@ == digest(input@),
{
    let bytes = input.as_bytes();
    let mut hash: u64 = 0xcbf29ce484222325u64;
    let mut i: usize = 0;
    while i < bytes.len()
        invariant
            i <= bytes@.len(),
            bytes@ == vstd::utf8::encode_utf8(input@),
            hash == fnv1a(bytes@.subrange(0, i as int)),
        decreases bytes.len() - i,
    {
        let b = bytes[i];
        assert(bytes@.subrange(0, i + 1).drop_last() =~= bytes@.subrange(0, i as int));
        hash = (hash ^ (b as u64)).wrapping_mul(0x100000001b3u64);
        i = i + 1;
    }
    assert(bytes@.subrange(0, i as int) =~= bytes@);
    let mut out = String::new();
    push_hex_fixed(&mut out, hash, 16);
    out
}

// ----- keys -----------------------------------------------------------------------------------

/// The JSON document of the constraint system of `ir` (every lowering of `ir` renders alike; see
/// `lemma_constraint_json_unique`).
pub open spec fn constraint_json_of(ir: CircuitIr) -> Seq<char> {
    constraint_ir_json(choose|c: ConstraintIr| lowers_to(ir, c))
}

/// What identifies a circuit: name, wire count and constraint system.
pub open spec fn circuit_identity(ir: CircuitIr) -> Seq<char> {
    ir.name@ + seq!['|'] + decimal(ir.next_wire as nat) + seq!['|'] + constraint_json_of(ir)
}

/// Every constraint system that `ir` lowers to has the same JSON document.
pub proof fn lemma_constraint_json_unique(ir: CircuitIr, c1: ConstraintIr, c2: ConstraintIr)
    requires
        lowers_to(ir, c1),
        lowers_to(ir, c2),
    ensures
        constraint_ir_json(c1) == constraint_ir_json(c2),
{
    assert(c1.public_inputs@.map_values(|v: constraint::Variable| constraint::variable_json(v)) =~= c2.public_inputs@.map_values(
        |v: constraint::Variable| constraint::variable_json(v),
    ));
    assert(c1.private_inputs@.map_values(|v: constraint::Variable| constraint::variable_json(v)) =~= c2.private_inputs@.map_values(
        |v: constraint::Variable| constraint::variable_json(v),
    ));
    assert(c1.witnesses@.map_values(|v: constraint::Variable| constraint::variable_json(v)) =~= c2.witnesses@.map_values(
        |v: constraint::Variable| constraint::variable_json(v),
    ));
    assert forall|k: int| 0 <= k < c1.equations@.len() implies #[trigger] c1.equations@[k] == c2.equations@[k] by {
        let n = ir.operations@.len() as int;
        if k >= n {
            assert(c1.equations@[n + (k - n)] == constraint::assertion_of(ir.constraints@[k - n]));
            assert(c2.equations@[n + (k - n)] == constraint::assertion_of(ir.constraints@[k - n]));
        }
    }
    assert(c1.equations@ =~= c2.equations@);
    assert(c1.range_assertions@ =~= c2.range_assertions@);
    assert(c1.outputs@.map_values(|o: constraint::ConstraintOutput| constraint::output_json(o)) =~= c2.outputs@.map_values(
        |o: constraint::ConstraintOutput| constraint::output_json(o),
    ));
}

proof fn lemma_lowered_json(ir: CircuitIr, c: ConstraintIr)
    requires
        lowers_to(ir, c),
    ensures
        constraint_ir_json(c) == constraint_json_of(ir),
{
    let chosen = choose|d: ConstraintIr| lowers_to(ir, d);
    lemma_constraint_json_unique(ir, c, chosen);
}

pub open spec fn input_specs_match(specs: Seq<InputSpec>, inputs: Seq<NamedInput>) -> bool {
    &&& specs.len() == inputs.len()
    &&& forall|i: int| 0 <= i < specs.len() ==> (#[trigger] specs[i]).name@ == inputs[i].name@ && specs[i].ty == inputs[i].ty
}

/// The verification key of a circuit.
pub open spec fn is_key_of(ir: CircuitIr, k: DebugVerificationKey) -> bool {
    &&& k.backend@ == DEBUG_BACKEND_NAME@
    &&& k.circuit@ == ir.name@
    &&& k.circuit_digest@ == digest(circuit_identity(ir))
    &&& k.constraint_digest@ == digest(constraint_json_of(ir))
    &&& input_specs_match(k.public_inputs@, ir.public_inputs@)
    &&& input_specs_match(k.private_inputs@, ir.private_inputs@)
    &&& views(k.outputs@) == ir.outputs@.map_values(|o: Output| o.name@)
    &&& k.equations == ir.operations@.len() + ir.constraints@.len()
    &&& k.range_assertions == ir.range_constraints@.len()
    &&& k.wires == ir.next_wire
}

fn input_specs(inputs: &Vec<NamedInput>) -> (r: Vec<InputSpec>)
    ensures
        input_specs_match(r@, inputs@),
{
    let mut out: Vec<InputSpec> = Vec::new();
    let mut i: usize = 0;
    while i < inputs.len()
        invariant
            i <= inputs@.len(),
            out@.len() == i,
            forall|k: int| 0 <= k < i ==> (#[trigger] out@[k]).name@ == inputs@[k].name@ && out@[k].ty == inputs@[k].ty,
        decreases inputs.len() - i,
    {
        out.push(InputSpec { name: inputs[i].name.clone(), ty: inputs[i].ty });
        i = i + 1;
    }
    out
}

fn circuit_identity_text(ir: &CircuitIr) -> (s: String)
    ensures
        s@ == circuit_identity(*ir),
{
    let constraints = constraint::lower(ir);
    proof {
        lemma_lowered_json(*ir, constraints);
    }
    let mut out = String::new();
    push_str(&mut out, ir.name.as_str());
    push_char(&mut out, '|');
    push_decimal(&mut out, ir.next_wire as u128);
    push_char(&mut out, '|');
    push_str(&mut out, constraints.to_json().as_str());
    assert(out@ =~= circuit_identity(*ir));
    out
}

/// The verification key of `ir`: digests of its identity and of its constraint system, its
/// input and output names, and its sizes.
pub fn debug_keygen(ir: &CircuitIr) -> (k: DebugVerificationKey)
    ensures
        is_key_of(*ir, k),
{
    let constraints = constraint::lower(ir);
    proof {
        lemma_lowered_json(*ir, constraints);
    }
    let mut outputs: Vec<String> = Vec::new();
    let mut i: usize = 0;
    while i < ir.outputs.len()
        invariant
            i <= ir.outputs@.len(),
            outputs@.len() == i,
            forall|k: int| 0 <= k < i ==> (#[trigger] outputs@[k])@ == ir.outputs@[k].name@,
        decreases ir.outputs.len() - i,
    {
        outputs.push(ir.outputs[i].name.clone());
        i = i + 1;
    }
    assert(views(outputs@) =~= ir.outputs@.map_values(|o: Output| o.name@));
    DebugVerificationKey {
        backend: DEBUG_BACKEND_NAME,
        circuit: ir.name.clone(),
        circuit_digest: digest_text(circuit_identity_text(ir).as_str()),
        constraint_digest: digest_text(constraints.to_json().as_str()),
        public_inputs: input_specs(&ir.public_inputs),
        private_inputs: input_specs(&ir.private_inputs),
        outputs,
        equations: constraints.equations.len(),
        range_assertions: constraints.range_assertions.len(),
        wires: ir.next_wire,
    }
}

// ----- proofs ---------------------------------------------------------------------------------

/// The same names and values.
pub open spec fn named_values_agree(a: Seq<NamedValue>, b: Seq<NamedValue>) -> bool {
    &&& a.len() == b.len()
    &&& forall|i: int| 0 <= i < a.len() ==> (#[trigger] a[i]).name@ == b[i].name@ && a[i].value@ == b[i].value@
}

pub open spec fn wires_agree(a: Seq<WireValue>, b: Seq<WireValue>) -> bool {
    &&& a.len() == b.len()
    &&& forall|i: int| 0 <= i < a.len() ==> (#[trigger] a[i]).wire == b[i].wire && a[i].value@ == b[i].value@
}

/// The proof `p` records the run of `ir` on `inputs`.
pub open spec fn is_proof_of(ir: CircuitIr, inputs: RuntimeInputs, p: DebugProof) -> bool {
    &&& p.backend@ == DEBUG_BACKEND_NAME@
    &&& p.circuit@ == ir.name@
    &&& p.circuit_digest@ == digest(circuit_identity(ir))
    &&& p.constraint_digest@ == digest(constraint_json_of(ir))
    &&& exists|t: WitnessTrace| #[trigger] is_trace_of(ir, inputs, t) && proof_records(p, t)
}

/// Runs `ir` on `inputs` and records the run as a debug proof: the key's digests, the digest of
/// the witness trace, the inputs, the outputs and the final wire table.
#[verifier::rlimit(80)]
pub fn debug_prove(ir: &CircuitIr, inputs: &RuntimeInputs) -> (r: RuntimeResult<DebugProof>)
    requires
        writes_in_range(*ir),
    ensures
        r is Ok <==> execution_succeeds(*ir, *inputs),
        r matches Ok(p) ==> is_proof_of(*ir, *inputs, p),
{
    let key = debug_keygen(ir);
    let trace = trace_execution(ir, inputs)?;
    let trace_digest = digest_text(trace.to_json().as_str());
    let mut outputs: Vec<NamedValue> = Vec::new();
    let mut i: usize = 0;
    while i < trace.outputs.len()
        invariant
            i <= trace.outputs@.len(),
            outputs@.len() == i,
            forall|k: int| 0 <= k < i ==> (#[trigger] outputs@[k]).name@ == trace.outputs@[k].name@
                && outputs@[k].value == trace.outputs@[k].value,
        decreases trace.outputs.len() - i,
    {
        outputs.push(NamedValue { name: trace.outputs[i].name.clone(), value: trace.outputs[i].value });
        i = i + 1;
    }
    let ghost t = trace;
    let proof = DebugProof {
        backend: to_owned(DEBUG_BACKEND_NAME),
        circuit: ir.name.clone(),
        circuit_digest: key.circuit_digest,
        constraint_digest: key.constraint_digest,
        trace_digest,
        public_inputs: trace.public_inputs,
        private_inputs: trace.private_inputs,
        outputs,
        wires: trace.wires,
    };
    assert(is_trace_of(*ir, *inputs, t));
    Ok(proof)
}

fn strings_equal(a: &String, b: &String) -> (r: bool)
    ensures
        r == (a@ == b@),
{
    eq_str(a.as_str(), b.as_str())
}

fn named_values_equal(a: &Vec<NamedValue>, b: &Vec<NamedValue>) -> (r: bool)
    ensures
        r == named_values_agree(a@, b@),
{
    if a.len() != b.len() {
        return false;
    }
    let mut i: usize = 0;
    while i < a.len()
        invariant
            i <= a@.len(),
            a@.len() == b@.len(),
            forall|k: int| 0 <= k < i ==> (#[trigger] a@[k]).name@ == b@[k].name@ && a@[k].value@ == b@[k].value@,
        decreases a.len() - i,
    {
        if !strings_equal(&a[i].name, &b[i].name) || !a[i].value.equals(&b[i].value) {
            return false;
        }
        i = i + 1;
    }
    true
}

fn wires_equal(a: &Vec<WireValue>, b: &Vec<WireValue>) -> (r: bool)
    ensures
        r == wires_agree(a@, b@),
{
    if a.len() != b.len() {
        return false;
    }
    let mut i: usize = 0;
    while i < a.len()
        invariant
            i <= a@.len(),
            a@.len() == b@.len(),
            forall|k: int| 0 <= k < i ==> (#[trigger] a@[k]).wire == b@[k].wire && a@[k].value@ == b@[k].value@,
        decreases a.len() - i,
    {
        if a[i].wire != b[i].wire || !a[i].value.equals(&b[i].value) {
            return false;
        }
        i = i + 1;
    }
    true
}

/// The two proofs record the same thing.
pub open spec fn proofs_agree(a: DebugProof, b: DebugProof) -> bool {
    &&& a.backend@ == b.backend@
    &&& a.circuit@ == b.circuit@
    &&& a.circuit_digest@ == b.circuit_digest@
    &&& a.constraint_digest@ == b.constraint_digest@
    &&& a.trace_digest@ == b.trace_digest@
    &&& named_values_agree(a.public_inputs@, b.public_inputs@)
    &&& named_values_agree(a.private_inputs@, b.private_inputs@)
    &&& named_values_agree(a.outputs@, b.outputs@)
    &&& wires_agree(a.wires@, b.wires@)
}

fn proofs_equal(a: &DebugProof, b: &DebugProof) -> (r: bool)
    ensures
        r == proofs_agree(*a, *b),
{
    strings_equal(&a.backend, &b.backend) && strings_equal(&a.circuit, &b.circuit)
        && strings_equal(&a.circuit_digest, &b.circuit_digest)
        && strings_equal(&a.constraint_digest, &b.constraint_digest)
        && strings_equal(&a.trace_digest, &b.trace_digest)
        && named_values_equal(&a.public_inputs, &b.public_inputs)
        && named_values_equal(&a.private_inputs, &b.private_inputs)
        && named_values_equal(&a.outputs, &b.outputs)
        && wires_equal(&a.wires, &b.wires)
}

/// The name of each input looks up the same value in both assignments.
pub open spec fn lookups_agree(inputs: Seq<NamedInput>, e1: Seq<(String, FieldElement)>, e2: Seq<(String, FieldElement)>) -> bool {
    forall|i: int| 0 <= i < inputs.len() ==> lookup(e1, (#[trigger] inputs[i]).name@) == lookup(e2, inputs[i].name@)
}

/// Two runs of `ir` on assignments that agree on its inputs leave the same wire tables.
proof fn lemma_runs_agree(ir: CircuitIr, in1: RuntimeInputs, in2: RuntimeInputs)
    requires
        lookups_agree(ir.public_inputs@, in1.public_entries(), in2.public_entries()),
        lookups_agree(ir.private_inputs@, in1.private_entries(), in2.private_entries()),
    ensures
        input_wires(ir, in1) == input_wires(ir, in2),
        final_wires(ir, in1) == final_wires(ir, in2),
{
    let zeros = Seq::new(ir.next_wire as nat, |i: int| 0nat);
    lemma_assign_wires_agree(ir.public_inputs@, in1.public_entries(), in2.public_entries(), zeros);
    match assign_wires(ir.public_inputs@, in1.public_entries(), zeros) {
        None => {},
        Some(w1) => {
            lemma_assign_wires_agree(ir.private_inputs@, in1.private_entries(), in2.private_entries(), w1);
        },
    }
}

/// Two traces of `ir` on assignments that agree on its inputs record the same thing, and have
/// the same JSON document.
proof fn lemma_traces_agree(ir: CircuitIr, in1: RuntimeInputs, in2: RuntimeInputs, t1: WitnessTrace, t2: WitnessTrace)
    requires
        is_trace_of(ir, in1, t1),
        is_trace_of(ir, in2, t2),
        lookups_agree(ir.public_inputs@, in1.public_entries(), in2.public_entries()),
        lookups_agree(ir.private_inputs@, in1.private_entries(), in2.private_entries()),
    ensures
        named_values_agree(t1.public_inputs@, t2.public_inputs@),
        named_values_agree(t1.private_inputs@, t2.private_inputs@),
        wires_agree(t1.wires@, t2.wires@),
        t1.outputs@.len() == t2.outputs@.len(),
        forall|i: int| 0 <= i < t1.outputs@.len() ==> (#[trigger] t1.outputs@[i]).name@ == t2.outputs@[i].name@
            && t1.outputs@[i].value@ == t2.outputs@[i].value@,
        trace_json(t1) == trace_json(t2),
{
    lemma_runs_agree(ir, in1, in2);
    let start = input_wires(ir, in1)->0;
    let wires = final_wires(ir, in1)->0;
    assert forall|i: int| 0 <= i < t1.public_inputs@.len() implies (#[trigger] t1.public_inputs@[i]).name@ == t2.public_inputs@[i].name@
        && t1.public_inputs@[i].value@ == t2.public_inputs@[i].value@ by {
        assert(lookup(in1.public_entries(), ir.public_inputs@[i].name@) == lookup(in2.public_entries(), ir.public_inputs@[i].name@));
    }
    assert forall|i: int| 0 <= i < t1.private_inputs@.len() implies (#[trigger] t1.private_inputs@[i]).name@ == t2.private_inputs@[i].name@
        && t1.private_inputs@[i].value@ == t2.private_inputs@[i].value@ by {
        assert(lookup(in1.private_entries(), ir.private_inputs@[i].name@) == lookup(in2.private_entries(), ir.private_inputs@[i].name@));
    }
    assert(t1.public_inputs@.map_values(|v: NamedValue| named_value_json(v)) =~= t2.public_inputs@.map_values(|v: NamedValue| named_value_json(v)));
    assert(t1.private_inputs@.map_values(|v: NamedValue| named_value_json(v)) =~= t2.private_inputs@.map_values(|v: NamedValue| named_value_json(v)));
    assert(t1.wires@.map_values(|v: WireValue| wire_value_json(v)) =~= t2.wires@.map_values(|v: WireValue| wire_value_json(v)));
    assert forall|k: int| 0 <= k < t1.operations@.len() implies operation_trace_json(#[trigger] t1.operations@[k]) == operation_trace_json(t2.operations@[k]) by {
        let before = run_ops(ir.operations@.subrange(0, k), start)->0;
        assert(operand_value(op_lhs(ir.operations@[k].kind), before) == Some(t1.operations@[k].lhs.value@));
        assert(operand_value(op_lhs(ir.operations@[k].kind), before) == Some(t2.operations@[k].lhs.value@));
        assert(operand_value(op_rhs(ir.operations@[k].kind), before) == Some(t1.operations@[k].rhs.value@));
        assert(operand_value(op_rhs(ir.operations@[k].kind), before) == Some(t2.operations@[k].rhs.value@));
    }
    assert(t1.operations@.map_values(|o: OperationTrace| operation_trace_json(o)) =~= t2.operations@.map_values(
        |o: OperationTrace| operation_trace_json(o),
    ));
    assert forall|c: int| 0 <= c < t1.constraints@.len() implies constraint_trace_json(#[trigger] t1.constraints@[c]) == constraint_trace_json(t2.constraints@[c]) by {
        assert(operand_value(ir.constraints@[c].lhs, wires) == Some(t1.constraints@[c].lhs.value@));
        assert(operand_value(ir.constraints@[c].lhs, wires) == Some(t2.constraints@[c].lhs.value@));
        assert(operand_value(ir.constraints@[c].rhs, wires) == Some(t1.constraints@[c].rhs.value@));
        assert(operand_value(ir.constraints@[c].rhs, wires) == Some(t2.constraints@[c].rhs.value@));
    }
    assert(t1.constraints@.map_values(|c: ConstraintTrace| constraint_trace_json(c)) =~= t2.constraints@.map_values(
        |c: ConstraintTrace| constraint_trace_json(c),
    ));
    assert forall|c: int| 0 <= c < t1.range_constraints@.len() implies range_trace_json(#[trigger] t1.range_constraints@[c]) == range_trace_json(t2.range_constraints@[c]) by {
        assert(operand_value(ir.range_constraints@[c].value, wires) == Some(t1.range_constraints@[c].value.value@));
        assert(operand_value(ir.range_constraints@[c].value, wires) == Some(t2.range_constraints@[c].value.value@));
    }
    assert(t1.range_constraints@.map_values(|c: RangeConstraintTrace| range_trace_json(c)) =~= t2.range_constraints@.map_values(
        |c: RangeConstraintTrace| range_trace_json(c),
    ));
    assert forall|i: int| 0 <= i < t1.outputs@.len() implies (#[trigger] t1.outputs@[i]).name@ == t2.outputs@[i].name@
        && t1.outputs@[i].value@ == t2.outputs@[i].value@ by {
        assert(operand_value(ir.outputs@[i].value, wires) == Some(t1.outputs@[i].value@));
        assert(operand_value(ir.outputs@[i].value, wires) == Some(t2.outputs@[i].value@));
    }
    assert(t1.outputs@.map_values(|o: OutputTrace| output_trace_json(o)) =~= t2.outputs@.map_values(|o: OutputTrace| output_trace_json(o)));
}

/// The inputs a proof carries, public and private, assigned in order (a later value for the
/// same name wins).
pub open spec fn carries_inputs(p: DebugProof, inputs: RuntimeInputs) -> bool {
    &&& forall|n: Seq<char>| #[trigger] crate::eval::lookup(inputs.public_entries(), n) == last_value(p.public_inputs@, n)
    &&& forall|n: Seq<char>| #[trigger] crate::eval::lookup(inputs.private_entries(), n) == last_value(p.private_inputs@, n)
}

/// The value of the last entry named `n`.
pub open spec fn last_value(values: Seq<NamedValue>, n: Seq<char>) -> Option<nat>
    decreases values.len(),
{
    if values.len() == 0 {
        None
    } else if values.last().name@ == n {
        Some(values.last().value@)
    } else {
        last_value(values.drop_last(), n)
    }
}

proof fn lemma_last_value_found(values: Seq<NamedValue>, n: Seq<char>)
    ensures
        last_value(values, n) is Some <==> exists|j: int| 0 <= j < values.len() && #[trigger] values[j].name@ == n,
        last_value(values, n) matches Some(x) ==> exists|j: int| 0 <= j < values.len() && #[trigger] values[j].name@ == n
            && values[j].value@ == x,
    decreases values.len(),
{
    if values.len() > 0 {
        let init = values.drop_last();
        lemma_last_value_found(init, n);
        if values.last().name@ != n {
            assert forall|j: int| 0 <= j < values.len() && #[trigger] values[j].name@ == n implies 0 <= j < init.len()
                && init[j].name@ == n by {
                if j == values.len() - 1 {
                    assert(values[j] == values.last());
                }
            }
            if last_value(values, n) is Some {
                let j = choose|j: int| 0 <= j < init.len() && #[trigger] init[j].name@ == n && init[j].value@ == last_value(values, n)->0;
                assert(values[j] == init[j]);
            }
            if exists|j: int| 0 <= j < values.len() && #[trigger] values[j].name@ == n {
                let j = choose|j: int| 0 <= j < values.len() && #[trigger] values[j].name@ == n;
                assert(init[j].name@ == n);
            }
        } else {
            assert(values[values.len() - 1] == values.last());
        }
    }
}

/// The recorded inputs of a proof of `ir`, assigned again, give each input of `ir` the value it
/// had, and name nothing else.
proof fn lemma_carried_lookups(inputs: Seq<NamedInput>, e: Seq<(String, FieldElement)>, recorded: Seq<NamedValue>, carried: Seq<(String, FieldElement)>)
    requires
        crate::trace::named_values_match(recorded, inputs, e),
        forall|n: Seq<char>| #[trigger] lookup(carried, n) == last_value(recorded, n),
    ensures
        lookups_agree(inputs, carried, e),
        forall|k: int| 0 <= k < carried.len() ==> exists|j: int| 0 <= j < inputs.len() && #[trigger] inputs[j].name@ == (#[trigger] carried[k]).0@,
{
    assert forall|i: int| 0 <= i < inputs.len() implies lookup(carried, (#[trigger] inputs[i]).name@) == lookup(e, inputs[i].name@) by {
        let n = inputs[i].name@;
        lemma_last_value_found(recorded, n);
        assert(recorded[i].name@ == n);
        let x = last_value(recorded, n)->0;
        let j = choose|j: int| 0 <= j < recorded.len() && #[trigger] recorded[j].name@ == n && recorded[j].value@ == x;
        assert(inputs[j].name@ == n);
        assert(lookup(e, inputs[j].name@) == Some(recorded[j].value@));
        assert(lookup(carried, n) == last_value(recorded, n));
    }
    assert forall|k: int| 0 <= k < carried.len() implies exists|j: int| 0 <= j < inputs.len() && #[trigger] inputs[j].name@ == (#[trigger] carried[k]).0@ by {
        let n = carried[k].0@;
        crate::eval::lemma_lookup_present(carried, k);
        assert(lookup(carried, n) == last_value(recorded, n));
        lemma_last_value_found(recorded, n);
        let j = choose|j: int| 0 <= j < recorded.len() && #[trigger] recorded[j].name@ == n;
        assert(inputs[j].name@ == n);
    }
}

/// The inputs recorded by a trace of a successful run, assigned again, make the circuit run the
/// same way.
proof fn lemma_carried_run(ir: CircuitIr, inputs: RuntimeInputs, t: WitnessTrace, p: DebugProof, carried: RuntimeInputs)
    requires
        execution_succeeds(ir, inputs),
        is_trace_of(ir, inputs, t),
        named_values_agree(p.public_inputs@, t.public_inputs@),
        named_values_agree(p.private_inputs@, t.private_inputs@),
        carries_inputs(p, carried),
    ensures
        execution_succeeds(ir, carried),
        lookups_agree(ir.public_inputs@, carried.public_entries(), inputs.public_entries()),
        lookups_agree(ir.private_inputs@, carried.private_entries(), inputs.private_entries()),
{
    assert(crate::trace::named_values_match(p.public_inputs@, ir.public_inputs@, inputs.public_entries()));
    assert(crate::trace::named_values_match(p.private_inputs@, ir.private_inputs@, inputs.private_entries()));
    lemma_carried_lookups(ir.public_inputs@, inputs.public_entries(), p.public_inputs@, carried.public_entries());
    lemma_carried_lookups(ir.private_inputs@, inputs.private_entries(), p.private_inputs@, carried.private_entries());
    lemma_runs_agree(ir, carried, inputs);
    assert forall|k: int| 0 <= k < carried.public_entries().len() implies crate::trace::declares_input(ir, #[trigger] carried.public_entries()[k].0@) by {
        let j = choose|j: int| 0 <= j < ir.public_inputs@.len() && #[trigger] ir.public_inputs@[j].name@ == carried.public_entries()[k].0@;
    }
    assert forall|k: int| 0 <= k < carried.private_entries().len() implies crate::trace::declares_input(ir, #[trigger] carried.private_entries()[k].0@) by {
        let j = choose|j: int| 0 <= j < ir.private_inputs@.len() && #[trigger] ir.private_inputs@[j].name@ == carried.private_entries()[k].0@;
    }
}

/// The trace a proof was made from, with what the proof records of it.
pub open spec fn proof_records(p: DebugProof, t: WitnessTrace) -> bool {
    &&& p.trace_digest@ == digest(trace_json(t))
    &&& named_values_agree(p.public_inputs@, t.public_inputs@)
    &&& named_values_agree(p.private_inputs@, t.private_inputs@)
    &&& p.outputs@.len() == t.outputs@.len()
    &&& forall|i: int| 0 <= i < p.outputs@.len() ==> (#[trigger] p.outputs@[i]).name@ == t.outputs@[i].name@
        && p.outputs@[i].value == t.outputs@[i].value
    &&& wires_agree(p.wires@, t.wires@)
}

/// A proof made by running `ir` is accepted by running `ir` again: the inputs the proof carries
/// make `ir` run, and every proof of that run records the same thing as the first.
pub proof fn lemma_debug_proof_complete(ir: CircuitIr, inputs: RuntimeInputs, p: DebugProof, carried: RuntimeInputs, q: DebugProof)
    requires
        execution_succeeds(ir, inputs),
        is_proof_of(ir, inputs, p),
        carries_inputs(p, carried),
    ensures
        execution_succeeds(ir, carried),
        is_proof_of(ir, carried, q) ==> proofs_agree(p, q),
{
    let t = choose|t: WitnessTrace| #[trigger] is_trace_of(ir, inputs, t) && proof_records(p, t);
    lemma_carried_run(ir, inputs, t, p, carried);
    if is_proof_of(ir, carried, q) {
        let t2 = choose|t2: WitnessTrace| #[trigger] is_trace_of(ir, carried, t2) && proof_records(q, t2);
        lemma_traces_agree(ir, carried, inputs, t2, t);
        lemma_records_agree(p, t, q, t2);
        assert(p.trace_digest@ == q.trace_digest@);
    }
}

proof fn lemma_named_agree_chain(a: Seq<NamedValue>, b: Seq<NamedValue>, c: Seq<NamedValue>, d: Seq<NamedValue>)
    requires
        named_values_agree(a, b),
        named_values_agree(d, c),
        named_values_agree(c, b),
    ensures
        named_values_agree(a, d),
{
    assert forall|i: int| 0 <= i < a.len() implies (#[trigger] a[i]).name@ == d[i].name@ && a[i].value@ == d[i].value@ by {
        assert(b[i].name@ == a[i].name@ && c[i].name@ == b[i].name@ && d[i].name@ == c[i].name@);
    }
}

proof fn lemma_wires_agree_chain(a: Seq<WireValue>, b: Seq<WireValue>, c: Seq<WireValue>, d: Seq<WireValue>)
    requires
        wires_agree(a, b),
        wires_agree(d, c),
        wires_agree(c, b),
    ensures
        wires_agree(a, d),
{
    assert forall|i: int| 0 <= i < a.len() implies (#[trigger] a[i]).wire == d[i].wire && a[i].value@ == d[i].value@ by {
        assert(b[i].wire == a[i].wire && c[i].wire == b[i].wire && d[i].wire == c[i].wire);
    }
}

/// Proofs that record traces which agree record the same thing.
#[verifier::spinoff_prover]
proof fn lemma_records_agree(p: DebugProof, t: WitnessTrace, q: DebugProof, t2: WitnessTrace)
    requires
        proof_records(p, t),
        proof_records(q, t2),
        named_values_agree(t2.public_inputs@, t.public_inputs@),
        named_values_agree(t2.private_inputs@, t.private_inputs@),
        wires_agree(t2.wires@, t.wires@),
        t2.outputs@.len() == t.outputs@.len(),
        forall|i: int| 0 <= i < t2.outputs@.len() ==> (#[trigger] t2.outputs@[i]).name@ == t.outputs@[i].name@
            && t2.outputs@[i].value@ == t.outputs@[i].value@,
    ensures
        named_values_agree(p.public_inputs@, q.public_inputs@),
        named_values_agree(p.private_inputs@, q.private_inputs@),
        named_values_agree(p.outputs@, q.outputs@),
        wires_agree(p.wires@, q.wires@),
{
    lemma_named_agree_chain(p.public_inputs@, t.public_inputs@, t2.public_inputs@, q.public_inputs@);
    lemma_named_agree_chain(p.private_inputs@, t.private_inputs@, t2.private_inputs@, q.private_inputs@);
    lemma_wires_agree_chain(p.wires@, t.wires@, t2.wires@, q.wires@);
    assert forall|i: int| 0 <= i < p.outputs@.len() implies (#[trigger] p.outputs@[i]).name@ == q.outputs@[i].name@
        && p.outputs@[i].value@ == q.outputs@[i].value@ by {
        assert(p.outputs@[i].name@ == t.outputs@[i].name@ && p.outputs@[i].value == t.outputs@[i].value);
        assert(q.outputs@[i].name@ == t2.outputs@[i].name@ && q.outputs@[i].value == t2.outputs@[i].value);
        assert(t2.outputs@[i].name@ == t.outputs@[i].name@ && t2.outputs@[i].value@ == t.outputs@[i].value@);
    }
}

fn rebuild_inputs(proof: &DebugProof) -> (r: RuntimeInputs)
    ensures
        carries_inputs(*proof, r),
{
    let mut inputs = RuntimeInputs::new();
    let mut i: usize = 0;
    while i < proof.public_inputs.len()
        invariant
            i <= proof.public_inputs@.len(),
            forall|n: Seq<char>| #[trigger] crate::eval::lookup(inputs.public_entries(), n)
                == last_value(proof.public_inputs@.subrange(0, i as int), n),
            inputs.private_entries().len() == 0,
        decreases proof.public_inputs.len() - i,
    {
        inputs.insert_public(proof.public_inputs[i].name.as_str(), proof.public_inputs[i].value);
        proof {
            let done = proof.public_inputs@.subrange(0, i + 1);
            assert(done.drop_last() =~= proof.public_inputs@.subrange(0, i as int));
        }
        i = i + 1;
    }
    assert(proof.public_inputs@.subrange(0, i as int) =~= proof.public_inputs@);
    let mut j: usize = 0;
    while j < proof.private_inputs.len()
        invariant
            j <= proof.private_inputs@.len(),
            forall|n: Seq<char>| #[trigger] crate::eval::lookup(inputs.public_entries(), n) == last_value(proof.public_inputs@, n),
            forall|n: Seq<char>| #[trigger] crate::eval::lookup(inputs.private_entries(), n)
                == last_value(proof.private_inputs@.subrange(0, j as int), n),
        decreases proof.private_inputs.len() - j,
    {
        inputs.insert_private(proof.private_inputs[j].name.as_str(), proof.private_inputs[j].value);
        proof {
            let done = proof.private_inputs@.subrange(0, j + 1);
            assert(done.drop_last() =~= proof.private_inputs@.subrange(0, j as int));
        }
        j = j + 1;
    }
    assert(proof.private_inputs@.subrange(0, j as int) =~= proof.private_inputs@);
    inputs
}

pub open spec fn report_of(p: DebugProof, r: DebugVerificationReport) -> bool {
    &&& r.backend@ == p.backend@
    &&& r.circuit@ == p.circuit@
    &&& r.public_inputs == p.public_inputs@.len()
    &&& r.private_inputs == p.private_inputs@.len()
    &&& r.outputs == p.outputs@.len()
    &&& r.wires == p.wires@.len()
}

/// Checks a debug proof against `ir`: the backend, the circuit name and both digests must
/// match the key of `ir`, and re-running `ir` on the inputs the proof carries must succeed and
/// give back the very same proof.
pub fn verify_debug_proof(ir: &CircuitIr, proof: &DebugProof) -> (r: RuntimeResult<DebugVerificationReport>)
    requires
        writes_in_range(*ir),
    ensures
        proof.backend@ != DEBUG_BACKEND_NAME@ ==> (r matches Err(e)
            && e.message@ == "unsupported proof backend `"@ + proof.backend@ + "`"@),
        r matches Ok(report) ==> {
            &&& report_of(*proof, report)
            &&& proof.backend@ == DEBUG_BACKEND_NAME@
            &&& proof.circuit@ == ir.name@
            &&& proof.circuit_digest@ == digest(circuit_identity(*ir))
            &&& proof.constraint_digest@ == digest(constraint_json_of(*ir))
            &&& exists|inputs: RuntimeInputs, expected: DebugProof| {
                &&& carries_inputs(*proof, inputs)
                &&& #[trigger] is_proof_of(*ir, inputs, expected)
                &&& execution_succeeds(*ir, inputs)
                &&& proofs_agree(*proof, expected)
            }
        },
        (exists|inputs: RuntimeInputs| execution_succeeds(*ir, inputs) && #[trigger] is_proof_of(*ir, inputs, *proof)) ==> r is Ok,
{
    let key = debug_keygen(ir);
    if !eq_str(proof.backend.as_str(), DEBUG_BACKEND_NAME) {
        let mut message = to_owned("unsupported proof backend `");
        push_str(&mut message, proof.backend.as_str());
        push_str(&mut message, "`");
        return Err(RuntimeError::new(message));
    }
    if !strings_equal(&proof.circuit, &ir.name) {
        let mut message = to_owned("proof targets circuit `");
        push_str(&mut message, proof.circuit.as_str());
        push_str(&mut message, "` but expected `");
        push_str(&mut message, ir.name.as_str());
        push_str(&mut message, "`");
        return Err(RuntimeError::new(message));
    }
    if !strings_equal(&proof.circuit_digest, &key.circuit_digest) {
        return Err(RuntimeError::new(to_owned("proof circuit digest does not match compiled circuit")));
    }
    if !strings_equal(&proof.constraint_digest, &key.constraint_digest) {
        return Err(RuntimeError::new(to_owned("proof constraint digest does not match compiled circuit")));
    }
    let inputs = rebuild_inputs(proof);
    let ghost made = exists|source: RuntimeInputs| execution_succeeds(*ir, source) && #[trigger] is_proof_of(*ir, source, *proof);
    proof {
        if made {
            let source = choose|source: RuntimeInputs| execution_succeeds(*ir, source) && #[trigger] is_proof_of(*ir, source, *proof);
            lemma_debug_proof_complete(*ir, source, *proof, inputs, *proof);
        }
    }
    let expected = debug_prove(ir, &inputs)?;
    proof {
        if made {
            let source = choose|source: RuntimeInputs| execution_succeeds(*ir, source) && #[trigger] is_proof_of(*ir, source, *proof);
            lemma_debug_proof_complete(*ir, source, *proof, inputs, expected);
        }
    }
    if !proofs_equal(proof, &expected) {
        return Err(RuntimeError::new(to_owned("debug proof artifact does not match re-executed circuit trace")));
    }
    let report = DebugVerificationReport {
        backend: proof.backend.clone(),
        circuit: proof.circuit.clone(),
        public_inputs: proof.public_inputs.len(),
        private_inputs: proof.private_inputs.len(),
        outputs: proof.outputs.len(),
        wires: proof.wires.len(),
    };
    assert(is_proof_of(*ir, inputs, expected));
    Ok(report)
}

// ----- artifact text --------------------------------------------------------------------------

pub open spec fn proof_header() -> Seq<char> {
    "zkc-debug-proof-v1"@
}

pub open spec fn record_line(tag: Seq<char>, value: Seq<char>) -> Seq<char> {
    tag + seq!['|'] + value + seq!['\n']
}

pub open spec fn named_records(tag: Seq<char>, values: Seq<NamedValue>) -> Seq<char>
    decreases values.len(),
{
    if values.len() == 0 {
        Seq::empty()
    } else {
        named_records(tag, values.drop_last()) + record_line(tag, values.last().name@ + seq!['|'] + decimal(values.last().value@))
    }
}

pub open spec fn wire_records(values: Seq<WireValue>) -> Seq<char>
    decreases values.len(),
{
    if values.len() == 0 {
        Seq::empty()
    } else {
        wire_records(values.drop_last()) + record_line(
            "wire"@,
            decimal(values.last().wire as nat) + seq!['|'] + decimal(values.last().value@),
        )
    }
}

/// The text artifact of a proof: a header line, then one `tag|value` record per line.
pub open spec fn proof_text(p: DebugProof) -> Seq<char> {
    proof_header() + seq!['\n'] + record_line("backend"@, p.backend@) + record_line("circuit"@, p.circuit@)
        + record_line("circuit_digest"@, p.circuit_digest@) + record_line("constraint_digest"@, p.constraint_digest@)
        + record_line("trace_digest"@, p.trace_digest@) + named_records("public"@, p.public_inputs@)
        + named_records("private"@, p.private_inputs@) + named_records("output"@, p.outputs@)
        + wire_records(p.wires@)
}

fn push_record(out: &mut String, tag: &str, value: &str)
    ensures
        final(out)@ == old(out)@ + record_line(tag@, value@),
{
    push_str(out, tag);
    push_char(out, '|');
    push_str(out, value);
    push_char(out, '\n');
    assert(out@ =~= old(out)@ + record_line(tag@, value@));
}

fn push_named_records(out: &mut String, tag: &str, values: &Vec<NamedValue>)
    ensures
        final(out)@ == old(out)@ + named_records(tag@, values@),
{
    let mut i: usize = 0;
    while i < values.len()
        invariant
            i <= values@.len(),
            out@ == old(out)@ + named_records(tag@, values@.subrange(0, i as int)),
        decreases values.len() - i,
    {
        let mut value = String::new();
        push_str(&mut value, values[i].name.as_str());
        push_char(&mut value, '|');
        push_str(&mut value, values[i].value.to_string().as_str());
        push_record(out, tag, value.as_str());
        proof {
            let done = values@.subrange(0, i + 1);
            assert(done.drop_last() =~= values@.subrange(0, i as int));
            assert(out@ =~= old(out)@ + named_records(tag@, done));
        }
        i = i + 1;
    }
    assert(values@.subrange(0, i as int) =~= values@);
}

fn push_wire_records(out: &mut String, values: &Vec<WireValue>)
    ensures
        final(out)@ == old(out)@ + wire_records(values@),
{
    let mut i: usize = 0;
    while i < values.len()
        invariant
            i <= values@.len(),
            out@ == old(out)@ + wire_records(values@.subrange(0, i as int)),
        decreases values.len() - i,
    {
        let mut value = String::new();
        push_decimal(&mut value, values[i].wire as u128);
        push_char(&mut value, '|');
        push_str(&mut value, values[i].value.to_string().as_str());
        push_record(out, "wire", value.as_str());
        proof {
            let done = values@.subrange(0, i + 1);
            assert(done.drop_last() =~= values@.subrange(0, i as int));
            assert(out@ =~= old(out)@ + wire_records(done));
        }
        i = i + 1;
    }
    assert(values@.subrange(0, i as int) =~= values@);
}

impl DebugProof {
    /// The text artifact of the proof.
    pub fn to_text(&self) -> (s: String)
        ensures
            s@ == proof_text(*self),
    {
        let mut out = to_owned("zkc-debug-proof-v1");
        push_char(&mut out, '\n');
        push_record(&mut out, "backend", self.backend.as_str());
        push_record(&mut out, "circuit", self.circuit.as_str());
        push_record(&mut out, "circuit_digest", self.circuit_digest.as_str());
        push_record(&mut out, "constraint_digest", self.constraint_digest.as_str());
        push_record(&mut out, "trace_digest", self.trace_digest.as_str());
        push_named_records(&mut out, "public", &self.public_inputs);
        push_named_records(&mut out, "private", &self.private_inputs);
        push_named_records(&mut out, "output", &self.outputs);
        push_wire_records(&mut out, &self.wires);
        out
    }

    /// The JSON document of the proof.
    pub fn to_json(&self) -> (s: String)
        ensures
            s@ == "{\"backend\":"@ + quoted(self.backend@) + ",\"circuit\":"@ + quoted(self.circuit@)
                + ",\"circuit_digest\":"@ + quoted(self.circuit_digest@) + ",\"constraint_digest\":"@
                + quoted(self.constraint_digest@) + ",\"trace_digest\":"@ + quoted(self.trace_digest@)
                + ",\"public_inputs\":"@ + json_array_text(self.public_inputs@.map_values(|v: NamedValue| named_value_json(v)))
                + ",\"private_inputs\":"@ + json_array_text(self.private_inputs@.map_values(|v: NamedValue| named_value_json(v)))
                + ",\"outputs\":"@ + json_array_text(self.outputs@.map_values(|v: NamedValue| named_value_json(v)))
                + ",\"wires\":"@ + json_array_text(self.wires@.map_values(|v: WireValue| wire_value_json(v))) + "}"@,
    {
        let mut out = to_owned("{\"backend\":");
        push_str(&mut out, json_string(self.backend.as_str()).as_str());
        push_str(&mut out, ",\"circuit\":");
        push_str(&mut out, json_string(self.circuit.as_str()).as_str());
        push_str(&mut out, ",\"circuit_digest\":");
        push_str(&mut out, json_string(self.circuit_digest.as_str()).as_str());
        push_str(&mut out, ",\"constraint_digest\":");
        push_str(&mut out, json_string(self.constraint_digest.as_str()).as_str());
        push_str(&mut out, ",\"trace_digest\":");
        push_str(&mut out, json_string(self.trace_digest.as_str()).as_str());
        push_str(&mut out, ",\"public_inputs\":");
        push_str(&mut out, named_values_array(&self.public_inputs).as_str());
        push_str(&mut out, ",\"private_inputs\":");
        push_str(&mut out, named_values_array(&self.private_inputs).as_str());
        push_str(&mut out, ",\"outputs\":");
        push_str(&mut out, named_values_array(&self.outputs).as_str());
        push_str(&mut out, ",\"wires\":");
        push_str(&mut out, wires_array(&self.wires).as_str());
        push_str(&mut out, "}");
        out
    }
}

fn named_values_array(values: &Vec<NamedValue>) -> (s: String)
    ensures
        s@ == json_array_text(values@.map_values(|v: NamedValue| named_value_json(v))),
{
    let mut parts: Vec<String> = Vec::new();
    let mut k: usize = 0;
    while k < values.len()
        invariant
            k <= values@.len(),
            parts@.len() == k,
            forall|j: int| 0 <= j < k ==> (#[trigger] parts@[j])@ == named_value_json(values@[j]),
        decreases values.len() - k,
    {
        let mut part = to_owned("{\"name\":");
        push_str(&mut part, json_string(values[k].name.as_str()).as_str());
        push_str(&mut part, ",\"value\":");
        push_str(&mut part, json_string(values[k].value.to_string().as_str()).as_str());
        push_str(&mut part, "}");
        parts.push(part);
        k = k + 1;
    }
    assert(views(parts@) =~= values@.map_values(|v: NamedValue| named_value_json(v)));
    let mut out = String::new();
    push_json_array(&mut out, &parts);
    out
}

fn wires_array(values: &Vec<WireValue>) -> (s: String)
    ensures
        s@ == json_array_text(values@.map_values(|v: WireValue| wire_value_json(v))),
{
    let mut parts: Vec<String> = Vec::new();
    let mut k: usize = 0;
    while k < values.len()
        invariant
            k <= values@.len(),
            parts@.len() == k,
            forall|j: int| 0 <= j < k ==> (#[trigger] parts@[j])@ == wire_value_json(values@[j]),
        decreases values.len() - k,
    {
        let mut part = to_owned("{\"wire\":");
        push_decimal(&mut part, values[k].wire as u128);
        push_str(&mut part, ",\"value\":");
        push_str(&mut part, json_string(values[k].value.to_string().as_str()).as_str());
        push_str(&mut part, "}");
        parts.push(part);
        k = k + 1;
    }
    assert(views(parts@) =~= values@.map_values(|v: WireValue| wire_value_json(v)));
    let mut out = String::new();
    push_json_array(&mut out, &parts);
    out
}

pub open spec fn input_spec_json(i: InputSpec) -> Seq<char> {
    "{\"name\":"@ + quoted(i.name@) + ",\"type\":"@ + quoted(spelling(i.ty)) + "}"@
}

pub open spec fn input_spec_records(tag: Seq<char>, specs: Seq<InputSpec>) -> Seq<char>
    decreases specs.len(),
{
    if specs.len() == 0 {
        Seq::empty()
    } else {
        input_spec_records(tag, specs.drop_last()) + record_line(tag, specs.last().name@ + seq!['|'] + spelling(specs.last().ty))
    }
}

pub open spec fn name_records(tag: Seq<char>, names: Seq<String>) -> Seq<char>
    decreases names.len(),
{
    if names.len() == 0 {
        Seq::empty()
    } else {
        name_records(tag, names.drop_last()) + record_line(tag, names.last()@)
    }
}

/// The text artifact of a key.
pub open spec fn key_text(k: DebugVerificationKey) -> Seq<char> {
    "zkc-debug-key-v1\n"@ + record_line("backend"@, k.backend@) + record_line("circuit"@, k.circuit@)
        + record_line("circuit_digest"@, k.circuit_digest@) + record_line("constraint_digest"@, k.constraint_digest@)
        + record_line("equations"@, decimal(k.equations as nat)) + record_line("range_assertions"@, decimal(k.range_assertions as nat))
        + record_line("wires"@, decimal(k.wires as nat)) + input_spec_records("public_input"@, k.public_inputs@)
        + input_spec_records("private_input"@, k.private_inputs@) + name_records("output"@, k.outputs@)
}

fn push_input_spec_records(out: &mut String, tag: &str, specs: &Vec<InputSpec>)
    ensures
        final(out)@ == old(out)@ + input_spec_records(tag@, specs@),
{
    let mut i: usize = 0;
    while i < specs.len()
        invariant
            i <= specs@.len(),
            out@ == old(out)@ + input_spec_records(tag@, specs@.subrange(0, i as int)),
        decreases specs.len() - i,
    {
        let mut value = String::new();
        push_str(&mut value, specs[i].name.as_str());
        push_char(&mut value, '|');
        push_str(&mut value, specs[i].ty.name());
        push_record(out, tag, value.as_str());
        proof {
            let done = specs@.subrange(0, i + 1);
            assert(done.drop_last() =~= specs@.subrange(0, i as int));
            assert(out@ =~= old(out)@ + input_spec_records(tag@, done));
        }
        i = i + 1;
    }
    assert(specs@.subrange(0, i as int) =~= specs@);
}

impl DebugVerificationKey {
    /// The text artifact of the key.
    pub fn to_text(&self) -> (s: String)
        ensures
            s@ == key_text(*self),
    {
        let mut out = to_owned("zkc-debug-key-v1\n");
        push_record(&mut out, "backend", self.backend);
        push_record(&mut out, "circuit", self.circuit.as_str());
        push_record(&mut out, "circuit_digest", self.circuit_digest.as_str());
        push_record(&mut out, "constraint_digest", self.constraint_digest.as_str());
        let mut n = String::new();
        push_decimal(&mut n, self.equations as u128);
        push_record(&mut out, "equations", n.as_str());
        let mut n = String::new();
        push_decimal(&mut n, self.range_assertions as u128);
        push_record(&mut out, "range_assertions", n.as_str());
        let mut n = String::new();
        push_decimal(&mut n, self.wires as u128);
        push_record(&mut out, "wires", n.as_str());
        push_input_spec_records(&mut out, "public_input", &self.public_inputs);
        push_input_spec_records(&mut out, "private_input", &self.private_inputs);
        let mut i: usize = 0;
        let ghost head = out@;
        while i < self.outputs.len()
            invariant
                i <= self.outputs@.len(),
                out@ == head + name_records("output"@, self.outputs@.subrange(0, i as int)),
            decreases self.outputs.len() - i,
        {
            push_record(&mut out, "output", self.outputs[i].as_str());
            proof {
                let done = self.outputs@.subrange(0, i + 1);
                assert(done.drop_last() =~= self.outputs@.subrange(0, i as int));
                assert(out@ =~= head + name_records("output"@, done));
            }
            i = i + 1;
        }
        assert(self.outputs@.subrange(0, i as int) =~= self.outputs@);
        out
    }

    /// The JSON document of the key.
    pub fn to_json(&self) -> (s: String)
        ensures
            s@ == "{\"backend\":"@ + quoted(self.backend@) + ",\"circuit\":"@ + quoted(self.circuit@)
                + ",\"circuit_digest\":"@ + quoted(self.circuit_digest@) + ",\"constraint_digest\":"@
                + quoted(self.constraint_digest@) + ",\"public_inputs\":"@
                + json_array_text(self.public_inputs@.map_values(|i: InputSpec| input_spec_json(i)))
                + ",\"private_inputs\":"@ + json_array_text(self.private_inputs@.map_values(|i: InputSpec| input_spec_json(i)))
                + ",\"outputs\":"@ + json_array_text(self.outputs@.map_values(|o: String| quoted(o@)))
                + ",\"equations\":"@ + decimal(self.equations as nat) + ",\"range_assertions\":"@
                + decimal(self.range_assertions as nat) + ",\"wires\":"@ + decimal(self.wires as nat) + "}"@,
    {
        let mut out = to_owned("{\"backend\":");
        push_str(&mut out, json_string(self.backend).as_str());
        push_str(&mut out, ",\"circuit\":");
        push_str(&mut out, json_string(self.circuit.as_str()).as_str());
        push_str(&mut out, ",\"circuit_digest\":");
        push_str(&mut out, json_string(self.circuit_digest.as_str()).as_str());
        push_str(&mut out, ",\"constraint_digest\":");
        push_str(&mut out, json_string(self.constraint_digest.as_str()).as_str());
        push_str(&mut out, ",\"public_inputs\":");
        push_str(&mut out, input_specs_array(&self.public_inputs).as_str());
        push_str(&mut out, ",\"private_inputs\":");
        push_str(&mut out, input_specs_array(&self.private_inputs).as_str());
        push_str(&mut out, ",\"outputs\":");
        let mut parts: Vec<String> = Vec::new();
        let mut k: usize = 0;
        while k < self.outputs.len()
            invariant
                k <= self.outputs@.len(),
                parts@.len() == k,
                forall|j: int| 0 <= j < k ==> (#[trigger] parts@[j])@ == quoted(self.outputs@[j]@),
            decreases self.outputs.len() - k,
        {
            parts.push(json_string(self.outputs[k].as_str()));
            k = k + 1;
        }
        assert(views(parts@) =~= self.outputs@.map_values(|o: String| quoted(o@)));
        let mut array = String::new();
        push_json_array(&mut array, &parts);
        push_str(&mut out, array.as_str());
        push_str(&mut out, ",\"equations\":");
        push_decimal(&mut out, self.equations as u128);
        push_str(&mut out, ",\"range_assertions\":");
        push_decimal(&mut out, self.range_assertions as u128);
        push_str(&mut out, ",\"wires\":");
        push_decimal(&mut out, self.wires as u128);
        push_str(&mut out, "}");
        out
    }
}

fn input_specs_array(specs: &Vec<InputSpec>) -> (s: String)
    ensures
        s@ == json_array_text(specs@.map_values(|i: InputSpec| input_spec_json(i))),
{
    let mut parts: Vec<String> = Vec::new();
    let mut k: usize = 0;
    while k < specs.len()
        invariant
            k <= specs@.len(),
            parts@.len() == k,
            forall|j: int| 0 <= j < k ==> (#[trigger] parts@[j])@ == input_spec_json(specs@[j]),
        decreases specs.len() - k,
    {
        let mut part = to_owned("{\"name\":");
        push_str(&mut part, json_string(specs[k].name.as_str()).as_str());
        push_str(&mut part, ",\"type\":");
        push_str(&mut part, json_string(specs[k].ty.name()).as_str());
        push_str(&mut part, "}");
        parts.push(part);
        k = k + 1;
    }
    assert(views(parts@) =~= specs@.map_values(|i: InputSpec| input_spec_json(i)));
    let mut out = String::new();
    push_json_array(&mut out, &parts);
    out
}

impl DebugVerificationReport {
    pub fn to_json(&self) -> (s: String)
        ensures
            s@ == "{\"backend\":"@ + quoted(self.backend@) + ",\"circuit\":"@ + quoted(self.circuit@)
                + ",\"public_inputs\":"@ + decimal(self.public_inputs as nat) + ",\"private_inputs\":"@
                + decimal(self.private_inputs as nat) + ",\"outputs\":"@ + decimal(self.outputs as nat)
                + ",\"wires\":"@ + decimal(self.wires as nat) + "}"@,
    {
        let mut out = to_owned("{\"backend\":");
        push_str(&mut out, json_string(self.backend.as_str()).as_str());
        push_str(&mut out, ",\"circuit\":");
        push_str(&mut out, json_string(self.circuit.as_str()).as_str());
        push_str(&mut out, ",\"public_inputs\":");
        push_decimal(&mut out, self.public_inputs as u128);
        push_str(&mut out, ",\"private_inputs\":");
        push_decimal(&mut out, self.private_inputs as u128);
        push_str(&mut out, ",\"outputs\":");
        push_decimal(&mut out, self.outputs as u128);
        push_str(&mut out, ",\"wires\":");
        push_decimal(&mut out, self.wires as u128);
        push_str(&mut out, "}");
        out
    }

    /// The report as lines of text.
    pub fn to_text(&self) -> (s: String)
        ensures
            s@ == "verified debug proof for "@ + self.circuit@ + " via "@ + self.backend@ + "\ninputs: public="@
                + decimal(self.public_inputs as nat) + " private="@ + decimal(self.private_inputs as nat)
                + "\noutputs: "@ + decimal(self.outputs as nat) + "\nwires: "@ + decimal(self.wires as nat) + "\n"@,
    {
        let mut out = to_owned("verified debug proof for ");
        push_str(&mut out, self.circuit.as_str());
        push_str(&mut out, " via ");
        push_str(&mut out, self.backend.as_str());
        push_str(&mut out, "\ninputs: public=");
        push_decimal(&mut out, self.public_inputs as u128);
        push_str(&mut out, " private=");
        push_decimal(&mut out, self.private_inputs as u128);
        push_str(&mut out, "\noutputs: ");
        push_decimal(&mut out, self.outputs as u128);
        push_str(&mut out, "\nwires: ");
        push_decimal(&mut out, self.wires as u128);
        push_str(&mut out, "\n");
        out
    }
}

// ----- reading the text artifact --------------------------------------------------------------

/// Why `raw` is no field element.
pub open spec fn field_error(raw: Seq<char>) -> Seq<char> {
    "invalid field element `"@ + raw + "`"@
}

fn parse_named_value(name: &String, value: &String) -> (r: RuntimeResult<NamedValue>)
    ensures
        r matches Ok(v) ==> v.name@ == name@ && parsed_value(value@) == Some(v.value@),
        r is Err <==> parsed_value(value@) is None,
        r matches Err(e) ==> e.message@ == field_error(value@),
{
    match FieldElement::parse(value.as_str()) {
        Ok(parsed) => Ok(NamedValue { name: name.clone(), value: parsed }),
        Err(message) => Err(RuntimeError::new(message)),
    }
}

// ----- artifact records -----------------------------------------------------------------------

pub open spec fn blank_line(line: Seq<char>) -> bool {
    trimmed(line).len() == 0
}

/// A non-blank line whose `|`-separated fields are `tag` and `count - 1` more.
pub open spec fn is_record(line: Seq<char>, tag: Seq<char>, count: nat) -> bool {
    let parts = split_on(line, '|');
    &&& !blank_line(line)
    &&& parts.len() == count
    &&& parts[0] == tag
}

pub open spec fn single_tag(tag: Seq<char>) -> bool {
    tag == "backend"@ || tag == "circuit"@ || tag == "circuit_digest"@ || tag == "constraint_digest"@ || tag == "trace_digest"@
}

pub open spec fn named_tag(tag: Seq<char>) -> bool {
    tag == "public"@ || tag == "private"@ || tag == "output"@
}

/// The failure a line after the header raises, if any.
pub open spec fn line_error(line: Seq<char>) -> Option<Seq<char>> {
    let parts = split_on(line, '|');
    if blank_line(line) {
        None
    } else if parts.len() == 2 && single_tag(parts[0]) {
        None
    } else if parts.len() == 3 && named_tag(parts[0]) {
        if parsed_value(parts[2]) is Some {
            None
        } else {
            Some(field_error(parts[2]))
        }
    } else if parts.len() == 3 && parts[0] == "wire"@ {
        if unsigned_value(parts[1]) matches Some(w) && w <= usize::MAX {
            if parsed_value(parts[2]) is Some {
                None
            } else {
                Some(field_error(parts[2]))
            }
        } else {
            Some("invalid wire index `"@ + parts[1] + "`: "@ + unsigned_error(parts[1]))
        }
    } else {
        Some("malformed proof artifact line `"@ + line + "`"@)
    }
}

/// The failure of the first failing line.
pub open spec fn first_line_error(lines: Seq<Seq<char>>) -> Option<Seq<char>>
    decreases lines.len(),
{
    if lines.len() == 0 {
        None
    } else {
        match first_line_error(lines.drop_last()) {
            Some(e) => Some(e),
            None => line_error(lines.last()),
        }
    }
}

/// The value of the last `tag|value` record.
pub open spec fn last_record(lines: Seq<Seq<char>>, tag: Seq<char>) -> Option<Seq<char>>
    decreases lines.len(),
{
    if lines.len() == 0 {
        None
    } else if is_record(lines.last(), tag, 2) {
        Some(split_on(lines.last(), '|')[1])
    } else {
        last_record(lines.drop_last(), tag)
    }
}

/// The `tag|name|value` records, in order: each name with its value.
pub open spec fn named_record_values(lines: Seq<Seq<char>>, tag: Seq<char>) -> Seq<(Seq<char>, nat)>
    decreases lines.len(),
{
    if lines.len() == 0 {
        Seq::empty()
    } else {
        let init = named_record_values(lines.drop_last(), tag);
        let parts = split_on(lines.last(), '|');
        if is_record(lines.last(), tag, 3) {
            init.push((parts[1], parsed_value(parts[2])->0))
        } else {
            init
        }
    }
}

/// The `wire|index|value` records, in order.
pub open spec fn wire_record_values(lines: Seq<Seq<char>>) -> Seq<(nat, nat)>
    decreases lines.len(),
{
    if lines.len() == 0 {
        Seq::empty()
    } else {
        let init = wire_record_values(lines.drop_last());
        let parts = split_on(lines.last(), '|');
        if is_record(lines.last(), "wire"@, 3) {
            init.push((unsigned_value(parts[1])->0, parsed_value(parts[2])->0))
        } else {
            init
        }
    }
}

pub open spec fn named_values_read(values: Seq<NamedValue>, read: Seq<(Seq<char>, nat)>) -> bool {
    &&& values.len() == read.len()
    &&& forall|i: int| 0 <= i < values.len() ==> (#[trigger] values[i]).name@ == read[i].0 && values[i].value@ == read[i].1
}

pub open spec fn wires_read(values: Seq<WireValue>, read: Seq<(nat, nat)>) -> bool {
    &&& values.len() == read.len()
    &&& forall|i: int| 0 <= i < values.len() ==> (#[trigger] values[i]).wire == read[i].0 && values[i].value@ == read[i].1
}

pub open spec fn string_view(o: Option<String>) -> Option<Seq<char>> {
    match o {
        Some(s) => Some(s@),
        None => None,
    }
}

/// The lines after the header.
pub open spec fn record_lines(input: Seq<char>) -> Seq<Seq<char>> {
    text_lines(input).subrange(1, text_lines(input).len() as int)
}

/// The failure of the first missing single record, in the order backend, circuit, circuit
/// digest, constraint digest, trace digest.
pub open spec fn missing_record(lines: Seq<Seq<char>>) -> Option<Seq<char>> {
    if last_record(lines, "backend"@) is None {
        Some("missing `backend` record"@)
    } else if last_record(lines, "circuit"@) is None {
        Some("missing `circuit` record"@)
    } else if last_record(lines, "circuit_digest"@) is None {
        Some("missing `circuit_digest` record"@)
    } else if last_record(lines, "constraint_digest"@) is None {
        Some("missing `constraint_digest` record"@)
    } else if last_record(lines, "trace_digest"@) is None {
        Some("missing `trace_digest` record"@)
    } else {
        None
    }
}

/// Once a prefix of the lines fails, the lines fail the same way.
proof fn lemma_first_error_prefix(lines: Seq<Seq<char>>, k: int)
    requires
        0 <= k <= lines.len(),
        first_line_error(lines.subrange(0, k)) is Some,
    ensures
        first_line_error(lines) == first_line_error(lines.subrange(0, k)),
    decreases lines.len(),
{
    if lines.len() == k {
        assert(lines.subrange(0, k) =~= lines);
    } else {
        assert(lines.drop_last().subrange(0, k) =~= lines.subrange(0, k));
        lemma_first_error_prefix(lines.drop_last(), k);
    }
}

/// Reads the text artifact of a debug proof.
///
/// The first line must be the header; every other non-blank line is a `tag|value` record
/// (`public`, `private` and `output` records carry `name|value`, `wire` records `index|value`).
/// Fails on an empty artifact, a wrong header, the first malformed line or bad number, and a
/// missing `backend`, `circuit` or digest record; a later single record replaces an earlier
/// one.
pub fn parse_debug_proof(input: &str) -> (r: RuntimeResult<DebugProof>)
    ensures
        text_lines(input@).len() == 0 ==> (r matches Err(e) && e.message@ == "proof artifact is empty"@),
        text_lines(input@).len() > 0 && trimmed(text_lines(input@)[0]) != proof_header()
            ==> (r matches Err(e) && e.message@ == "unrecognized proof artifact header"@),
        text_lines(input@).len() > 0 && trimmed(text_lines(input@)[0]) == proof_header() ==> {
            &&& first_line_error(record_lines(input@)) matches Some(m) ==> (r matches Err(e) && e.message@ == m)
            &&& first_line_error(record_lines(input@)) is None ==> (missing_record(record_lines(input@)) matches Some(m)
                ==> (r matches Err(e) && e.message@ == m))
            &&& first_line_error(record_lines(input@)) is None && missing_record(record_lines(input@)) is None ==> r is Ok
        },
        r matches Ok(p) ==> {
            let lines = record_lines(input@);
            &&& text_lines(input@).len() > 0 && trimmed(text_lines(input@)[0]) == proof_header()
            &&& first_line_error(lines) is None
            &&& Some(p.backend@) == last_record(lines, "backend"@)
            &&& Some(p.circuit@) == last_record(lines, "circuit"@)
            &&& Some(p.circuit_digest@) == last_record(lines, "circuit_digest"@)
            &&& Some(p.constraint_digest@) == last_record(lines, "constraint_digest"@)
            &&& Some(p.trace_digest@) == last_record(lines, "trace_digest"@)
            &&& named_values_read(p.public_inputs@, named_record_values(lines, "public"@))
            &&& named_values_read(p.private_inputs@, named_record_values(lines, "private"@))
            &&& named_values_read(p.outputs@, named_record_values(lines, "output"@))
            &&& wires_read(p.wires@, wire_record_values(lines))
        },
{
    let lines = split_lines(input);
    if lines.len() == 0 {
        return Err(RuntimeError::new(to_owned("proof artifact is empty")));
    }
    let header = trim(lines[0].as_str());
    proof {
        reveal_strlit("zkc-debug-proof-v1");
    }
    assert(lines@[0]@ == text_lines(input@)[0]);
    if !eq_str(header.as_str(), "zkc-debug-proof-v1") {
        return Err(RuntimeError::new(to_owned("unrecognized proof artifact header")));
    }
    let ghost all = record_lines(input@);
    let mut backend: Option<String> = None;
    let mut circuit: Option<String> = None;
    let mut circuit_digest: Option<String> = None;
    let mut constraint_digest: Option<String> = None;
    let mut trace_digest: Option<String> = None;
    let mut public_inputs: Vec<NamedValue> = Vec::new();
    let mut private_inputs: Vec<NamedValue> = Vec::new();
    let mut outputs: Vec<NamedValue> = Vec::new();
    let mut wires: Vec<WireValue> = Vec::new();
    let mut i: usize = 1;
    assert(all.subrange(0, 0) =~= Seq::<Seq<char>>::empty());
    while i < lines.len()
        invariant
            1 <= i <= lines@.len(),
            views(lines@) == text_lines(input@),
            trimmed(text_lines(input@)[0]) == proof_header(),
            all == record_lines(input@),
            all.len() == lines@.len() - 1,
            first_line_error(all.subrange(0, i - 1)) is None,
            string_view(backend) == last_record(all.subrange(0, i - 1), "backend"@),
            string_view(circuit) == last_record(all.subrange(0, i - 1), "circuit"@),
            string_view(circuit_digest) == last_record(all.subrange(0, i - 1), "circuit_digest"@),
            string_view(constraint_digest) == last_record(all.subrange(0, i - 1), "constraint_digest"@),
            string_view(trace_digest) == last_record(all.subrange(0, i - 1), "trace_digest"@),
            named_values_read(public_inputs@, named_record_values(all.subrange(0, i - 1), "public"@)),
            named_values_read(private_inputs@, named_record_values(all.subrange(0, i - 1), "private"@)),
            named_values_read(outputs@, named_record_values(all.subrange(0, i - 1), "output"@)),
            wires_read(wires@, wire_record_values(all.subrange(0, i - 1))),
        decreases lines.len() - i,
    {
        let line = &lines[i];
        let ghost done = all.subrange(0, i as int);
        proof {
            assert(done.drop_last() =~= all.subrange(0, i - 1));
            assert(done.last() == line@);
        }
        i = i + 1;
        if eq_str(trim(line.as_str()).as_str(), "") {
            proof {
                reveal_strlit("");
                assert(blank_line(line@));
            }
            continue;
        }
        let parts = split_at_char(line.as_str(), '|');
        proof {
            lemma_split_nonempty(line@, '|');
        }
        assert(!blank_line(line@)) by {
            reveal_strlit("");
            if trimmed(line@).len() == 0 {
                assert(trimmed(line@) =~= ""@);
            }
        }
        let tag = parts[0].as_str();
        assert(views(parts@)[0] == parts@[0]@);
        proof {
            reveal_strlit("backend");
            reveal_strlit("circuit");
            reveal_strlit("circuit_digest");
            reveal_strlit("constraint_digest");
            reveal_strlit("trace_digest");
            reveal_strlit("public");
            reveal_strlit("private");
            reveal_strlit("output");
            reveal_strlit("wire");
            assert("backend"@[0] != "circuit"@[0] && "backend"@[1] != "private"@[1] && "circuit"@[0] != "private"@[0]);
            assert("public"@[0] != "output"@[0]);
        }
        if parts.len() == 2 && eq_str(tag, "backend") {
            backend = Some(parts[1].clone());
        } else if parts.len() == 2 && eq_str(tag, "circuit") {
            circuit = Some(parts[1].clone());
        } else if parts.len() == 2 && eq_str(tag, "circuit_digest") {
            circuit_digest = Some(parts[1].clone());
        } else if parts.len() == 2 && eq_str(tag, "constraint_digest") {
            constraint_digest = Some(parts[1].clone());
        } else if parts.len() == 2 && eq_str(tag, "trace_digest") {
            trace_digest = Some(parts[1].clone());
        } else if parts.len() == 3 && eq_str(tag, "public") {
            let v = match parse_named_value(&parts[1], &parts[2]) {
                Ok(v) => v,
                Err(e) => {
                    proof {
                        lemma_first_error_prefix(all, i - 1);
                    }
                    return Err(e);
                },
            };
            public_inputs.push(v);
        } else if parts.len() == 3 && eq_str(tag, "private") {
            let v = match parse_named_value(&parts[1], &parts[2]) {
                Ok(v) => v,
                Err(e) => {
                    proof {
                        lemma_first_error_prefix(all, i - 1);
                    }
                    return Err(e);
                },
            };
            private_inputs.push(v);
        } else if parts.len() == 3 && eq_str(tag, "output") {
            let v = match parse_named_value(&parts[1], &parts[2]) {
                Ok(v) => v,
                Err(e) => {
                    proof {
                        lemma_first_error_prefix(all, i - 1);
                    }
                    return Err(e);
                },
            };
            outputs.push(v);
        } else if parts.len() == 3 && eq_str(tag, "wire") {
            let wire = match parse_usize(parts[1].as_str()) {
                Ok(w) => w,
                Err(reason) => {
                    let mut message = to_owned("invalid wire index `");
                    push_str(&mut message, parts[1].as_str());
                    push_str(&mut message, "`: ");
                    push_str(&mut message, reason.as_str());
                    proof {
                        lemma_first_error_prefix(all, i - 1);
                    }
                    return Err(RuntimeError::new(message));
                },
            };
            let value = match FieldElement::parse(parts[2].as_str()) {
                Ok(v) => v,
                Err(message) => {
                    proof {
                        lemma_first_error_prefix(all, i - 1);
                    }
                    return Err(RuntimeError::new(message));
                },
            };
            wires.push(WireValue { wire, value });
        } else {
            let mut message = to_owned("malformed proof artifact line `");
            push_str(&mut message, line.as_str());
            push_str(&mut message, "`");
            proof {
                lemma_first_error_prefix(all, i - 1);
            }
            return Err(RuntimeError::new(message));
        }
    }
    assert(all.subrange(0, i - 1) =~= all);
    let backend = match backend {
        Some(v) => v,
        None => {
            return Err(RuntimeError::new(to_owned("missing `backend` record")));
        },
    };
    let circuit = match circuit {
        Some(v) => v,
        None => {
            return Err(RuntimeError::new(to_owned("missing `circuit` record")));
        },
    };
    let circuit_digest = match circuit_digest {
        Some(v) => v,
        None => {
            return Err(RuntimeError::new(to_owned("missing `circuit_digest` record")));
        },
    };
    let constraint_digest = match constraint_digest {
        Some(v) => v,
        None => {
            return Err(RuntimeError::new(to_owned("missing `constraint_digest` record")));
        },
    };
    let trace_digest = match trace_digest {
        Some(v) => v,
        None => {
            return Err(RuntimeError::new(to_owned("missing `trace_digest` record")));
        },
    };
    Ok(DebugProof {
        backend,
        circuit,
        circuit_digest,
        constraint_digest,
        trace_digest,
        public_inputs,
        private_inputs,
        outputs,
        wires,
    })
}


// ----- reading the text artifact back -------------------------------------------------------

/// A record line without its line feed: the tag, `|`, the value.
pub open spec fn field_line(tag: Seq<char>, value: Seq<char>) -> Seq<char> {
    tag + seq!['|'] + value
}

pub open spec fn named_lines(tag: Seq<char>, values: Seq<NamedValue>) -> Seq<Seq<char>> {
    values.map_values(|v: NamedValue| field_line(tag, v.name@ + seq!['|'] + decimal(v.value@)))
}

pub open spec fn wire_lines(values: Seq<WireValue>) -> Seq<Seq<char>> {
    values.map_values(|v: WireValue| field_line("wire"@, decimal(v.wire as nat) + seq!['|'] + decimal(v.value@)))
}

pub open spec fn single_lines(p: DebugProof) -> Seq<Seq<char>> {
    seq![
        field_line("backend"@, p.backend@),
        field_line("circuit"@, p.circuit@),
        field_line("circuit_digest"@, p.circuit_digest@),
        field_line("constraint_digest"@, p.constraint_digest@),
        field_line("trace_digest"@, p.trace_digest@),
    ]
}

/// The lines after the header of a proof's text artifact.
pub open spec fn proof_record_lines(p: DebugProof) -> Seq<Seq<char>> {
    single_lines(p) + named_lines("public"@, p.public_inputs@) + named_lines("private"@, p.private_inputs@)
        + named_lines("output"@, p.outputs@) + wire_lines(p.wires@)
}

/// A field that a record can carry: no `|` and no line feed.
pub open spec fn plain_field(s: Seq<char>) -> bool {
    has_no(s, '|') && has_no(s, '\n')
}

/// A field that can end a record line: plain, and not ending in a carriage return.
pub open spec fn plain_last_field(s: Seq<char>) -> bool {
    plain_field(s) && (s.len() == 0 || s.last() != '\r')
}

pub open spec fn plain_named(values: Seq<NamedValue>) -> bool {
    forall|i: int| 0 <= i < values.len() ==> plain_field((#[trigger] values[i]).name@) && values[i].value@ < modulus()
}

/// The proof's strings fit in records and its values are field elements: its text artifact
/// reads back as the proof.
pub open spec fn proof_text_plain(p: DebugProof) -> bool {
    &&& plain_last_field(p.backend@)
    &&& plain_last_field(p.circuit@)
    &&& plain_last_field(p.circuit_digest@)
    &&& plain_last_field(p.constraint_digest@)
    &&& plain_last_field(p.trace_digest@)
    &&& plain_named(p.public_inputs@)
    &&& plain_named(p.private_inputs@)
    &&& plain_named(p.outputs@)
    &&& forall|i: int| 0 <= i < p.wires@.len() ==> (#[trigger] p.wires@[i]).value@ < modulus()
}

pub(crate) proof fn lemma_lines_text_one(line: Seq<char>)
    ensures
        lines_text(seq![line]) == line + seq!['\n'],
{
    assert(seq![line].drop_first() =~= Seq::<Seq<char>>::empty());
    assert(lines_text(Seq::<Seq<char>>::empty()) == Seq::<char>::empty());
    assert(line + seq!['\n'] + Seq::<char>::empty() =~= line + seq!['\n']);
}

pub(crate) proof fn lemma_named_records_text(tag: Seq<char>, values: Seq<NamedValue>)
    ensures
        named_records(tag, values) == lines_text(named_lines(tag, values)),
    decreases values.len(),
{
    if values.len() == 0 {
        assert(named_lines(tag, values) =~= Seq::<Seq<char>>::empty());
    } else {
        let init = values.drop_last();
        lemma_named_records_text(tag, init);
        let v = values.last();
        let line = field_line(tag, v.name@ + seq!['|'] + decimal(v.value@));
        assert(named_lines(tag, values) =~= named_lines(tag, init) + seq![line]);
        lemma_lines_text_concat(named_lines(tag, init), seq![line]);
        lemma_lines_text_one(line);
        assert(record_line(tag, v.name@ + seq!['|'] + decimal(v.value@)) =~= line + seq!['\n']);
    }
}

proof fn lemma_wire_records_text(values: Seq<WireValue>)
    ensures
        wire_records(values) == lines_text(wire_lines(values)),
    decreases values.len(),
{
    if values.len() == 0 {
        assert(wire_lines(values) =~= Seq::<Seq<char>>::empty());
    } else {
        let init = values.drop_last();
        lemma_wire_records_text(init);
        let v = values.last();
        let line = field_line("wire"@, decimal(v.wire as nat) + seq!['|'] + decimal(v.value@));
        assert(wire_lines(values) =~= wire_lines(init) + seq![line]);
        lemma_lines_text_concat(wire_lines(init), seq![line]);
        lemma_lines_text_one(line);
        assert(record_line("wire"@, decimal(v.wire as nat) + seq!['|'] + decimal(v.value@)) =~= line + seq!['\n']);
    }
}

/// The text artifact of a proof is its lines, each ended by a line feed.
#[verifier::spinoff_prover]
#[verifier::rlimit(40)]
proof fn lemma_proof_text_lines(p: DebugProof)
    ensures
        proof_text(p) == lines_text(seq![proof_header()] + proof_record_lines(p)),
{
    let s = single_lines(p);
    let pu = named_lines("public"@, p.public_inputs@);
    let pr = named_lines("private"@, p.private_inputs@);
    let ou = named_lines("output"@, p.outputs@);
    let wi = wire_lines(p.wires@);
    lemma_named_records_text("public"@, p.public_inputs@);
    lemma_named_records_text("private"@, p.private_inputs@);
    lemma_named_records_text("output"@, p.outputs@);
    lemma_wire_records_text(p.wires@);
    let all = seq![proof_header()] + proof_record_lines(p);
    assert(all =~= seq![proof_header()] + s + pu + pr + ou + wi);
    lemma_lines_text_concat(seq![proof_header()] + s + pu + pr + ou, wi);
    lemma_lines_text_concat(seq![proof_header()] + s + pu + pr, ou);
    lemma_lines_text_concat(seq![proof_header()] + s + pu, pr);
    lemma_lines_text_concat(seq![proof_header()] + s, pu);
    lemma_lines_text_concat(seq![proof_header()], s);
    lemma_lines_text_one(proof_header());
    let l0 = s[0];
    let l1 = s[1];
    let l2 = s[2];
    let l3 = s[3];
    let l4 = s[4];
    assert(s =~= seq![l0] + (seq![l1] + (seq![l2] + (seq![l3] + seq![l4]))));
    lemma_lines_text_concat(seq![l0], seq![l1] + (seq![l2] + (seq![l3] + seq![l4])));
    lemma_lines_text_concat(seq![l1], seq![l2] + (seq![l3] + seq![l4]));
    lemma_lines_text_concat(seq![l2], seq![l3] + seq![l4]);
    lemma_lines_text_concat(seq![l3], seq![l4]);
    lemma_lines_text_one(l0);
    lemma_lines_text_one(l1);
    lemma_lines_text_one(l2);
    lemma_lines_text_one(l3);
    lemma_lines_text_one(l4);
    assert(proof_text(p) =~= lines_text(all));
}


pub(crate) proof fn lemma_field_line_shape(tag: Seq<char>, value: Seq<char>)
    requires
        tag.len() > 0,
        has_no(tag, '\n'),
        has_no(value, '\n'),
        value.len() == 0 || value.last() != '\r',
    ensures
        has_no(field_line(tag, value), '\n'),
        strip_cr(field_line(tag, value)) == field_line(tag, value),
{
    let line = field_line(tag, value);
    assert forall|i: int| 0 <= i < line.len() implies #[trigger] line[i] != '\n' by {
        if i < tag.len() {
            assert(line[i] == tag[i]);
        } else if i > tag.len() {
            assert(line[i] == value[i - tag.len() - 1]);
        }
    }
    if value.len() > 0 {
        assert(line.last() == value.last());
    } else {
        assert(line.last() == '|');
    }
}

/// The value of a named record: the name, `|`, the decimal value.
pub(crate) proof fn lemma_named_value_shape(name: Seq<char>, x: nat)
    requires
        plain_field(name),
    ensures
        has_no(name + seq!['|'] + decimal(x), '\n'),
        (name + seq!['|'] + decimal(x)).last() != '\r',
        (name + seq!['|'] + decimal(x)).len() > 0,
{
    lemma_decimal_reads_back(x);
    let v = name + seq!['|'] + decimal(x);
    let d = decimal(x);
    assert forall|i: int| 0 <= i < v.len() implies #[trigger] v[i] != '\n' by {
        if i < name.len() {
            assert(v[i] == name[i]);
        } else if i > name.len() {
            assert(v[i] == d[i - name.len() - 1]);
        }
    }
    assert(v.last() == d[d.len() - 1]);
}

proof fn lemma_tag_literals()
    ensures
        "backend"@.len() > 0 && has_no("backend"@, '\n') && has_no("backend"@, '|') && "backend"@[0] == 'b',
        "circuit"@.len() > 0 && has_no("circuit"@, '\n') && has_no("circuit"@, '|') && "circuit"@[0] == 'c',
        "circuit_digest"@.len() > 0 && has_no("circuit_digest"@, '\n') && has_no("circuit_digest"@, '|') && "circuit_digest"@[0] == 'c',
        "constraint_digest"@.len() > 0 && has_no("constraint_digest"@, '\n') && has_no("constraint_digest"@, '|')
            && "constraint_digest"@[0] == 'c',
        "trace_digest"@.len() > 0 && has_no("trace_digest"@, '\n') && has_no("trace_digest"@, '|') && "trace_digest"@[0] == 't',
        "public"@.len() > 0 && has_no("public"@, '\n') && has_no("public"@, '|') && "public"@[0] == 'p',
        "private"@.len() > 0 && has_no("private"@, '\n') && has_no("private"@, '|') && "private"@[0] == 'p',
        "output"@.len() > 0 && has_no("output"@, '\n') && has_no("output"@, '|') && "output"@[0] == 'o',
        "wire"@.len() > 0 && has_no("wire"@, '\n') && has_no("wire"@, '|') && "wire"@[0] == 'w',
        "backend"@ != "circuit"@ && "backend"@ != "private"@ && "circuit"@ != "private"@ && "public"@ != "output"@,
        "public"@ != "private"@ && "private"@ != "output"@ && "public"@ != "wire"@ && "private"@ != "wire"@ && "output"@ != "wire"@,
        trimmed(proof_header()) == proof_header(),
{
    reveal_strlit("backend");
    reveal_strlit("circuit");
    reveal_strlit("circuit_digest");
    reveal_strlit("constraint_digest");
    reveal_strlit("trace_digest");
    reveal_strlit("public");
    reveal_strlit("private");
    reveal_strlit("output");
    reveal_strlit("wire");
    reveal_strlit("zkc-debug-proof-v1");
    assert("backend"@[0] != "circuit"@[0] && "backend"@[1] != "private"@[1] && "circuit"@[0] != "private"@[0]);
    assert("public"@[0] != "output"@[0]);
    let h = proof_header();
    assert(!crate::lexer::is_whitespace(h[0]));
    assert(h.last() == '1');
    crate::records::lemma_trimmed_nonempty(h);
    assert(crate::records::trim_end(h) == h);
}


/// The lines of a plain proof's text artifact are its header and record lines.
proof fn lemma_proof_lines_read(p: DebugProof)
    requires
        proof_text_plain(p),
    ensures
        text_lines(proof_text(p)) == seq![proof_header()] + proof_record_lines(p),
        record_lines(proof_text(p)) == proof_record_lines(p),
{
    lemma_tag_literals();
    lemma_proof_text_lines(p);
    let s = single_lines(p);
    let pu = named_lines("public"@, p.public_inputs@);
    let pr = named_lines("private"@, p.private_inputs@);
    let ou = named_lines("output"@, p.outputs@);
    let wi = wire_lines(p.wires@);
    let all = seq![proof_header()] + proof_record_lines(p);
    lemma_field_line_shape("backend"@, p.backend@);
    lemma_field_line_shape("circuit"@, p.circuit@);
    lemma_field_line_shape("circuit_digest"@, p.circuit_digest@);
    lemma_field_line_shape("constraint_digest"@, p.constraint_digest@);
    lemma_field_line_shape("trace_digest"@, p.trace_digest@);
    assert forall|k: int| 0 <= k < pu.len() implies has_no(#[trigger] pu[k], '\n') && strip_cr(pu[k]) == pu[k] by {
        let v = p.public_inputs@[k];
        lemma_named_value_shape(v.name@, v.value@);
        lemma_field_line_shape("public"@, v.name@ + seq!['|'] + decimal(v.value@));
    }
    assert forall|k: int| 0 <= k < pr.len() implies has_no(#[trigger] pr[k], '\n') && strip_cr(pr[k]) == pr[k] by {
        let v = p.private_inputs@[k];
        lemma_named_value_shape(v.name@, v.value@);
        lemma_field_line_shape("private"@, v.name@ + seq!['|'] + decimal(v.value@));
    }
    assert forall|k: int| 0 <= k < ou.len() implies has_no(#[trigger] ou[k], '\n') && strip_cr(ou[k]) == ou[k] by {
        let v = p.outputs@[k];
        lemma_named_value_shape(v.name@, v.value@);
        lemma_field_line_shape("output"@, v.name@ + seq!['|'] + decimal(v.value@));
    }
    assert forall|k: int| 0 <= k < wi.len() implies has_no(#[trigger] wi[k], '\n') && strip_cr(wi[k]) == wi[k] by {
        let v = p.wires@[k];
        lemma_decimal_reads_back(v.wire as nat);
        assert(plain_field(decimal(v.wire as nat))) by {
            let d = decimal(v.wire as nat);
            assert forall|i: int| 0 <= i < d.len() implies #[trigger] d[i] != '|' && d[i] != '\n' by {
                assert('0' <= d[i] <= '9');
            }
        }
        lemma_named_value_shape(decimal(v.wire as nat), v.value@);
        lemma_field_line_shape("wire"@, decimal(v.wire as nat) + seq!['|'] + decimal(v.value@));
    }
    let h = proof_header();
    assert(has_no(h, '\n') && strip_cr(h) == h) by {
        reveal_strlit("zkc-debug-proof-v1");
        assert(h.last() == '1');
    }
    assert forall|k: int| 0 <= k < all.len() implies has_no(#[trigger] all[k], '\n') && strip_cr(all[k]) == all[k] by {
        let n1 = 1 + s.len();
        let n2 = n1 + pu.len();
        let n3 = n2 + pr.len();
        let n4 = n3 + ou.len();
        if k == 0 {
            assert(all[k] == h);
        } else if k < n1 {
            assert(all[k] == s[k - 1]);
        } else if k < n2 {
            assert(all[k] == pu[k - n1]);
        } else if k < n3 {
            assert(all[k] == pr[k - n2]);
        } else if k < n4 {
            assert(all[k] == ou[k - n3]);
        } else {
            assert(all[k] == wi[k - n4]);
        }
    }
    crate::records::lemma_text_lines_of(all);
    assert(all.subrange(1, all.len() as int) =~= proof_record_lines(p));
}


pub(crate) proof fn lemma_record_fields(tag: Seq<char>, value: Seq<char>)
    requires
        tag.len() > 0,
        has_no(tag, '|'),
        !crate::lexer::is_whitespace(tag[0]),
        has_no(value, '|'),
    ensures
        split_on(field_line(tag, value), '|') == seq![tag, value],
        !blank_line(field_line(tag, value)),
{
    crate::records::lemma_split_join(tag, value, '|');
    crate::records::lemma_split_whole(tag, '|');
    crate::records::lemma_split_whole(value, '|');
    assert(seq![tag] + seq![value] =~= seq![tag, value]);
    let line = field_line(tag, value);
    assert(line[0] == tag[0]);
    crate::records::lemma_trimmed_nonempty(line);
}

pub(crate) proof fn lemma_named_fields(tag: Seq<char>, a: Seq<char>, b: Seq<char>)
    requires
        tag.len() > 0,
        has_no(tag, '|'),
        !crate::lexer::is_whitespace(tag[0]),
        has_no(a, '|'),
        has_no(b, '|'),
    ensures
        split_on(field_line(tag, a + seq!['|'] + b), '|') == seq![tag, a, b],
        !blank_line(field_line(tag, a + seq!['|'] + b)),
{
    crate::records::lemma_split_join(tag, a + seq!['|'] + b, '|');
    crate::records::lemma_split_join(a, b, '|');
    crate::records::lemma_split_whole(tag, '|');
    crate::records::lemma_split_whole(a, '|');
    crate::records::lemma_split_whole(b, '|');
    assert(seq![tag] + (seq![a] + seq![b]) =~= seq![tag, a, b]);
    let line = field_line(tag, a + seq!['|'] + b);
    assert(line[0] == tag[0]);
    crate::records::lemma_trimmed_nonempty(line);
}

proof fn lemma_no_line_errors(lines: Seq<Seq<char>>)
    requires
        forall|k: int| 0 <= k < lines.len() ==> line_error(#[trigger] lines[k]) is None,
    ensures
        first_line_error(lines) is None,
    decreases lines.len(),
{
    if lines.len() > 0 {
        let init = lines.drop_last();
        assert forall|k: int| 0 <= k < init.len() implies line_error(#[trigger] init[k]) is None by {
            assert(init[k] == lines[k]);
        }
        lemma_no_line_errors(init);
        assert(line_error(lines[lines.len() - 1]) is None);
    }
}

pub(crate) proof fn lemma_last_record_skip(a: Seq<Seq<char>>, b: Seq<Seq<char>>, tag: Seq<char>)
    requires
        forall|k: int| 0 <= k < b.len() ==> !is_record(#[trigger] b[k], tag, 2),
    ensures
        last_record(a + b, tag) == last_record(a, tag),
    decreases b.len(),
{
    if b.len() == 0 {
        assert(a + b =~= a);
    } else {
        let init = b.drop_last();
        assert forall|k: int| 0 <= k < init.len() implies !is_record(#[trigger] init[k], tag, 2) by {
            assert(init[k] == b[k]);
        }
        lemma_last_record_skip(a, init, tag);
        assert((a + b).drop_last() =~= a + init);
        assert((a + b).last() == b[b.len() - 1]);
    }
}

pub(crate) proof fn lemma_named_values_concat(a: Seq<Seq<char>>, b: Seq<Seq<char>>, tag: Seq<char>)
    ensures
        named_record_values(a + b, tag) == named_record_values(a, tag) + named_record_values(b, tag),
    decreases b.len(),
{
    if b.len() == 0 {
        assert(a + b =~= a);
        assert(named_record_values(a, tag) + named_record_values(b, tag) =~= named_record_values(a, tag));
    } else {
        let init = b.drop_last();
        lemma_named_values_concat(a, init, tag);
        assert((a + b).drop_last() =~= a + init);
        assert((a + b).last() == b.last());
        assert(named_record_values(a + b, tag) =~= named_record_values(a, tag) + named_record_values(b, tag));
    }
}

proof fn lemma_wire_values_concat(a: Seq<Seq<char>>, b: Seq<Seq<char>>)
    ensures
        wire_record_values(a + b) == wire_record_values(a) + wire_record_values(b),
    decreases b.len(),
{
    if b.len() == 0 {
        assert(a + b =~= a);
        assert(wire_record_values(a) + wire_record_values(b) =~= wire_record_values(a));
    } else {
        let init = b.drop_last();
        lemma_wire_values_concat(a, init);
        assert((a + b).drop_last() =~= a + init);
        assert((a + b).last() == b.last());
        assert(wire_record_values(a + b) =~= wire_record_values(a) + wire_record_values(b));
    }
}

pub(crate) proof fn lemma_named_values_none(b: Seq<Seq<char>>, tag: Seq<char>)
    requires
        forall|k: int| 0 <= k < b.len() ==> !is_record(#[trigger] b[k], tag, 3),
    ensures
        named_record_values(b, tag) == Seq::<(Seq<char>, nat)>::empty(),
    decreases b.len(),
{
    if b.len() > 0 {
        let init = b.drop_last();
        assert forall|k: int| 0 <= k < init.len() implies !is_record(#[trigger] init[k], tag, 3) by {
            assert(init[k] == b[k]);
        }
        lemma_named_values_none(init, tag);
        assert(b.last() == b[b.len() - 1]);
    }
}

proof fn lemma_wire_values_none(b: Seq<Seq<char>>)
    requires
        forall|k: int| 0 <= k < b.len() ==> !is_record(#[trigger] b[k], "wire"@, 3),
    ensures
        wire_record_values(b) == Seq::<(nat, nat)>::empty(),
    decreases b.len(),
{
    if b.len() > 0 {
        let init = b.drop_last();
        assert forall|k: int| 0 <= k < init.len() implies !is_record(#[trigger] init[k], "wire"@, 3) by {
            assert(init[k] == b[k]);
        }
        lemma_wire_values_none(init);
        assert(b.last() == b[b.len() - 1]);
    }
}

pub(crate) proof fn lemma_digits_plain(x: nat)
    ensures
        plain_field(decimal(x)),
        parsed_value(decimal(x)) == Some(crate::field::reduce(x as int)),
        unsigned_value(decimal(x)) == Some(x),
{
    lemma_decimal_reads_back(x);
    let d = decimal(x);
    assert forall|i: int| 0 <= i < d.len() implies #[trigger] d[i] != '|' && d[i] != '\n' by {
        assert('0' <= d[i] <= '9');
    }
}

/// The named lines of `values` under `tag` read back as `values`.
pub(crate) proof fn lemma_named_lines_read(tag: Seq<char>, values: Seq<NamedValue>)
    requires
        tag.len() > 0,
        has_no(tag, '|'),
        !crate::lexer::is_whitespace(tag[0]),
        plain_named(values),
    ensures
        named_values_read(values, named_record_values(named_lines(tag, values), tag)),
        forall|k: int| 0 <= k < values.len() ==> #[trigger] split_on(named_lines(tag, values)[k], '|')
            == seq![tag, values[k].name@, decimal(values[k].value@)] && !blank_line(named_lines(tag, values)[k]),
    decreases values.len(),
{
    assert forall|k: int| 0 <= k < values.len() implies #[trigger] split_on(named_lines(tag, values)[k], '|')
        == seq![tag, values[k].name@, decimal(values[k].value@)] && !blank_line(named_lines(tag, values)[k]) by {
        lemma_digits_plain(values[k].value@);
        lemma_named_fields(tag, values[k].name@, decimal(values[k].value@));
    }
    if values.len() > 0 {
        let init = values.drop_last();
        assert forall|i: int| 0 <= i < init.len() implies plain_field((#[trigger] init[i]).name@) && init[i].value@ < modulus() by {
            assert(init[i] == values[i]);
        }
        lemma_named_lines_read(tag, init);
        let lines = named_lines(tag, values);
        assert(lines.drop_last() =~= named_lines(tag, init));
        let n = values.len() - 1;
        let v = values[n];
        lemma_digits_plain(v.value@);
        crate::field::lemma_reduce_small_value(v.value@);
        assert(lines.last() == lines[n]);
        let read = named_record_values(lines, tag);
        assert(read == named_record_values(named_lines(tag, init), tag).push((v.name@, v.value@)));
        assert forall|i: int| 0 <= i < values.len() implies (#[trigger] values[i]).name@ == read[i].0 && values[i].value@ == read[i].1 by {
            if i < n {
                assert(values[i] == init[i]);
            }
        }
    }
}


/// The wire lines of `values` read back as `values`.
proof fn lemma_wire_lines_read(values: Seq<WireValue>)
    requires
        forall|i: int| 0 <= i < values.len() ==> (#[trigger] values[i]).value@ < modulus(),
    ensures
        wires_read(values, wire_record_values(wire_lines(values))),
        forall|k: int| 0 <= k < values.len() ==> #[trigger] split_on(wire_lines(values)[k], '|')
            == seq!["wire"@, decimal(values[k].wire as nat), decimal(values[k].value@)] && !blank_line(wire_lines(values)[k]),
    decreases values.len(),
{
    lemma_tag_literals();
    assert forall|k: int| 0 <= k < values.len() implies #[trigger] split_on(wire_lines(values)[k], '|')
        == seq!["wire"@, decimal(values[k].wire as nat), decimal(values[k].value@)] && !blank_line(wire_lines(values)[k]) by {
        lemma_digits_plain(values[k].value@);
        lemma_digits_plain(values[k].wire as nat);
        lemma_named_fields("wire"@, decimal(values[k].wire as nat), decimal(values[k].value@));
    }
    if values.len() > 0 {
        let init = values.drop_last();
        assert forall|i: int| 0 <= i < init.len() implies (#[trigger] init[i]).value@ < modulus() by {
            assert(init[i] == values[i]);
        }
        lemma_wire_lines_read(init);
        let lines = wire_lines(values);
        assert(lines.drop_last() =~= wire_lines(init));
        let n = values.len() - 1;
        let v = values[n];
        lemma_digits_plain(v.value@);
        lemma_digits_plain(v.wire as nat);
        crate::field::lemma_reduce_small_value(v.value@);
        assert(lines.last() == lines[n]);
        let read = wire_record_values(lines);
        assert(read == wire_record_values(wire_lines(init)).push((v.wire as nat, v.value@)));
        assert forall|i: int| 0 <= i < values.len() implies (#[trigger] values[i]).wire == read[i].0 && values[i].value@ == read[i].1 by {
            if i < n {
                assert(values[i] == init[i]);
            }
        }
    }
}

/// The fields of every record line of a plain proof.
proof fn lemma_line_shapes(p: DebugProof)
    requires
        proof_text_plain(p),
    ensures
        split_on(single_lines(p)[0], '|') == seq!["backend"@, p.backend@],
        split_on(single_lines(p)[1], '|') == seq!["circuit"@, p.circuit@],
        split_on(single_lines(p)[2], '|') == seq!["circuit_digest"@, p.circuit_digest@],
        split_on(single_lines(p)[3], '|') == seq!["constraint_digest"@, p.constraint_digest@],
        split_on(single_lines(p)[4], '|') == seq!["trace_digest"@, p.trace_digest@],
        forall|k: int| 0 <= k < 5 ==> !blank_line(#[trigger] single_lines(p)[k]),
        named_values_read(p.public_inputs@, named_record_values(named_lines("public"@, p.public_inputs@), "public"@)),
        named_values_read(p.private_inputs@, named_record_values(named_lines("private"@, p.private_inputs@), "private"@)),
        named_values_read(p.outputs@, named_record_values(named_lines("output"@, p.outputs@), "output"@)),
        wires_read(p.wires@, wire_record_values(wire_lines(p.wires@))),
        forall|k: int| 0 <= k < p.public_inputs@.len() ==> #[trigger] split_on(named_lines("public"@, p.public_inputs@)[k], '|')
            == seq!["public"@, p.public_inputs@[k].name@, decimal(p.public_inputs@[k].value@)]
            && !blank_line(named_lines("public"@, p.public_inputs@)[k]),
        forall|k: int| 0 <= k < p.private_inputs@.len() ==> #[trigger] split_on(named_lines("private"@, p.private_inputs@)[k], '|')
            == seq!["private"@, p.private_inputs@[k].name@, decimal(p.private_inputs@[k].value@)]
            && !blank_line(named_lines("private"@, p.private_inputs@)[k]),
        forall|k: int| 0 <= k < p.outputs@.len() ==> #[trigger] split_on(named_lines("output"@, p.outputs@)[k], '|')
            == seq!["output"@, p.outputs@[k].name@, decimal(p.outputs@[k].value@)] && !blank_line(named_lines("output"@, p.outputs@)[k]),
        forall|k: int| 0 <= k < p.wires@.len() ==> #[trigger] split_on(wire_lines(p.wires@)[k], '|')
            == seq!["wire"@, decimal(p.wires@[k].wire as nat), decimal(p.wires@[k].value@)] && !blank_line(wire_lines(p.wires@)[k]),
{
    lemma_tag_literals();
    lemma_record_fields("backend"@, p.backend@);
    lemma_record_fields("circuit"@, p.circuit@);
    lemma_record_fields("circuit_digest"@, p.circuit_digest@);
    lemma_record_fields("constraint_digest"@, p.constraint_digest@);
    lemma_record_fields("trace_digest"@, p.trace_digest@);
    lemma_named_lines_read("public"@, p.public_inputs@);
    lemma_named_lines_read("private"@, p.private_inputs@);
    lemma_named_lines_read("output"@, p.outputs@);
    lemma_wire_lines_read(p.wires@);
}

/// No record line of a plain proof fails.
proof fn lemma_proof_lines_pass(p: DebugProof)
    requires
        proof_text_plain(p),
    ensures
        first_line_error(proof_record_lines(p)) is None,
{
    lemma_tag_literals();
    lemma_line_shapes(p);
    let s = single_lines(p);
    let pu = named_lines("public"@, p.public_inputs@);
    let pr = named_lines("private"@, p.private_inputs@);
    let ou = named_lines("output"@, p.outputs@);
    let wi = wire_lines(p.wires@);
    let lines = proof_record_lines(p);
    assert forall|k: int| 0 <= k < lines.len() implies line_error(#[trigger] lines[k]) is None by {
        let n1 = s.len() as int;
        let n2 = n1 + pu.len();
        let n3 = n2 + pr.len();
        let n4 = n3 + ou.len();
        if k < n1 {
            assert(lines[k] == s[k]);
            assert(!blank_line(s[k]));
        } else if k < n2 {
            assert(lines[k] == pu[k - n1]);
            lemma_digits_plain(p.public_inputs@[k - n1].value@);
        } else if k < n3 {
            assert(lines[k] == pr[k - n2]);
            lemma_digits_plain(p.private_inputs@[k - n2].value@);
        } else if k < n4 {
            assert(lines[k] == ou[k - n3]);
            lemma_digits_plain(p.outputs@[k - n3].value@);
        } else {
            assert(lines[k] == wi[k - n4]);
            lemma_digits_plain(p.wires@[k - n4].value@);
            lemma_digits_plain(p.wires@[k - n4].wire as nat);
        }
    }
    lemma_no_line_errors(lines);
}

/// Each single record of a plain proof's lines carries the proof's value.
proof fn lemma_proof_singles(p: DebugProof)
    requires
        proof_text_plain(p),
    ensures
        last_record(proof_record_lines(p), "backend"@) == Some(p.backend@),
        last_record(proof_record_lines(p), "circuit"@) == Some(p.circuit@),
        last_record(proof_record_lines(p), "circuit_digest"@) == Some(p.circuit_digest@),
        last_record(proof_record_lines(p), "constraint_digest"@) == Some(p.constraint_digest@),
        last_record(proof_record_lines(p), "trace_digest"@) == Some(p.trace_digest@),
{
    lemma_tag_literals();
    lemma_line_shapes(p);
    let s = single_lines(p);
    let pu = named_lines("public"@, p.public_inputs@);
    let pr = named_lines("private"@, p.private_inputs@);
    let ou = named_lines("output"@, p.outputs@);
    let wi = wire_lines(p.wires@);
    let rest = pu + pr + ou + wi;
    assert(proof_record_lines(p) =~= s + rest);
    assert forall|k: int| 0 <= k < rest.len() implies split_on(#[trigger] rest[k], '|').len() == 3 by {
        let n2 = pu.len() as int;
        let n3 = n2 + pr.len();
        let n4 = n3 + ou.len();
        if k < n2 {
            assert(rest[k] == pu[k]);
        } else if k < n3 {
            assert(rest[k] == pr[k - n2]);
        } else if k < n4 {
            assert(rest[k] == ou[k - n3]);
        } else {
            assert(rest[k] == wi[k - n4]);
        }
    }
    lemma_last_record_skip(s, rest, "backend"@);
    lemma_last_record_skip(s, rest, "circuit"@);
    lemma_last_record_skip(s, rest, "circuit_digest"@);
    lemma_last_record_skip(s, rest, "constraint_digest"@);
    lemma_last_record_skip(s, rest, "trace_digest"@);
    assert(!blank_line(s[0]) && !blank_line(s[1]) && !blank_line(s[2]) && !blank_line(s[3]) && !blank_line(s[4]));
    assert(s.drop_last().drop_last().drop_last().drop_last().drop_last() =~= Seq::<Seq<char>>::empty());
    assert(s.drop_last().drop_last().drop_last().drop_last() =~= seq![s[0]]);
    assert(s.drop_last().drop_last().drop_last() =~= seq![s[0], s[1]]);
    assert(s.drop_last().drop_last() =~= seq![s[0], s[1], s[2]]);
    assert(s.drop_last() =~= seq![s[0], s[1], s[2], s[3]]);
    reveal_strlit("circuit_digest");
    reveal_strlit("constraint_digest");
    reveal_strlit("trace_digest");
    reveal_strlit("backend");
    reveal_strlit("circuit");
    reveal_with_fuel(last_record, 6);
}

/// Named records of `tag` only in the middle part: they are the middle part's.
pub(crate) proof fn lemma_named_only(pre: Seq<Seq<char>>, mid: Seq<Seq<char>>, post: Seq<Seq<char>>, tag: Seq<char>)
    requires
        forall|k: int| 0 <= k < pre.len() ==> !is_record(#[trigger] pre[k], tag, 3),
        forall|k: int| 0 <= k < post.len() ==> !is_record(#[trigger] post[k], tag, 3),
    ensures
        named_record_values(pre + mid + post, tag) == named_record_values(mid, tag),
{
    lemma_named_values_concat(pre + mid, post, tag);
    lemma_named_values_concat(pre, mid, tag);
    lemma_named_values_none(pre, tag);
    lemma_named_values_none(post, tag);
    assert(named_record_values(pre, tag) + named_record_values(mid, tag) + named_record_values(post, tag) =~= named_record_values(mid, tag));
}

/// No single record of a plain proof is a three-field record.
proof fn lemma_singles_not_named(p: DebugProof, tag: Seq<char>)
    requires
        proof_text_plain(p),
    ensures
        forall|k: int| 0 <= k < single_lines(p).len() ==> !is_record(#[trigger] single_lines(p)[k], tag, 3),
{
    lemma_line_shapes(p);
    let s = single_lines(p);
    assert forall|k: int| 0 <= k < s.len() implies !is_record(#[trigger] s[k], tag, 3) by {
        if k == 0 {
        } else if k == 1 {
        } else if k == 2 {
        } else if k == 3 {
        } else {
            assert(k == 4);
        }
    }
}

/// The public records of a plain proof's lines are the lines written for its public inputs.
proof fn lemma_proof_public(p: DebugProof)
    requires
        proof_text_plain(p),
    ensures
        named_record_values(proof_record_lines(p), "public"@) == named_record_values(named_lines("public"@, p.public_inputs@), "public"@),
{
    lemma_tag_literals();
    lemma_line_shapes(p);
    lemma_singles_not_named(p, "public"@);
    let s = single_lines(p);
    let pu = named_lines("public"@, p.public_inputs@);
    let pr = named_lines("private"@, p.private_inputs@);
    let ou = named_lines("output"@, p.outputs@);
    let wi = wire_lines(p.wires@);
    let post = pr + ou + wi;
    assert forall|k: int| 0 <= k < post.len() implies !is_record(#[trigger] post[k], "public"@, 3) by {
        if k < pr.len() {
            assert(post[k] == pr[k]);
            assert(split_on(pr[k], '|')[0] == "private"@);
        } else if k < pr.len() + ou.len() {
            let j = k - pr.len();
            assert(post[k] == ou[j]);
            assert(split_on(ou[j], '|')[0] == "output"@);
        } else {
            let j = k - pr.len() - ou.len();
            assert(post[k] == wi[j]);
            assert(split_on(wi[j], '|')[0] == "wire"@);
        }
    }
    lemma_named_only(s, pu, post, "public"@);
    assert(proof_record_lines(p) =~= s + pu + post);
}

/// The private records of a plain proof's lines are the lines written for its private inputs.
proof fn lemma_proof_private(p: DebugProof)
    requires
        proof_text_plain(p),
    ensures
        named_record_values(proof_record_lines(p), "private"@) == named_record_values(named_lines("private"@, p.private_inputs@), "private"@),
{
    lemma_tag_literals();
    lemma_line_shapes(p);
    lemma_singles_not_named(p, "private"@);
    let s = single_lines(p);
    let pu = named_lines("public"@, p.public_inputs@);
    let pr = named_lines("private"@, p.private_inputs@);
    let ou = named_lines("output"@, p.outputs@);
    let wi = wire_lines(p.wires@);
    let pre = s + pu;
    let post = ou + wi;
    assert forall|k: int| 0 <= k < pre.len() implies !is_record(#[trigger] pre[k], "private"@, 3) by {
        if k < s.len() {
            assert(pre[k] == s[k]);
        } else {
            let j = k - s.len();
            assert(pre[k] == pu[j]);
            assert(split_on(pu[j], '|')[0] == "public"@);
        }
    }
    assert forall|k: int| 0 <= k < post.len() implies !is_record(#[trigger] post[k], "private"@, 3) by {
        if k < ou.len() {
            assert(post[k] == ou[k]);
        } else {
            assert(post[k] == wi[k - ou.len()]);
        }
    }
    lemma_named_only(pre, pr, post, "private"@);
    assert(proof_record_lines(p) =~= pre + pr + post);
}

/// The output records of a plain proof's lines are the lines written for its outputs.
proof fn lemma_proof_outputs(p: DebugProof)
    requires
        proof_text_plain(p),
    ensures
        named_record_values(proof_record_lines(p), "output"@) == named_record_values(named_lines("output"@, p.outputs@), "output"@),
{
    lemma_tag_literals();
    lemma_line_shapes(p);
    lemma_singles_not_named(p, "output"@);
    let s = single_lines(p);
    let pu = named_lines("public"@, p.public_inputs@);
    let pr = named_lines("private"@, p.private_inputs@);
    let ou = named_lines("output"@, p.outputs@);
    let wi = wire_lines(p.wires@);
    let pre = s + pu + pr;
    assert forall|k: int| 0 <= k < pre.len() implies !is_record(#[trigger] pre[k], "output"@, 3) by {
        if k < s.len() {
            assert(pre[k] == s[k]);
        } else if k < s.len() + pu.len() {
            assert(pre[k] == pu[k - s.len()]);
        } else {
            assert(pre[k] == pr[k - s.len() - pu.len()]);
        }
    }
    assert forall|k: int| 0 <= k < wi.len() implies !is_record(#[trigger] wi[k], "output"@, 3) by {}
    lemma_named_only(pre, ou, wi, "output"@);
    assert(proof_record_lines(p) =~= pre + ou + wi);
}

/// The wire records of a plain proof's lines are the lines written for its wires.
proof fn lemma_proof_wires(p: DebugProof)
    requires
        proof_text_plain(p),
    ensures
        wire_record_values(proof_record_lines(p)) == wire_record_values(wire_lines(p.wires@)),
{
    lemma_tag_literals();
    lemma_line_shapes(p);
    let s = single_lines(p);
    let pu = named_lines("public"@, p.public_inputs@);
    let pr = named_lines("private"@, p.private_inputs@);
    let ou = named_lines("output"@, p.outputs@);
    let wi = wire_lines(p.wires@);
    assert(proof_record_lines(p) =~= s + pu + pr + ou + wi);
    lemma_wire_values_concat(s + pu + pr + ou, wi);
    lemma_wire_values_concat(s + pu + pr, ou);
    lemma_wire_values_concat(s + pu, pr);
    lemma_wire_values_concat(s, pu);
    assert forall|k: int| 0 <= k < s.len() implies !is_record(#[trigger] s[k], "wire"@, 3) by {}
    lemma_wire_values_none(s);
    assert forall|k: int| 0 <= k < pu.len() implies !is_record(#[trigger] pu[k], "wire"@, 3) by {}
    lemma_wire_values_none(pu);
    assert forall|k: int| 0 <= k < pr.len() implies !is_record(#[trigger] pr[k], "wire"@, 3) by {}
    lemma_wire_values_none(pr);
    assert forall|k: int| 0 <= k < ou.len() implies !is_record(#[trigger] ou[k], "wire"@, 3) by {}
    lemma_wire_values_none(ou);
    assert(wire_record_values(s) + wire_record_values(pu) + wire_record_values(pr) + wire_record_values(ou) + wire_record_values(wi)
        =~= wire_record_values(wi));
}

/// The text artifact of a proof whose strings fit in records reads back as the same proof: its
/// header is recognized, no line fails, every single record carries the proof's value, and the
/// named and wire records list the proof's values in order.
pub proof fn lemma_proof_text_reads_back(p: DebugProof)
    requires
        proof_text_plain(p),
    ensures
        text_lines(proof_text(p)).len() > 0,
        trimmed(text_lines(proof_text(p))[0]) == proof_header(),
        first_line_error(record_lines(proof_text(p))) is None,
        missing_record(record_lines(proof_text(p))) is None,
        last_record(record_lines(proof_text(p)), "backend"@) == Some(p.backend@),
        last_record(record_lines(proof_text(p)), "circuit"@) == Some(p.circuit@),
        last_record(record_lines(proof_text(p)), "circuit_digest"@) == Some(p.circuit_digest@),
        last_record(record_lines(proof_text(p)), "constraint_digest"@) == Some(p.constraint_digest@),
        last_record(record_lines(proof_text(p)), "trace_digest"@) == Some(p.trace_digest@),
        named_values_read(p.public_inputs@, named_record_values(record_lines(proof_text(p)), "public"@)),
        named_values_read(p.private_inputs@, named_record_values(record_lines(proof_text(p)), "private"@)),
        named_values_read(p.outputs@, named_record_values(record_lines(proof_text(p)), "output"@)),
        wires_read(p.wires@, wire_record_values(record_lines(proof_text(p)))),
{
    lemma_tag_literals();
    lemma_proof_lines_read(p);
    lemma_line_shapes(p);
    lemma_proof_lines_pass(p);
    lemma_proof_singles(p);
    lemma_proof_public(p);
    lemma_proof_private(p);
    lemma_proof_outputs(p);
    lemma_proof_wires(p);
}

} // verus!
