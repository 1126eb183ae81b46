//! The constraint-system view of a circuit: variables, defining and asserting equations,
//! range assertions and outputs, with JSON and text renderings.
use vstd::prelude::*;

use crate::ast::{spelling, Type};
use crate::field::{FieldElement, MODULUS};
use crate::ir::{CircuitIr, Constraint, NamedInput, OpKind, Operand, Operation};
use crate::text::{
    decimal, json_array_text, json_string, lines_or_none, push_char,
    push_decimal, push_field, push_json_array, push_lines_or_none, push_str, quoted, to_owned,
    usize_to_string, views,
};

verus! {

pub type VariableId = usize;

#[derive(Debug, PartialEq, Eq)]
pub struct ConstraintIr {
    pub name: String,
    pub public_inputs: Vec<Variable>,
    pub private_inputs: Vec<Variable>,
    pub witnesses: Vec<Variable>,
    pub equations: Vec<Equation>,
    pub range_assertions: Vec<RangeAssertion>,
    pub outputs: Vec<ConstraintOutput>,
    pub next_variable: VariableId,
}

#[derive(Debug, PartialEq, Eq)]
pub struct Variable {
    pub id: VariableId,
    pub name: String,
    pub role: VariableRole,
    pub ty: Type,
}

#[derive(Debug, Clone, Copy, PartialEq, Eq, Structural)]
pub enum VariableRole {
    PublicInput,
    PrivateInput,
    Witness,
}

#[derive(Debug, PartialEq, Eq)]
pub struct Equation {
    pub kind: EquationKind,
    pub lhs: Expr,
    pub rhs: Expr,
}

#[derive(Debug, Clone, Copy, PartialEq, Eq, Structural)]
pub enum EquationKind {
    Definition,
    Assertion,
}

#[derive(Debug, PartialEq, Eq)]
pub struct ConstraintOutput {
    pub name: String,
    pub value: Expr,
}

#[derive(Debug, PartialEq, Eq)]
pub struct RangeAssertion {
    pub value: Expr,
    pub ty: Type,
}

#[derive(Debug, PartialEq, Eq)]
pub enum Expr {
    Var(VariableId),
    Const(FieldElement),
    Add(Box<Expr>, Box<Expr>),
    Sub(Box<Expr>, Box<Expr>),
    Mul(Box<Expr>, Box<Expr>),
}

impl Clone for Expr {
    fn clone(&self) -> (r: Expr)
        ensures
            r == *self,
        decreases self,
    {
        match self {
            Expr::Var(id) => Expr::Var(*id),
            Expr::Const(v) => Expr::Const(*v),
            Expr::Add(l, r) => Expr::Add(Box::new((**l).clone()), Box::new((**r).clone())),
            Expr::Sub(l, r) => Expr::Sub(Box::new((**l).clone()), Box::new((**r).clone())),
            Expr::Mul(l, r) => Expr::Mul(Box::new((**l).clone()), Box::new((**r).clone())),
        }
    }
}

// ----- lowering -------------------------------------------------------------------------------

pub open spec fn operand_expr(o: Operand) -> Expr {
    match o {
        Operand::Wire(w) => Expr::Var(w),
        Operand::Const(v) => Expr::Const(v),
    }
}

/// The equation defining an operation's result wire.
pub open spec fn definition_of(op: Operation) -> Equation {
    Equation {
        kind: EquationKind::Definition,
        lhs: Expr::Var(op.out),
        rhs: match op.kind {
            OpKind::Add(l, r) => Expr::Add(Box::new(operand_expr(l)), Box::new(operand_expr(r))),
            OpKind::Sub(l, r) => Expr::Sub(Box::new(operand_expr(l)), Box::new(operand_expr(r))),
            OpKind::Mul(l, r) => Expr::Mul(Box::new(operand_expr(l)), Box::new(operand_expr(r))),
        },
    }
}

pub open spec fn assertion_of(c: Constraint) -> Equation {
    Equation { kind: EquationKind::Assertion, lhs: operand_expr(c.lhs), rhs: operand_expr(c.rhs) }
}

/// The variable standing for an input.
pub open spec fn input_variable(v: Variable, input: NamedInput, role: VariableRole) -> bool {
    &&& v.id == input.wire
    &&& v.name@ == input.name@
    &&& v.role == role
    &&& v.ty == input.ty
}

/// The witness variable of an operation: named `w` and the result wire.
pub open spec fn witness_of(v: Variable, op: Operation) -> bool {
    &&& v.id == op.out
    &&& v.name@ == seq!['w'] + decimal(op.out as nat)
    &&& v.role == VariableRole::Witness
    &&& v.ty == Type::Field
}

/// The constraint system of a circuit, variable for wire.
pub open spec fn lowers_to(ir: CircuitIr, c: ConstraintIr) -> bool {
    &&& c.name@ == ir.name@
    &&& c.next_variable == ir.next_wire
    &&& c.public_inputs@.len() == ir.public_inputs@.len()
    &&& forall|i: int| 0 <= i < c.public_inputs@.len()
        ==> input_variable(#[trigger] c.public_inputs@[i], ir.public_inputs@[i], VariableRole::PublicInput)
    &&& c.private_inputs@.len() == ir.private_inputs@.len()
    &&& forall|i: int| 0 <= i < c.private_inputs@.len()
        ==> input_variable(#[trigger] c.private_inputs@[i], ir.private_inputs@[i], VariableRole::PrivateInput)
    &&& c.witnesses@.len() == ir.operations@.len()
    &&& forall|k: int| 0 <= k < c.witnesses@.len() ==> witness_of(#[trigger] c.witnesses@[k], ir.operations@[k])
    &&& c.equations@.len() == ir.operations@.len() + ir.constraints@.len()
    &&& forall|k: int| 0 <= k < ir.operations@.len() ==> #[trigger] c.equations@[k] == definition_of(ir.operations@[k])
    &&& forall|k: int| 0 <= k < ir.constraints@.len()
        ==> #[trigger] c.equations@[ir.operations@.len() + k] == assertion_of(ir.constraints@[k])
    &&& c.range_assertions@.len() == ir.range_constraints@.len()
    &&& forall|k: int| 0 <= k < c.range_assertions@.len() ==> {
        &&& (#[trigger] c.range_assertions@[k]).value == operand_expr(ir.range_constraints@[k].value)
        &&& c.range_assertions@[k].ty == ir.range_constraints@[k].ty
    }
    &&& c.outputs@.len() == ir.outputs@.len()
    &&& forall|k: int| 0 <= k < c.outputs@.len() ==> {
        &&& (#[trigger] c.outputs@[k]).name@ == ir.outputs@[k].name@
        &&& c.outputs@[k].value == operand_expr(ir.outputs@[k].value)
    }
}

fn expr_from_operand(operand: Operand) -> (e: Expr)
    ensures
        e == operand_expr(operand),
{
    match operand {
        Operand::Wire(wire) => Expr::Var(wire),
        Operand::Const(value) => Expr::Const(value),
    }
}

fn input_variables(inputs: &Vec<NamedInput>, role: VariableRole) -> (r: Vec<Variable>)
    ensures
        r@.len() == inputs@.len(),
        forall|i: int| 0 <= i < r@.len() ==> input_variable(#[trigger] r@[i], inputs@[i], role),
{
    let mut out: Vec<Variable> = Vec::new();
    let mut i: usize = 0;
    while i < inputs.len()
        invariant
            i <= inputs@.len(),
            out@.len() == i,
            forall|k: int| 0 <= k < i ==> input_variable(#[trigger] out@[k], inputs@[k], role),
        decreases inputs.len() - i,
    {
        let input = &inputs[i];
        out.push(Variable { id: input.wire, name: input.name.clone(), role, ty: input.ty });
        i = i + 1;
    }
    out
}

fn witness_variable(operation: &Operation) -> (v: Variable)
    ensures
        witness_of(v, *operation),
{
    let mut name = to_owned("w");
    push_decimal(&mut name, operation.out as u128);
    proof {
        reveal_strlit("w");
        assert("w"@ =~= seq!['w']);
    }
    Variable { id: operation.out, name, role: VariableRole::Witness, ty: Type::Field }
}

fn operation_equation(operation: &Operation) -> (e: Equation)
    ensures
        e == definition_of(*operation),
{
    let rhs = match operation.kind {
        OpKind::Add(lhs, rhs) => Expr::Add(Box::new(expr_from_operand(lhs)), Box::new(expr_from_operand(rhs))),
        OpKind::Sub(lhs, rhs) => Expr::Sub(Box::new(expr_from_operand(lhs)), Box::new(expr_from_operand(rhs))),
        OpKind::Mul(lhs, rhs) => Expr::Mul(Box::new(expr_from_operand(lhs)), Box::new(expr_from_operand(rhs))),
    };
    Equation { kind: EquationKind::Definition, lhs: Expr::Var(operation.out), rhs }
}

fn assertion_equation(constraint: &Constraint) -> (e: Equation)
    ensures
        e == assertion_of(*constraint),
{
    Equation {
        kind: EquationKind::Assertion,
        lhs: expr_from_operand(constraint.lhs),
        rhs: expr_from_operand(constraint.rhs),
    }
}

/// The constraint system of `ir`: a variable per wire (inputs keep their names, operation
/// results are witnesses `w<wire>`), a defining equation per operation followed by an asserting
/// equation per constraint, a range assertion per range constraint and an output per output.
pub fn lower(ir: &CircuitIr) -> (c: ConstraintIr)
    ensures
        lowers_to(*ir, c),
{
    let public_inputs = input_variables(&ir.public_inputs, VariableRole::PublicInput);
    let private_inputs = input_variables(&ir.private_inputs, VariableRole::PrivateInput);
    let mut witnesses: Vec<Variable> = Vec::new();
    let mut equations: Vec<Equation> = Vec::new();
    let mut k: usize = 0;
    while k < ir.operations.len()
        invariant
            k <= ir.operations@.len(),
            witnesses@.len() == k,
            equations@.len() == k,
            forall|j: int| 0 <= j < k ==> witness_of(#[trigger] witnesses@[j], ir.operations@[j]),
            forall|j: int| 0 <= j < k ==> #[trigger] equations@[j] == definition_of(ir.operations@[j]),
        decreases ir.operations.len() - k,
    {
        witnesses.push(witness_variable(&ir.operations[k]));
        equations.push(operation_equation(&ir.operations[k]));
        k = k + 1;
    }
    let mut c: usize = 0;
    while c < ir.constraints.len()
        invariant
            c <= ir.constraints@.len(),
            equations@.len() == ir.operations@.len() + c,
            forall|j: int| 0 <= j < ir.operations@.len() ==> #[trigger] equations@[j] == definition_of(ir.operations@[j]),
            forall|j: int| 0 <= j < c ==> #[trigger] equations@[ir.operations@.len() + j] == assertion_of(ir.constraints@[j]),
        decreases ir.constraints.len() - c,
    {
        let ghost before = equations@;
        equations.push(assertion_equation(&ir.constraints[c]));
        proof {
            assert forall|j: int| 0 <= j < c + 1 implies #[trigger] equations@[ir.operations@.len() + j] == assertion_of(ir.constraints@[j]) by {
                if j < c {
                    assert(equations@[ir.operations@.len() + j] == before[ir.operations@.len() + j]);
                }
            }
            assert forall|j: int| 0 <= j < ir.operations@.len() implies #[trigger] equations@[j] == definition_of(ir.operations@[j]) by {
                assert(equations@[j] == before[j]);
            }
        }
        c = c + 1;
    }
    let mut outputs: Vec<ConstraintOutput> = Vec::new();
    let mut o: usize = 0;
    while o < ir.outputs.len()
        invariant
            o <= ir.outputs@.len(),
            outputs@.len() == o,
            forall|j: int| 0 <= j < o ==> {
                &&& (#[trigger] outputs@[j]).name@ == ir.outputs@[j].name@
                &&& outputs@[j].value == operand_expr(ir.outputs@[j].value)
            },
        decreases ir.outputs.len() - o,
    {
        let output = &ir.outputs[o];
        outputs.push(ConstraintOutput { name: output.name.clone(), value: expr_from_operand(output.value) });
        o = o + 1;
    }
    let mut range_assertions: Vec<RangeAssertion> = Vec::new();
    let mut a: usize = 0;
    while a < ir.range_constraints.len()
        invariant
            a <= ir.range_constraints@.len(),
            range_assertions@.len() == a,
            forall|j: int| 0 <= j < a ==> {
                &&& (#[trigger] range_assertions@[j]).value == operand_expr(ir.range_constraints@[j].value)
                &&& range_assertions@[j].ty == ir.range_constraints@[j].ty
            },
        decreases ir.range_constraints.len() - a,
    {
        let constraint = ir.range_constraints[a];
        range_assertions.push(RangeAssertion { value: expr_from_operand(constraint.value), ty: constraint.ty });
        a = a + 1;
    }
    ConstraintIr {
        name: ir.name.clone(),
        public_inputs,
        private_inputs,
        witnesses,
        equations,
        range_assertions,
        outputs,
        next_variable: ir.next_wire,
    }
}

// ----- text rendering -------------------------------------------------------------------------

pub open spec fn role_text(role: VariableRole) -> Seq<char> {
    match role {
        VariableRole::PublicInput => "public"@,
        VariableRole::PrivateInput => "private"@,
        VariableRole::Witness => "witness"@,
    }
}

pub open spec fn kind_label(kind: EquationKind) -> Seq<char> {
    match kind {
        EquationKind::Definition => "def"@,
        EquationKind::Assertion => "assert"@,
    }
}

pub open spec fn kind_json_label(kind: EquationKind) -> Seq<char> {
    match kind {
        EquationKind::Definition => "definition"@,
        EquationKind::Assertion => "assertion"@,
    }
}

/// An expression in infix form, with the parentheses that binding strength needs: `+` and `-`
/// bind with strength 1, `*` with 2, and a right operand one step tighter than its operator.
pub open spec fn expr_text(e: Expr, parent: nat) -> Seq<char>
    decreases e,
{
    match e {
        Expr::Var(id) => seq!['v'] + decimal(id as nat),
        Expr::Const(v) => decimal(v@),
        Expr::Add(l, r) => binary_text(expr_text(*l, 1), expr_text(*r, 2), "+"@, 1, parent),
        Expr::Sub(l, r) => binary_text(expr_text(*l, 1), expr_text(*r, 2), "-"@, 1, parent),
        Expr::Mul(l, r) => binary_text(expr_text(*l, 2), expr_text(*r, 3), "*"@, 2, parent),
    }
}

pub open spec fn binary_text(l: Seq<char>, r: Seq<char>, op: Seq<char>, precedence: nat, parent: nat) -> Seq<char> {
    let inner = l + seq![' '] + op + seq![' '] + r;
    if precedence < parent {
        seq!['('] + inner + seq![')']
    } else {
        inner
    }
}

pub open spec fn equation_text(e: Equation) -> Seq<char> {
    seq!['['] + kind_label(e.kind) + "] "@ + expr_text(e.lhs, 0) + " == "@ + expr_text(e.rhs, 0)
}

pub open spec fn variable_line(v: Variable) -> Seq<char> {
    "  "@ + v.name@ + ": "@ + spelling(v.ty) + " -> v"@ + decimal(v.id as nat) + seq!['\n']
}

pub open spec fn variable_lines(vs: Seq<Variable>) -> Seq<Seq<char>> {
    vs.map_values(|v: Variable| variable_line(v))
}

pub open spec fn equation_lines(es: Seq<Equation>) -> Seq<Seq<char>> {
    es.map_values(|e: Equation| "  "@ + equation_text(e) + seq!['\n'])
}

pub open spec fn range_lines(rs: Seq<RangeAssertion>) -> Seq<Seq<char>> {
    rs.map_values(|a: RangeAssertion| "  "@ + expr_text(a.value, 0) + " in "@ + spelling(a.ty) + seq!['\n'])
}

pub open spec fn output_lines(os: Seq<ConstraintOutput>) -> Seq<Seq<char>> {
    os.map_values(|o: ConstraintOutput| "  "@ + o.name@ + " = "@ + expr_text(o.value, 0) + seq!['\n'])
}

/// The text listing of a constraint system.
pub open spec fn constraint_ir_text(c: ConstraintIr) -> Seq<char> {
    "constraint system "@ + c.name@ + seq!['\n'] + "field modulus "@ + MODULUS@ + seq!['\n']
        + "public_inputs:\n"@ + lines_or_none(variable_lines(c.public_inputs@))
        + "private_inputs:\n"@ + lines_or_none(variable_lines(c.private_inputs@))
        + "witnesses:\n"@ + lines_or_none(variable_lines(c.witnesses@))
        + "equations:\n"@ + lines_or_none(equation_lines(c.equations@))
        + "range assertions:\n"@ + lines_or_none(range_lines(c.range_assertions@))
        + "outputs:\n"@ + lines_or_none(output_lines(c.outputs@))
}

impl EquationKind {
    pub fn label(self) -> (r: &'static str)
        ensures
            r@ == kind_label(self),
    {
        match self {
            EquationKind::Definition => "def",
            EquationKind::Assertion => "assert",
        }
    }

    pub fn json_label(self) -> (r: &'static str)
        ensures
            r@ == kind_json_label(self),
    {
        match self {
            EquationKind::Definition => "definition",
            EquationKind::Assertion => "assertion",
        }
    }
}

fn role_name(role: VariableRole) -> (r: &'static str)
    ensures
        r@ == role_text(role),
{
    match role {
        VariableRole::PublicInput => "public",
        VariableRole::PrivateInput => "private",
        VariableRole::Witness => "witness",
    }
}

fn expr_text_of(expr: &Expr, parent: u8) -> (s: String)
    requires
        parent <= 3,
    ensures
        s@ == expr_text(*expr, parent as nat),
    decreases expr,
{
    match expr {
        Expr::Var(id) => {
            let mut out = String::new();
            push_char(&mut out, 'v');
            push_decimal(&mut out, *id as u128);
            assert(out@ =~= expr_text(*expr, parent as nat));
            out
        },
        Expr::Const(value) => value.to_string(),
        Expr::Add(l, r) => binary_text_of(expr_text_of(l, 1), expr_text_of(r, 2), "+", 1, parent),
        Expr::Sub(l, r) => binary_text_of(expr_text_of(l, 1), expr_text_of(r, 2), "-", 1, parent),
        Expr::Mul(l, r) => binary_text_of(expr_text_of(l, 2), expr_text_of(r, 3), "*", 2, parent),
    }
}

fn binary_text_of(lhs: String, rhs: String, op: &str, precedence: u8, parent: u8) -> (s: String)
    ensures
        s@ == binary_text(lhs@, rhs@, op@, precedence as nat, parent as nat),
{
    let mut out = String::new();
    let needs_parens = precedence < parent;
    if needs_parens {
        push_char(&mut out, '(');
    }
    push_str(&mut out, lhs.as_str());
    push_char(&mut out, ' ');
    push_str(&mut out, op);
    push_char(&mut out, ' ');
    push_str(&mut out, rhs.as_str());
    if needs_parens {
        push_char(&mut out, ')');
    }
    assert(out@ =~= binary_text(lhs@, rhs@, op@, precedence as nat, parent as nat));
    out
}

fn push_expr_text(out: &mut String, expr: &Expr)
    ensures
        final(out)@ == old(out)@ + expr_text(*expr, 0),
{
    push_str(out, expr_text_of(expr, 0).as_str());
}

fn variable_lines_of(vs: &Vec<Variable>) -> (r: Vec<String>)
    ensures
        views(r@) == variable_lines(vs@),
{
    let mut lines: Vec<String> = Vec::new();
    let mut i: usize = 0;
    while i < vs.len()
        invariant
            i <= vs@.len(),
            lines@.len() == i,
            forall|k: int| 0 <= k < i ==> (#[trigger] lines@[k])@ == variable_line(vs@[k]),
        decreases vs.len() - i,
    {
        let v = &vs[i];
        let mut line = to_owned("  ");
        push_str(&mut line, v.name.as_str());
        push_str(&mut line, ": ");
        push_str(&mut line, v.ty.name());
        push_str(&mut line, " -> v");
        push_decimal(&mut line, v.id as u128);
        push_char(&mut line, '\n');
        assert(line@ =~= variable_line(*v));
        lines.push(line);
        i = i + 1;
    }
    assert(views(lines@) =~= variable_lines(vs@));
    lines
}

impl Equation {
    /// `[def] lhs == rhs` or `[assert] lhs == rhs`.
    pub fn to_text(&self) -> (s: String)
        ensures
            s@ == equation_text(*self),
    {
        let mut out = to_owned("[");
        push_str(&mut out, self.kind.label());
        push_str(&mut out, "] ");
        push_expr_text(&mut out, &self.lhs);
        push_str(&mut out, " == ");
        push_expr_text(&mut out, &self.rhs);
        proof {
            reveal_strlit("[");
        }
        assert(out@ =~= equation_text(*self));
        out
    }
}

impl Expr {
    /// The infix form of the expression.
    pub fn to_text(&self) -> (s: String)
        ensures
            s@ == expr_text(*self, 0),
    {
        expr_text_of(self, 0)
    }
}

impl ConstraintIr {
    /// The text listing: header, variables by role, equations, range assertions and outputs.
    pub fn to_text(&self) -> (s: String)
        ensures
            s@ == constraint_ir_text(*self),
    {
        let mut out = to_owned("constraint system ");
        push_str(&mut out, self.name.as_str());
        push_char(&mut out, '\n');
        push_str(&mut out, "field modulus ");
        push_str(&mut out, MODULUS);
        push_char(&mut out, '\n');
        push_str(&mut out, "public_inputs:\n");
        push_lines_or_none(&mut out, &variable_lines_of(&self.public_inputs));
        push_str(&mut out, "private_inputs:\n");
        push_lines_or_none(&mut out, &variable_lines_of(&self.private_inputs));
        push_str(&mut out, "witnesses:\n");
        push_lines_or_none(&mut out, &variable_lines_of(&self.witnesses));
        push_str(&mut out, "equations:\n");
        let mut lines: Vec<String> = Vec::new();
        let mut i: usize = 0;
        while i < self.equations.len()
            invariant
                i <= self.equations@.len(),
                lines@.len() == i,
                forall|k: int| 0 <= k < i ==> (#[trigger] lines@[k])@ == "  "@ + equation_text(self.equations@[k]) + seq!['\n'],
            decreases self.equations.len() - i,
        {
            let mut line = to_owned("  ");
            push_str(&mut line, self.equations[i].to_text().as_str());
            push_char(&mut line, '\n');
            assert(line@ =~= "  "@ + equation_text(self.equations@[i as int]) + seq!['\n']);
            lines.push(line);
            i = i + 1;
        }
        assert(views(lines@) =~= equation_lines(self.equations@));
        push_lines_or_none(&mut out, &lines);
        push_str(&mut out, "range assertions:\n");
        let mut lines: Vec<String> = Vec::new();
        let mut i: usize = 0;
        while i < self.range_assertions.len()
            invariant
                i <= self.range_assertions@.len(),
                lines@.len() == i,
                forall|k: int| 0 <= k < i ==> (#[trigger] lines@[k])@ == "  "@ + expr_text(self.range_assertions@[k].value, 0) + " in "@
                    + spelling(self.range_assertions@[k].ty) + seq!['\n'],
            decreases self.range_assertions.len() - i,
        {
            let assertion = &self.range_assertions[i];
            let mut line = to_owned("  ");
            push_expr_text(&mut line, &assertion.value);
            push_str(&mut line, " in ");
            push_str(&mut line, assertion.ty.name());
            push_char(&mut line, '\n');
            assert(line@ =~= "  "@ + expr_text(assertion.value, 0) + " in "@ + spelling(assertion.ty) + seq!['\n']);
            lines.push(line);
            i = i + 1;
        }
        assert(views(lines@) =~= range_lines(self.range_assertions@));
        push_lines_or_none(&mut out, &lines);
        push_str(&mut out, "outputs:\n");
        let mut lines: Vec<String> = Vec::new();
        let mut i: usize = 0;
        while i < self.outputs.len()
            invariant
                i <= self.outputs@.len(),
                lines@.len() == i,
                forall|k: int| 0 <= k < i ==> (#[trigger] lines@[k])@ == "  "@ + self.outputs@[k].name@ + " = "@
                    + expr_text(self.outputs@[k].value, 0) + seq!['\n'],
            decreases self.outputs.len() - i,
        {
            let output = &self.outputs[i];
            let mut line = to_owned("  ");
            push_str(&mut line, output.name.as_str());
            push_str(&mut line, " = ");
            push_expr_text(&mut line, &output.value);
            push_char(&mut line, '\n');
            assert(line@ =~= "  "@ + output.name@ + " = "@ + expr_text(output.value, 0) + seq!['\n']);
            lines.push(line);
            i = i + 1;
        }
        assert(views(lines@) =~= output_lines(self.outputs@));
        push_lines_or_none(&mut out, &lines);
        assert(out@ =~= constraint_ir_text(*self));
        out
    }
}

// ----- JSON rendering -------------------------------------------------------------------------

pub open spec fn expr_json(e: Expr) -> Seq<char>
    decreases e,
{
    match e {
        Expr::Var(id) => "{\"kind\":\"var\",\"id\":"@ + decimal(id as nat) + "}"@,
        Expr::Const(v) => "{\"kind\":\"const\",\"value\":"@ + quoted(decimal(v@)) + "}"@,
        Expr::Add(l, r) => binary_json("add"@, expr_json(*l), expr_json(*r)),
        Expr::Sub(l, r) => binary_json("sub"@, expr_json(*l), expr_json(*r)),
        Expr::Mul(l, r) => binary_json("mul"@, expr_json(*l), expr_json(*r)),
    }
}

pub open spec fn binary_json(op: Seq<char>, l: Seq<char>, r: Seq<char>) -> Seq<char> {
    "{\"kind\":\""@ + op + "\",\"lhs\":"@ + l + ",\"rhs\":"@ + r + "}"@
}

pub open spec fn variable_json(v: Variable) -> Seq<char> {
    "{\"id\":"@ + decimal(v.id as nat) + ",\"name\":"@ + quoted(v.name@) + ",\"role\":"@
        + quoted(role_text(v.role)) + ",\"type\":"@ + quoted(spelling(v.ty)) + "}"@
}

pub open spec fn equation_json(e: Equation) -> Seq<char> {
    "{\"kind\":"@ + quoted(kind_json_label(e.kind)) + ",\"lhs\":"@ + expr_json(e.lhs) + ",\"rhs\":"@
        + expr_json(e.rhs) + "}"@
}

pub open spec fn output_json(o: ConstraintOutput) -> Seq<char> {
    "{\"name\":"@ + quoted(o.name@) + ",\"value\":"@ + expr_json(o.value) + "}"@
}

pub open spec fn range_assertion_json(a: RangeAssertion) -> Seq<char> {
    "{\"value\":"@ + expr_json(a.value) + ",\"type\":"@ + quoted(spelling(a.ty)) + "}"@
}

/// The JSON document of a constraint system.
pub open spec fn constraint_ir_json(c: ConstraintIr) -> Seq<char> {
    "{"@ + quoted("name"@) + seq![':'] + quoted(c.name@)
        + ","@ + quoted("field_modulus"@) + seq![':'] + MODULUS@
        + ","@ + quoted("public_inputs"@) + seq![':'] + json_array_text(c.public_inputs@.map_values(|v: Variable| variable_json(v)))
        + ","@ + quoted("private_inputs"@) + seq![':'] + json_array_text(c.private_inputs@.map_values(|v: Variable| variable_json(v)))
        + ","@ + quoted("witnesses"@) + seq![':'] + json_array_text(c.witnesses@.map_values(|v: Variable| variable_json(v)))
        + ","@ + quoted("equations"@) + seq![':'] + json_array_text(c.equations@.map_values(|e: Equation| equation_json(e)))
        + ","@ + quoted("range_assertions"@) + seq![':']
        + json_array_text(c.range_assertions@.map_values(|a: RangeAssertion| range_assertion_json(a)))
        + ","@ + quoted("outputs"@) + seq![':'] + json_array_text(c.outputs@.map_values(|o: ConstraintOutput| output_json(o)))
        + ","@ + quoted("next_variable"@) + seq![':'] + decimal(c.next_variable as nat) + "}"@
}

fn expr_json_of(expr: &Expr) -> (s: String)
    ensures
        s@ == expr_json(*expr),
    decreases expr,
{
    match expr {
        Expr::Var(id) => {
            let mut out = to_owned("{\"kind\":\"var\",\"id\":");
            push_decimal(&mut out, *id as u128);
            push_str(&mut out, "}");
            assert(out@ =~= expr_json(*expr));
            out
        },
        Expr::Const(value) => {
            let mut out = to_owned("{\"kind\":\"const\",\"value\":");
            push_str(&mut out, json_string(value.to_string().as_str()).as_str());
            push_str(&mut out, "}");
            assert(out@ =~= expr_json(*expr));
            out
        },
        Expr::Add(l, r) => binary_json_of("add", expr_json_of(l), expr_json_of(r)),
        Expr::Sub(l, r) => binary_json_of("sub", expr_json_of(l), expr_json_of(r)),
        Expr::Mul(l, r) => binary_json_of("mul", expr_json_of(l), expr_json_of(r)),
    }
}

fn binary_json_of(op: &str, lhs: String, rhs: String) -> (s: String)
    ensures
        s@ == binary_json(op@, lhs@, rhs@),
{
    let mut out = to_owned("{\"kind\":\"");
    push_str(&mut out, op);
    push_str(&mut out, "\",\"lhs\":");
    push_str(&mut out, lhs.as_str());
    push_str(&mut out, ",\"rhs\":");
    push_str(&mut out, rhs.as_str());
    push_str(&mut out, "}");
    assert(out@ =~= binary_json(op@, lhs@, rhs@));
    out
}

fn variables_array(vs: &Vec<Variable>) -> (s: String)
    ensures
        s@ == json_array_text(vs@.map_values(|v: Variable| variable_json(v))),
{
    let mut parts: Vec<String> = Vec::new();
    let mut i: usize = 0;
    while i < vs.len()
        invariant
            i <= vs@.len(),
            parts@.len() == i,
            forall|k: int| 0 <= k < i ==> (#[trigger] parts@[k])@ == variable_json(vs@[k]),
        decreases vs.len() - i,
    {
        let v = &vs[i];
        let mut part = to_owned("{\"id\":");
        push_decimal(&mut part, v.id as u128);
        push_str(&mut part, ",\"name\":");
        push_str(&mut part, json_string(v.name.as_str()).as_str());
        push_str(&mut part, ",\"role\":");
        push_str(&mut part, json_string(role_name(v.role)).as_str());
        push_str(&mut part, ",\"type\":");
        push_str(&mut part, json_string(v.ty.name()).as_str());
        push_str(&mut part, "}");
        assert(part@ =~= variable_json(*v));
        parts.push(part);
        i = i + 1;
    }
    assert(views(parts@) =~= vs@.map_values(|v: Variable| variable_json(v)));
    let mut out = String::new();
    push_json_array(&mut out, &parts);
    out
}

fn equations_array(es: &Vec<Equation>) -> (s: String)
    ensures
        s@ == json_array_text(es@.map_values(|e: Equation| equation_json(e))),
{
    let mut parts: Vec<String> = Vec::new();
    let mut i: usize = 0;
    while i < es.len()
        invariant
            i <= es@.len(),
            parts@.len() == i,
            forall|k: int| 0 <= k < i ==> (#[trigger] parts@[k])@ == equation_json(es@[k]),
        decreases es.len() - i,
    {
        let equation = &es[i];
        let mut part = to_owned("{\"kind\":");
        push_str(&mut part, json_string(equation.kind.json_label()).as_str());
        push_str(&mut part, ",\"lhs\":");
        push_str(&mut part, expr_json_of(&equation.lhs).as_str());
        push_str(&mut part, ",\"rhs\":");
        push_str(&mut part, expr_json_of(&equation.rhs).as_str());
        push_str(&mut part, "}");
        assert(part@ =~= equation_json(*equation));
        parts.push(part);
        i = i + 1;
    }
    assert(views(parts@) =~= es@.map_values(|e: Equation| equation_json(e)));
    let mut out = String::new();
    push_json_array(&mut out, &parts);
    out
}

fn range_assertions_array(rs: &Vec<RangeAssertion>) -> (s: String)
    ensures
        s@ == json_array_text(rs@.map_values(|a: RangeAssertion| range_assertion_json(a))),
{
    let mut parts: Vec<String> = Vec::new();
    let mut i: usize = 0;
    while i < rs.len()
        invariant
            i <= rs@.len(),
            parts@.len() == i,
            forall|k: int| 0 <= k < i ==> (#[trigger] parts@[k])@ == range_assertion_json(rs@[k]),
        decreases rs.len() - i,
    {
        let assertion = &rs[i];
        let mut part = to_owned("{\"value\":");
        push_str(&mut part, expr_json_of(&assertion.value).as_str());
        push_str(&mut part, ",\"type\":");
        push_str(&mut part, json_string(assertion.ty.name()).as_str());
        push_str(&mut part, "}");
        assert(part@ =~= range_assertion_json(*assertion));
        parts.push(part);
        i = i + 1;
    }
    assert(views(parts@) =~= rs@.map_values(|a: RangeAssertion| range_assertion_json(a)));
    let mut out = String::new();
    push_json_array(&mut out, &parts);
    out
}

fn outputs_array(os: &Vec<ConstraintOutput>) -> (s: String)
    ensures
        s@ == json_array_text(os@.map_values(|o: ConstraintOutput| output_json(o))),
{
    let mut parts: Vec<String> = Vec::new();
    let mut i: usize = 0;
    while i < os.len()
        invariant
            i <= os@.len(),
            parts@.len() == i,
            forall|k: int| 0 <= k < i ==> (#[trigger] parts@[k])@ == output_json(os@[k]),
        decreases os.len() - i,
    {
        let output = &os[i];
        let mut part = to_owned("{\"name\":");
        push_str(&mut part, json_string(output.name.as_str()).as_str());
        push_str(&mut part, ",\"value\":");
        push_str(&mut part, expr_json_of(&output.value).as_str());
        push_str(&mut part, "}");
        assert(part@ =~= output_json(*output));
        parts.push(part);
        i = i + 1;
    }
    assert(views(parts@) =~= os@.map_values(|o: ConstraintOutput| output_json(o)));
    let mut out = String::new();
    push_json_array(&mut out, &parts);
    out
}

impl ConstraintIr {
    /// The JSON document: name, field modulus, variables by role, equations, range assertions,
    /// outputs and the next free variable.
    pub fn to_json(&self) -> (s: String)
        ensures
            s@ == constraint_ir_json(*self),
    {
        let mut out = to_owned("{");
        push_field(&mut out, "name", json_string(self.name.as_str()).as_str());
        push_str(&mut out, ",");
        push_field(&mut out, "field_modulus", MODULUS);
        push_str(&mut out, ",");
        push_field(&mut out, "public_inputs", variables_array(&self.public_inputs).as_str());
        push_str(&mut out, ",");
        push_field(&mut out, "private_inputs", variables_array(&self.private_inputs).as_str());
        push_str(&mut out, ",");
        push_field(&mut out, "witnesses", variables_array(&self.witnesses).as_str());
        push_str(&mut out, ",");
        push_field(&mut out, "equations", equations_array(&self.equations).as_str());
        push_str(&mut out, ",");
        push_field(&mut out, "range_assertions", range_assertions_array(&self.range_assertions).as_str());
        push_str(&mut out, ",");
        push_field(&mut out, "outputs", outputs_array(&self.outputs).as_str());
        push_str(&mut out, ",");
        push_field(&mut out, "next_variable", usize_to_string(self.next_variable).as_str());
        push_str(&mut out, "}");
        out
    }
}

} // verus!
