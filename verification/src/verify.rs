//! Structural checks on a lowered circuit: wires are numbered densely (public inputs, then
//! private inputs, then operation outputs) and every wire is defined before it is read.
use vstd::prelude::*;

use crate::error::{CompileError, CompileResult};
use crate::ir::{op_lhs, op_rhs, wire_below, CircuitIr, Operand};
use crate::span::Span;
use crate::text::{push_decimal, push_str, to_owned};

verus! {

/// The invariants `verify` checks.
pub open spec fn ir_well_formed(ir: CircuitIr) -> bool {
    let np = ir.public_inputs@.len();
    let nq = ir.private_inputs@.len();
    let ni = np + nq;
    let total = ni + ir.operations@.len();
    &&& forall|i: int| 0 <= i < np ==> #[trigger] ir.public_inputs@[i].wire == i
    &&& forall|j: int| 0 <= j < nq ==> #[trigger] ir.private_inputs@[j].wire == np + j
    &&& forall|k: int|
        0 <= k < ir.operations@.len() ==> {
            &&& #[trigger] ir.operations@[k].out == ni + k
            &&& wire_below(op_lhs(ir.operations@[k].kind), (ni + k) as nat)
            &&& wire_below(op_rhs(ir.operations@[k].kind), (ni + k) as nat)
        }
    &&& forall|c: int|
        0 <= c < ir.constraints@.len() ==> wire_below(#[trigger] ir.constraints@[c].lhs, total)
            && wire_below(ir.constraints@[c].rhs, total)
    &&& forall|c: int|
        0 <= c < ir.range_constraints@.len() ==> wire_below(
            #[trigger] ir.range_constraints@[c].value,
            total,
        )
    &&& forall|c: int| 0 <= c < ir.outputs@.len() ==> wire_below(#[trigger] ir.outputs@[c].value, total)
    &&& ir.next_wire == total
}

/// The message for a wire found where another was expected.
pub open spec fn gap_message(expected: nat, found: nat) -> Seq<char> {
    "wire numbering gap or reorder detected: expected w"@ + crate::text::decimal(expected) + " but found w"@ + crate::text::decimal(found)
}

/// An input numbered `wire` is not the `expected` wire, or lies outside a table of `next` wires.
pub open spec fn input_misplaced(wire: nat, expected: nat, next: nat) -> bool {
    wire >= next || wire != expected
}

/// The message for a misplaced input: outside the table first, else out of order.
pub open spec fn input_wire_message(name: Seq<char>, wire: nat, expected: nat, next: nat) -> Seq<char> {
    if wire >= next {
        "input `"@ + name + "` references out-of-range wire w"@ + crate::text::decimal(wire)
    } else {
        gap_message(expected, wire)
    }
}

/// Public input `i` is the first misplaced one.
pub open spec fn first_misplaced_public(ir: CircuitIr, i: int) -> bool {
    &&& 0 <= i < ir.public_inputs@.len()
    &&& input_misplaced(ir.public_inputs@[i].wire as nat, i as nat, ir.next_wire as nat)
    &&& forall|a: int| 0 <= a < i ==> !input_misplaced((#[trigger] ir.public_inputs@[a]).wire as nat, a as nat, ir.next_wire as nat)
}

/// Every public input is in place and private input `j` is the first misplaced one.
pub open spec fn first_misplaced_private(ir: CircuitIr, j: int) -> bool {
    let np = ir.public_inputs@.len();
    &&& forall|a: int| 0 <= a < np ==> !input_misplaced((#[trigger] ir.public_inputs@[a]).wire as nat, a as nat, ir.next_wire as nat)
    &&& 0 <= j < ir.private_inputs@.len()
    &&& input_misplaced(ir.private_inputs@[j].wire as nat, (np + j) as nat, ir.next_wire as nat)
    &&& forall|a: int| 0 <= a < j ==> !input_misplaced((#[trigger] ir.private_inputs@[a]).wire as nat, (np + a) as nat, ir.next_wire as nat)
}

fn wire_error(prefix: &str, wire: usize, suffix: &str) -> (e: CompileError)
    ensures
        e.message@ == prefix@ + crate::text::decimal(wire as nat) + suffix@,
{
    let mut message = to_owned(prefix);
    push_decimal(&mut message, wire as u128);
    push_str(&mut message, suffix);
    CompileError::new(Span::unknown(), message)
}

fn gap_error(expected: usize, found: usize) -> (e: CompileError)
    ensures
        e.span.line == 0 && e.span.column == 0,
        e.message@ == gap_message(expected as nat, found as nat),
{
    let mut message = to_owned("wire numbering gap or reorder detected: expected w");
    push_decimal(&mut message, expected as u128);
    push_str(&mut message, " but found w");
    push_decimal(&mut message, found as u128);
    CompileError::new(Span::unknown(), message)
}

fn ensure_operand_defined(operand: Operand, defined: usize) -> (r: CompileResult<()>)
    ensures
        r is Ok <==> wire_below(operand, defined as nat),
{
    match operand {
        Operand::Const(_) => Ok(()),
        Operand::Wire(wire) => {
            if wire < defined {
                Ok(())
            } else {
                Err(wire_error("wire w", wire, " is referenced before definition"))
            }
        },
    }
}

/// Checks the structural invariants of a lowered circuit.
pub fn verify(ir: &CircuitIr) -> (r: CompileResult<()>)
    ensures
        r is Ok <==> ir_well_formed(*ir),
        forall|i: int| #[trigger] first_misplaced_public(*ir, i) ==> (r matches Err(e) && e.message@ == input_wire_message(
            ir.public_inputs@[i].name@,
            ir.public_inputs@[i].wire as nat,
            i as nat,
            ir.next_wire as nat,
        )),
        forall|j: int| #[trigger] first_misplaced_private(*ir, j) ==> (r matches Err(e) && e.message@ == input_wire_message(
            ir.private_inputs@[j].name@,
            ir.private_inputs@[j].wire as nat,
            (ir.public_inputs@.len() + j) as nat,
            ir.next_wire as nat,
        )),
{
    let np = ir.public_inputs.len();
    let nq = ir.private_inputs.len();
    let mut next_expected_wire: usize = 0;

    let mut i: usize = 0;
    while i < np
        invariant
            i <= np == ir.public_inputs@.len(),
            next_expected_wire == i,
            forall|a: int| 0 <= a < i ==> #[trigger] ir.public_inputs@[a].wire == a,
            next_expected_wire <= ir.next_wire,
        decreases np - i,
    {
        let input = &ir.public_inputs[i];
        proof {
            assert(forall|a: int| 0 <= a < i ==> !input_misplaced((#[trigger] ir.public_inputs@[a]).wire as nat, a as nat, ir.next_wire as nat));
        }
        if input.wire >= ir.next_wire || input.wire != next_expected_wire {
            proof {
                assert(first_misplaced_public(*ir, i as int));
                assert forall|i2: int| #[trigger] first_misplaced_public(*ir, i2) implies i2 == i by {
                    if i2 < i {
                        assert(!input_misplaced(ir.public_inputs@[i2].wire as nat, i2 as nat, ir.next_wire as nat));
                    } else if i < i2 {
                        assert(!input_misplaced(ir.public_inputs@[i as int].wire as nat, i as nat, ir.next_wire as nat));
                    }
                }
                assert forall|j2: int| #[trigger] first_misplaced_private(*ir, j2) implies false by {
                    assert(!input_misplaced(ir.public_inputs@[i as int].wire as nat, i as nat, ir.next_wire as nat));
                }
            }
            if input.wire >= ir.next_wire {
                let mut message = to_owned("input `");
                push_str(&mut message, input.name.as_str());
                push_str(&mut message, "` references out-of-range wire w");
                push_decimal(&mut message, input.wire as u128);
                assert(message@ =~= input_wire_message(input.name@, input.wire as nat, i as nat, ir.next_wire as nat));
                return Err(CompileError::new(Span::unknown(), message));
            }
            return Err(gap_error(next_expected_wire, input.wire));
        }
        next_expected_wire = next_expected_wire + 1;
        i = i + 1;
    }
    let mut j: usize = 0;
    while j < nq
        invariant
            j <= nq == ir.private_inputs@.len(),
            np == ir.public_inputs@.len(),
            next_expected_wire == np + j,
            forall|a: int| 0 <= a < np ==> #[trigger] ir.public_inputs@[a].wire == a,
            forall|a: int| 0 <= a < j ==> #[trigger] ir.private_inputs@[a].wire == np + a,
            next_expected_wire <= ir.next_wire,
        decreases nq - j,
    {
        let input = &ir.private_inputs[j];
        proof {
            assert(forall|a: int| 0 <= a < j ==> !input_misplaced((#[trigger] ir.private_inputs@[a]).wire as nat, (np + a) as nat, ir.next_wire as nat));
        }
        if input.wire >= ir.next_wire || input.wire != next_expected_wire {
            proof {
                assert(first_misplaced_private(*ir, j as int));
                assert forall|i2: int| #[trigger] first_misplaced_public(*ir, i2) implies false by {
                    assert(!input_misplaced(ir.public_inputs@[i2].wire as nat, i2 as nat, ir.next_wire as nat));
                }
                assert forall|j2: int| #[trigger] first_misplaced_private(*ir, j2) implies j2 == j by {
                    if j2 < j {
                        assert(!input_misplaced(ir.private_inputs@[j2].wire as nat, (np + j2) as nat, ir.next_wire as nat));
                    } else if j < j2 {
                        assert(!input_misplaced(ir.private_inputs@[j as int].wire as nat, (np + j) as nat, ir.next_wire as nat));
                    }
                }
            }
            if input.wire >= ir.next_wire {
                let mut message = to_owned("input `");
                push_str(&mut message, input.name.as_str());
                push_str(&mut message, "` references out-of-range wire w");
                push_decimal(&mut message, input.wire as u128);
                assert(message@ =~= input_wire_message(input.name@, input.wire as nat, (np + j) as nat, ir.next_wire as nat));
                return Err(CompileError::new(Span::unknown(), message));
            }
            return Err(gap_error(next_expected_wire, input.wire));
        }
        next_expected_wire = next_expected_wire + 1;
        j = j + 1;
    }
    let ni = next_expected_wire;
    let nops = ir.operations.len();
    let mut k: usize = 0;
    while k < nops
        invariant
            k <= nops == ir.operations@.len(),
            np == ir.public_inputs@.len(),
            nq == ir.private_inputs@.len(),
            ni == np + nq,
            next_expected_wire == ni + k,
            forall|a: int| 0 <= a < np ==> #[trigger] ir.public_inputs@[a].wire == a,
            forall|a: int| 0 <= a < nq ==> #[trigger] ir.private_inputs@[a].wire == np + a,
            forall|a: int|
                #![trigger ir.operations@[a]]
                0 <= a < k ==> {
                    &&& ir.operations@[a].out == ni + a
                    &&& wire_below(op_lhs(ir.operations@[a].kind), (ni + a) as nat)
                    &&& wire_below(op_rhs(ir.operations@[a].kind), (ni + a) as nat)
                },
            next_expected_wire <= ir.next_wire,
        decreases nops - k,
    {
        let operation = &ir.operations[k];
        assert(ir.operations@[k as int].out == operation.out);
        ensure_operand_defined(operation.kind.lhs(), next_expected_wire)?;
        ensure_operand_defined(operation.kind.rhs(), next_expected_wire)?;
        if operation.out >= ir.next_wire {
            return Err(wire_error("operation output w", operation.out, " is out of range"));
        }
        if operation.out != next_expected_wire {
            return Err(gap_error(next_expected_wire, operation.out));
        }
        assert forall|a: int| #![trigger ir.operations@[a]] 0 <= a < k + 1 implies {
            &&& ir.operations@[a].out == ni + a
            &&& wire_below(op_lhs(ir.operations@[a].kind), (ni + a) as nat)
            &&& wire_below(op_rhs(ir.operations@[a].kind), (ni + a) as nat)
        } by {
            if a == k {
                assert(ir.operations@[a] == *operation);
            }
        }
        next_expected_wire = next_expected_wire + 1;
        k = k + 1;
    }
    let total = next_expected_wire;
    assert(total == ir.public_inputs@.len() + ir.private_inputs@.len() + ir.operations@.len());
    let mut c: usize = 0;
    while c < ir.constraints.len()
        invariant
            c <= ir.constraints@.len(),
            forall|a: int|
                0 <= a < c ==> wire_below(#[trigger] ir.constraints@[a].lhs, total as nat)
                    && wire_below(ir.constraints@[a].rhs, total as nat),
            total == ir.public_inputs@.len() + ir.private_inputs@.len() + ir.operations@.len(),
            np + nq <= ir.next_wire,
            np == ir.public_inputs@.len(),
            nq == ir.private_inputs@.len(),
            forall|a: int| 0 <= a < np ==> #[trigger] ir.public_inputs@[a].wire == a,
            forall|a: int| 0 <= a < nq ==> #[trigger] ir.private_inputs@[a].wire == np + a,
        decreases ir.constraints.len() - c,
    {
        assert(wire_below(ir.constraints@[c as int].lhs, total as nat) || true);
        ensure_operand_defined(ir.constraints[c].lhs, total)?;
        ensure_operand_defined(ir.constraints[c].rhs, total)?;
        c = c + 1;
    }
    let mut c: usize = 0;
    while c < ir.range_constraints.len()
        invariant
            c <= ir.range_constraints@.len(),
            forall|a: int| 0 <= a < c ==> wire_below(#[trigger] ir.range_constraints@[a].value, total as nat),
            total == ir.public_inputs@.len() + ir.private_inputs@.len() + ir.operations@.len(),
            np + nq <= ir.next_wire,
            np == ir.public_inputs@.len(),
            nq == ir.private_inputs@.len(),
            forall|a: int| 0 <= a < np ==> #[trigger] ir.public_inputs@[a].wire == a,
            forall|a: int| 0 <= a < nq ==> #[trigger] ir.private_inputs@[a].wire == np + a,
        decreases ir.range_constraints.len() - c,
    {
        assert(wire_below(ir.range_constraints@[c as int].value, total as nat) || true);
        ensure_operand_defined(ir.range_constraints[c].value, total)?;
        c = c + 1;
    }
    let mut c: usize = 0;
    while c < ir.outputs.len()
        invariant
            c <= ir.outputs@.len(),
            forall|a: int| 0 <= a < c ==> wire_below(#[trigger] ir.outputs@[a].value, total as nat),
            total == ir.public_inputs@.len() + ir.private_inputs@.len() + ir.operations@.len(),
            np + nq <= ir.next_wire,
            np == ir.public_inputs@.len(),
            nq == ir.private_inputs@.len(),
            forall|a: int| 0 <= a < np ==> #[trigger] ir.public_inputs@[a].wire == a,
            forall|a: int| 0 <= a < nq ==> #[trigger] ir.private_inputs@[a].wire == np + a,
        decreases ir.outputs.len() - c,
    {
        assert(wire_below(ir.outputs@[c as int].value, total as nat) || true);
        ensure_operand_defined(ir.outputs[c].value, total)?;
        c = c + 1;
    }
    if next_expected_wire != ir.next_wire {
        let mut message = to_owned("next_wire mismatch: verifier derived ");
        push_decimal(&mut message, next_expected_wire as u128);
        push_str(&mut message, " but circuit stores ");
        push_decimal(&mut message, ir.next_wire as u128);
        return Err(CompileError::new(Span::unknown(), message));
    }
    Ok(())
}

} // verus!
