//! The interpreter backend: runs the witness tracer and keeps the outputs.
use vstd::prelude::*;

use crate::backend::Backend;
use crate::error::RuntimeResult;
use crate::eval::{outputs_match, ExecutionResult, RuntimeInputs};
use crate::ir::CircuitIr;
use crate::trace::{execution_succeeds, failure_reported, final_wires, trace_execution, writes_in_range};

verus! {

#[derive(Debug, Clone, Copy, Default, PartialEq, Eq)]
pub struct InterpreterBackend;

impl Backend for InterpreterBackend {
    fn name(&self) -> (r: &'static str)
        ensures
            r@ == "interpreter"@,
    {
        "interpreter"
    }

    fn execute(&self, circuit: &CircuitIr, inputs: &RuntimeInputs) -> (r: RuntimeResult<
        ExecutionResult,
    >)
        ensures
            r is Ok <==> execution_succeeds(*circuit, *inputs),
            r matches Ok(res) ==> outputs_match(res.outputs@, circuit.outputs@, final_wires(*circuit, *inputs)->0),
            r matches Err(e) ==> failure_reported(*circuit, *inputs, e.message@),
    {
        execute_interpreted(circuit, inputs)
    }
}

/// Executes `ir` with the interpreter and returns its named outputs.
pub fn execute_interpreted(ir: &CircuitIr, inputs: &RuntimeInputs) -> (r: RuntimeResult<
    ExecutionResult,
>)
    requires
        writes_in_range(*ir),
    ensures
        r is Ok <==> execution_succeeds(*ir, *inputs),
        r matches Ok(res) ==> outputs_match(res.outputs@, ir.outputs@, final_wires(*ir, *inputs)->0),
        r matches Err(e) ==> failure_reported(*ir, *inputs, e.message@),
{
    let trace = trace_execution(ir, inputs)?;
    let mut outputs: Vec<(String, crate::field::FieldElement)> = Vec::new();
    let mut i: usize = 0;
    while i < trace.outputs.len()
        invariant
            i <= trace.outputs@.len(),
            outputs@.len() == i,
            forall|a: int| 0 <= a < i ==> (#[trigger] outputs@[a]).0@ == trace.outputs@[a].name@
                && outputs@[a].1 == trace.outputs@[a].value,
        decreases trace.outputs.len() - i,
    {
        outputs.push((trace.outputs[i].name.clone(), trace.outputs[i].value));
        i = i + 1;
    }
    Ok(ExecutionResult { outputs })
}

} // verus!
