//! The boundary between lowered circuits and whatever executes them.
use vstd::prelude::*;

use crate::error::RuntimeResult;
use crate::eval::{ExecutionResult, RuntimeInputs};
use crate::ir::CircuitIr;
use crate::trace::writes_in_range;

pub mod interpreter;

verus! {

/// An executor of lowered circuits.
pub trait Backend {
    fn name(&self) -> &'static str;

    fn execute(&self, circuit: &CircuitIr, inputs: &RuntimeInputs) -> RuntimeResult<
        ExecutionResult,
    >
        requires
            writes_in_range(*circuit),
    ;
}

} // verus!
