//! Two-head tape machine ("BFF") for digital-soup simulations, with the
//! pair and batch executors that run regions of a shared soup against each
//! other, and the integer parts of the complexity measures.
pub mod instructions;
pub mod bracket;
pub mod engine;
pub mod soup;
pub mod complexity;

pub use instructions::{has_instructions, is_instruction};
pub use soup::{execute_batch, execute_pair};

use vstd::prelude::*;
use engine::{execute, outcome, MAX_STEPS};
use soup::halt_code;

verus! {

/// Statistics of one execution as a host sees them, with the halt reason as
/// its record code (0 end of tape, 1 step budget, 2 unmatched bracket,
/// 3 no instructions).
#[derive(Clone, Copy, Debug)]
pub struct ExecutionResult {
    pub steps: u32,
    pub head0_count: u32,
    pub head1_count: u32,
    pub math_count: u32,
    pub copy_count: u32,
    pub loop_count: u32,
    pub halt_reason: u8,
}

/// Runs `tape` in place with head1 at its midpoint and the default budget.
pub fn execute_tape(tape: &mut [u8]) -> (r: ExecutionResult)
    ensures
        ({
            let (m, h) = outcome(old(tape)@, old(tape)@.len() as int / 2, MAX_STEPS as nat);
            &&& final(tape)@ == m.tape
            &&& r.steps == m.steps
            &&& r.head0_count == m.head0_count
            &&& r.head1_count == m.head1_count
            &&& r.math_count == m.math_count
            &&& r.copy_count == m.copy_count
            &&& r.loop_count == m.loop_count
            &&& r.halt_reason == halt_code(h)
        }),
{
    let result = execute(tape);
    let code = result.halt_reason.code();
    ExecutionResult {
        steps: result.steps,
        head0_count: result.head0_count,
        head1_count: result.head1_count,
        math_count: result.math_count,
        copy_count: result.copy_count,
        loop_count: result.loop_count,
        halt_reason: code as u8,
    }
}

} // verus!
