//! The execution engine: an instruction pointer that never wraps, and two
//! data heads that wrap around the tape, stepped until a halt condition.
use vstd::prelude::*;
use vstd::arithmetic::div_mod::lemma_fundamental_div_mod_converse_mod;
use crate::instructions::{
    has_instructions, holds_opcode, COPY_TO_H0, COPY_TO_H1, DECREMENT, HEAD0_DEC, HEAD0_INC, HEAD1_DEC, HEAD1_INC,
    INCREMENT, LOOP_END, LOOP_START,
};
use crate::bracket::{find_matching_bracket, matching_bracket};

verus! {

/// Default step budget.
pub const MAX_STEPS: u32 = 8192;

/// Why an execution stopped.
#[derive(Clone, Copy, Debug, PartialEq, Eq, Structural)]
pub enum HaltReason {
    EndOfTape,
    MaxSteps,
    UnmatchedBracket,
    NoInstructions,
}

/// Statistics of one execution.
#[derive(Clone, Copy, Debug)]
pub struct ExecutionResult {
    pub steps: u32,
    /// `<` and `>` executed.
    pub head0_count: u32,
    /// `{` and `}` executed.
    pub head1_count: u32,
    /// `+` and `-` executed.
    pub math_count: u32,
    /// `.` and `,` executed.
    pub copy_count: u32,
    /// `]` executed.
    pub loop_count: u32,
    pub halt_reason: HaltReason,
}

/// The machine between two steps.
pub struct Machine {
    pub tape: Seq<u8>,
    pub ip: int,
    pub head0: int,
    pub head1: int,
    pub steps: nat,
    pub head0_count: nat,
    pub head1_count: nat,
    pub math_count: nat,
    pub copy_count: nat,
    pub loop_count: nat,
}

/// The machine before its first step: head0 at 0, head1 at `head1_start`
/// wrapped onto the tape, nothing counted.
pub open spec fn initial(tape: Seq<u8>, head1_start: int) -> Machine {
    Machine {
        tape,
        ip: 0,
        head0: 0,
        head1: head1_start % (tape.len() as int),
        steps: 0,
        head0_count: 0,
        head1_count: 0,
        math_count: 0,
        copy_count: 0,
        loop_count: 0,
    }
}

/// One step: the instruction at `ip` takes effect, one step is counted and
/// `ip` moves past it (or past the partner of a bracket that jumps). The flag
/// is set when a jumping bracket has no partner: the machine halts there.
pub open spec fn step(m: Machine) -> (Machine, bool) {
    let len = m.tape.len() as int;
    let b = m.tape[m.ip];
    let cell = m.tape[m.head0];
    let n = Machine { steps: m.steps + 1, ip: m.ip + 1, ..m };
    if b == HEAD0_DEC {
        (Machine { head0: (m.head0 - 1) % len, head0_count: m.head0_count + 1, ..n }, false)
    } else if b == HEAD0_INC {
        (Machine { head0: (m.head0 + 1) % len, head0_count: m.head0_count + 1, ..n }, false)
    } else if b == HEAD1_DEC {
        (Machine { head1: (m.head1 - 1) % len, head1_count: m.head1_count + 1, ..n }, false)
    } else if b == HEAD1_INC {
        (Machine { head1: (m.head1 + 1) % len, head1_count: m.head1_count + 1, ..n }, false)
    } else if b == DECREMENT {
        (
            Machine {
                tape: m.tape.update(m.head0, ((cell - 1) % 256) as u8),
                math_count: m.math_count + 1,
                ..n
            },
            false,
        )
    } else if b == INCREMENT {
        (
            Machine {
                tape: m.tape.update(m.head0, ((cell + 1) % 256) as u8),
                math_count: m.math_count + 1,
                ..n
            },
            false,
        )
    } else if b == COPY_TO_H1 {
        (
            Machine {
                tape: m.tape.update(m.head1, cell),
                copy_count: m.copy_count + 1,
                ..n
            },
            false,
        )
    } else if b == COPY_TO_H0 {
        (
            Machine {
                tape: m.tape.update(m.head0, m.tape[m.head1]),
                copy_count: m.copy_count + 1,
                ..n
            },
            false,
        )
    } else if b == LOOP_START && cell == 0 {
        match matching_bracket(m.tape, m.ip, true) {
            Some(j) => (Machine { ip: j + 1, ..n }, false),
            None => (n, true),
        }
    } else if b == LOOP_END {
        let l = Machine { loop_count: m.loop_count + 1, ..n };
        if cell != 0 {
            match matching_bracket(m.tape, m.ip, false) {
                Some(j) => (Machine { ip: j + 1, ..l }, false),
                None => (l, true),
            }
        } else {
            (l, false)
        }
    } else {
        (n, false)
    }
}

/// Steps the machine until the budget is spent, `ip` leaves the tape, or a
/// bracket has no partner; the last machine and why it halted.
pub open spec fn run(m: Machine, max_steps: nat) -> (Machine, HaltReason)
    decreases max_steps - m.steps,
{
    if m.steps >= max_steps {
        (m, HaltReason::MaxSteps)
    } else if m.ip < 0 || m.ip >= m.tape.len() {
        (m, HaltReason::EndOfTape)
    } else {
        let (n, unmatched) = step(m);
        if unmatched {
            (n, HaltReason::UnmatchedBracket)
        } else {
            run(n, max_steps)
        }
    }
}

/// The whole execution of `tape`: a tape without opcodes is never stepped.
pub open spec fn outcome(tape: Seq<u8>, head1_start: int, max_steps: nat) -> (Machine, HaltReason) {
    if !holds_opcode(tape) {
        (initial(tape, head1_start), HaltReason::NoInstructions)
    } else {
        run(initial(tape, head1_start), max_steps)
    }
}

/// `r` reports the counters of `m` and the halt reason `h`.
pub open spec fn reports(r: ExecutionResult, m: Machine, h: HaltReason) -> bool {
    &&& r.steps == m.steps
    &&& r.head0_count == m.head0_count
    &&& r.head1_count == m.head1_count
    &&& r.math_count == m.math_count
    &&& r.copy_count == m.copy_count
    &&& r.loop_count == m.loop_count
    &&& r.halt_reason == h
}

proof fn lemma_wrap(h: int, len: int)
    requires
        0 <= h < len,
    ensures
        (h + 1) % len == (if h + 1 == len { 0 } else { h + 1 }),
        (h - 1) % len == (if h == 0 { len - 1 } else { h - 1 }),
{
    if h + 1 == len {
        lemma_fundamental_div_mod_converse_mod(h + 1, len, 1, 0);
    } else {
        lemma_fundamental_div_mod_converse_mod(h + 1, len, 0, h + 1);
    }
    if h == 0 {
        lemma_fundamental_div_mod_converse_mod(h - 1, len, -1, len - 1);
    } else {
        lemma_fundamental_div_mod_converse_mod(h - 1, len, 0, h - 1);
    }
}

/// Runs the machine on `tape` with head1 starting at `head1_start` (wrapped
/// onto the tape) and at most `max_steps` steps. The tape is changed in place.
pub fn execute_with_params(tape: &mut [u8], head1_start: usize, max_steps: u32) -> (r:
    ExecutionResult)
    ensures
        final(tape)@ == outcome(old(tape)@, head1_start as int, max_steps as nat).0.tape,
        reports(r, outcome(old(tape)@, head1_start as int, max_steps as nat).0,
            outcome(old(tape)@, head1_start as int, max_steps as nat).1),
        r.steps <= max_steps,
{
    let ghost orig = tape@;
    let ghost start = initial(tape@, head1_start as int);
    if !has_instructions(tape) {
        return ExecutionResult {
            steps: 0,
            head0_count: 0,
            head1_count: 0,
            math_count: 0,
            copy_count: 0,
            loop_count: 0,
            halt_reason: HaltReason::NoInstructions,
        };
    }
    let size = tape.len();
    let ghost target = run(start, max_steps as nat);
    let mut ip: usize = 0;
    let mut head0: usize = 0;
    let mut head1: usize = head1_start % size;
    let mut steps: u32 = 0;
    let mut head0_count: u32 = 0;
    let mut head1_count: u32 = 0;
    let mut math_count: u32 = 0;
    let mut copy_count: u32 = 0;
    let mut loop_count: u32 = 0;
    while steps < max_steps && ip < size
        invariant
            size == tape@.len(),
            size > 0,
            head0 < size,
            head1 < size,
            steps <= max_steps,
            head0_count <= steps,
            head1_count <= steps,
            math_count <= steps,
            copy_count <= steps,
            loop_count <= steps,
            orig == old(tape)@,
            target == outcome(orig, head1_start as int, max_steps as nat),
            run(
                Machine {
                    tape: tape@,
                    ip: ip as int,
                    head0: head0 as int,
                    head1: head1 as int,
                    steps: steps as nat,
                    head0_count: head0_count as nat,
                    head1_count: head1_count as nat,
                    math_count: math_count as nat,
                    copy_count: copy_count as nat,
                    loop_count: loop_count as nat,
                },
                max_steps as nat,
            ) == target,
        decreases max_steps - steps,
    {
        let ghost m = Machine {
            tape: tape@,
            ip: ip as int,
            head0: head0 as int,
            head1: head1 as int,
            steps: steps as nat,
            head0_count: head0_count as nat,
            head1_count: head1_count as nat,
            math_count: math_count as nat,
            copy_count: copy_count as nat,
            loop_count: loop_count as nat,
        };
        proof {
            lemma_wrap(head0 as int, size as int);
            lemma_wrap(head1 as int, size as int);
        }
        steps = steps + 1;
        let byte = tape[ip];
        if byte == HEAD0_DEC {
            head0 = if head0 == 0 { size - 1 } else { head0 - 1 };
            head0_count = head0_count + 1;
        } else if byte == HEAD0_INC {
            head0 = if head0 + 1 == size { 0 } else { head0 + 1 };
            head0_count = head0_count + 1;
        } else if byte == HEAD1_DEC {
            head1 = if head1 == 0 { size - 1 } else { head1 - 1 };
            head1_count = head1_count + 1;
        } else if byte == HEAD1_INC {
            head1 = if head1 + 1 == size { 0 } else { head1 + 1 };
            head1_count = head1_count + 1;
        } else if byte == DECREMENT {
            let v = tape[head0];
            tape[head0] = if v == 0 { 255 } else { v - 1 };
            math_count = math_count + 1;
        } else if byte == INCREMENT {
            let v = tape[head0];
            tape[head0] = if v == 255 { 0 } else { v + 1 };
            math_count = math_count + 1;
        } else if byte == COPY_TO_H1 {
            let v = tape[head0];
            tape[head1] = v;
            copy_count = copy_count + 1;
        } else if byte == COPY_TO_H0 {
            let v = tape[head1];
            tape[head0] = v;
            copy_count = copy_count + 1;
        } else if byte == LOOP_START {
            if tape[head0] == 0 {
                match find_matching_bracket(tape, ip, 1) {
                    Some(target_ip) => {
                        ip = target_ip;
                    },
                    None => {
                        return ExecutionResult {
                            steps,
                            head0_count,
                            head1_count,
                            math_count,
                            copy_count,
                            loop_count,
                            halt_reason: HaltReason::UnmatchedBracket,
                        };
                    },
                }
            }
        } else if byte == LOOP_END {
            loop_count = loop_count + 1;
            if tape[head0] != 0 {
                match find_matching_bracket(tape, ip, -1) {
                    Some(target_ip) => {
                        ip = target_ip;
                    },
                    None => {
                        return ExecutionResult {
                            steps,
                            head0_count,
                            head1_count,
                            math_count,
                            copy_count,
                            loop_count,
                            halt_reason: HaltReason::UnmatchedBracket,
                        };
                    },
                }
            }
        }
        ip = ip + 1;
        assert(step(m).0 == Machine {
            tape: tape@,
            ip: ip as int,
            head0: head0 as int,
            head1: head1 as int,
            steps: steps as nat,
            head0_count: head0_count as nat,
            head1_count: head1_count as nat,
            math_count: math_count as nat,
            copy_count: copy_count as nat,
            loop_count: loop_count as nat,
        });
    }
    let halt_reason = if steps >= max_steps {
        HaltReason::MaxSteps
    } else {
        HaltReason::EndOfTape
    };
    ExecutionResult {
        steps,
        head0_count,
        head1_count,
        math_count,
        copy_count,
        loop_count,
        halt_reason,
    }
}

/// Runs the machine with head1 starting at the tape's midpoint and the
/// default step budget.
pub fn execute(tape: &mut [u8]) -> (r: ExecutionResult)
    ensures
        final(tape)@ == outcome(old(tape)@, old(tape)@.len() as int / 2, MAX_STEPS as nat).0.tape,
        reports(r, outcome(old(tape)@, old(tape)@.len() as int / 2, MAX_STEPS as nat).0,
            outcome(old(tape)@, old(tape)@.len() as int / 2, MAX_STEPS as nat).1),
        r.steps <= MAX_STEPS,
{
    let mid = tape.len() / 2;
    execute_with_head1(tape, mid)
}

/// Runs the machine with head1 starting at `head1_start` and the default
/// step budget.
pub fn execute_with_head1(tape: &mut [u8], head1_start: usize) -> (r: ExecutionResult)
    ensures
        final(tape)@ == outcome(old(tape)@, head1_start as int, MAX_STEPS as nat).0.tape,
        reports(r, outcome(old(tape)@, head1_start as int, MAX_STEPS as nat).0,
            outcome(old(tape)@, head1_start as int, MAX_STEPS as nat).1),
        r.steps <= MAX_STEPS,
{
    execute_with_params(tape, head1_start, MAX_STEPS)
}

proof fn lemma_run_within_budget(m: Machine, max_steps: nat)
    requires
        m.steps <= max_steps,
    ensures
        run(m, max_steps).0.steps <= max_steps,
    decreases max_steps - m.steps,
{
    if m.steps < max_steps && 0 <= m.ip < m.tape.len() {
        let (n, unmatched) = step(m);
        if !unmatched {
            lemma_run_within_budget(n, max_steps);
        }
    }
}

/// No execution takes more steps than its budget.
pub proof fn lemma_steps_within_budget(tape: Seq<u8>, head1_start: int, max_steps: nat)
    ensures
        outcome(tape, head1_start, max_steps).0.steps <= max_steps,
{
    if holds_opcode(tape) {
        lemma_run_within_budget(initial(tape, head1_start), max_steps);
    }
}

/// A tape without opcodes halts with `NoInstructions` before any step and is
/// left as it was.
pub proof fn lemma_no_opcode_untouched(tape: Seq<u8>, head1_start: int, max_steps: nat)
    requires
        !holds_opcode(tape),
    ensures
        outcome(tape, head1_start, max_steps).1 == HaltReason::NoInstructions,
        outcome(tape, head1_start, max_steps).0.steps == 0,
        outcome(tape, head1_start, max_steps).0.tape == tape,
{
}

/// Both heads stand on a cell of a nonempty tape.
pub open spec fn heads_on_tape(m: Machine) -> bool {
    &&& m.tape.len() > 0
    &&& 0 <= m.head0 < m.tape.len()
    &&& 0 <= m.head1 < m.tape.len()
}

/// The first machine of a nonempty tape has its heads on the tape.
pub proof fn lemma_start_on_tape(tape: Seq<u8>, head1_start: int)
    requires
        tape.len() > 0,
    ensures
        heads_on_tape(initial(tape, head1_start)),
{
}

/// Running never changes the tape's length.
pub proof fn lemma_run_keeps_length(m: Machine, max_steps: nat)
    requires
        heads_on_tape(m),
    ensures
        run(m, max_steps).0.tape.len() == m.tape.len(),
    decreases max_steps - m.steps,
{
    if m.steps < max_steps && 0 <= m.ip < m.tape.len() {
        let (n, unmatched) = step(m);
        if !unmatched {
            lemma_run_keeps_length(n, max_steps);
        }
    }
}

/// A `[` that would jump over a zero cell but has no `]` before the tape's
/// end halts the machine with `UnmatchedBracket`.
pub proof fn lemma_unmatched_open_halts(m: Machine, max_steps: nat)
    requires
        m.steps < max_steps,
        0 <= m.ip < m.tape.len(),
        m.tape[m.ip] == LOOP_START,
        m.tape[m.head0] == 0,
        matching_bracket(m.tape, m.ip, true) is None,
    ensures
        run(m, max_steps).1 == HaltReason::UnmatchedBracket,
{
}

} // verus!
