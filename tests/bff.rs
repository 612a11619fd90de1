use turing_soup::bracket::find_matching_bracket;
use turing_soup::engine::{execute, execute_with_head1, execute_with_params, HaltReason, MAX_STEPS};
use turing_soup::{execute_tape, has_instructions, is_instruction};

#[test]
fn test_has_instructions() {
    assert!(has_instructions(b"abc+def"));
    assert!(has_instructions(b"["));
    assert!(!has_instructions(b"abcdef"));
    assert!(!has_instructions(b""));
}

#[test]
fn test_simple_increment() {
    // head0 starts at 0, so '+' increments tape[0] from 0x2B to 0x2C
    let mut tape = vec![b'+', 0, 0, 0];
    let result = execute(&mut tape);
    assert_eq!(tape[0], 0x2C);
    assert_eq!(result.math_count, 1);
}

#[test]
fn test_no_instructions() {
    let mut tape = vec![0, 1, 2, 3];
    let result = execute(&mut tape);
    assert_eq!(result.halt_reason, HaltReason::NoInstructions);
    assert_eq!(result.steps, 0);
}

#[test]
fn classifier_accepts_exactly_ten_bytes() {
    let opcodes = b"<>{}-+.,[]";
    let mut n = 0;
    for b in 0..=255u8 {
        if is_instruction(b) {
            n += 1;
            assert!(opcodes.contains(&b));
        }
    }
    assert_eq!(n, 10);
}

#[test]
fn no_opcode_tape_is_untouched() {
    let mut tape: Vec<u8> = vec![0, 1, 2, 3, b'a', 200, 255];
    let before = tape.clone();
    let result = execute_with_params(&mut tape, 3, 100);
    assert_eq!(result.halt_reason, HaltReason::NoInstructions);
    assert_eq!(result.steps, 0);
    assert_eq!(tape, before);
}

#[test]
fn empty_tape_has_no_instructions() {
    let mut tape: Vec<u8> = vec![];
    let result = execute(&mut tape);
    assert_eq!(result.halt_reason, HaltReason::NoInstructions);
    assert_eq!(result.steps, 0);
}

#[test]
fn increment_halts_at_end_of_tape() {
    let mut tape = vec![0x2B, 0, 0, 0];
    let result = execute(&mut tape);
    assert_eq!(tape, vec![0x2C, 0, 0, 0]);
    assert_eq!(result.math_count, 1);
    assert_eq!(result.steps, 4);
    assert_eq!(result.halt_reason, HaltReason::EndOfTape);
}

#[test]
fn increment_wraps_255_to_0() {
    let mut tape = vec![b'<', b'+', 255];
    let result = execute(&mut tape);
    assert_eq!(tape, vec![b'<', b'+', 0]);
    assert_eq!(result.head0_count, 1);
    assert_eq!(result.math_count, 1);
}

#[test]
fn decrement_wraps_0_to_255() {
    let mut tape = vec![b'<', b'-', 0];
    let result = execute(&mut tape);
    assert_eq!(tape, vec![b'<', b'-', 255]);
    assert_eq!(result.math_count, 1);
    assert_eq!(result.halt_reason, HaltReason::EndOfTape);
}

#[test]
fn endless_loop_stops_at_budget() {
    let mut tape = vec![b'+', b'[', b']'];
    let result = execute_with_params(&mut tape, 0, 300);
    assert_eq!(result.steps, 300);
    assert_eq!(result.halt_reason, HaltReason::MaxSteps);
    let mut tape = vec![b'+', b'[', b']'];
    let result = execute(&mut tape);
    assert_eq!(result.steps, MAX_STEPS);
    assert_eq!(result.halt_reason, HaltReason::MaxSteps);
}

#[test]
fn zero_budget_takes_no_step() {
    let mut tape = vec![b'+', 0];
    let result = execute_with_params(&mut tape, 0, 0);
    assert_eq!(result.steps, 0);
    assert_eq!(result.halt_reason, HaltReason::MaxSteps);
    assert_eq!(tape, vec![b'+', 0]);
}

#[test]
fn open_bracket_without_partner_halts() {
    let mut tape = vec![b'<', b'[', 0, 0];
    let result = execute(&mut tape);
    assert_eq!(result.halt_reason, HaltReason::UnmatchedBracket);
    assert_eq!(result.steps, 2);
    assert_eq!(result.loop_count, 0);
}

#[test]
fn close_bracket_without_partner_halts() {
    let mut tape = vec![b']', 0];
    let result = execute(&mut tape);
    assert_eq!(result.halt_reason, HaltReason::UnmatchedBracket);
    assert_eq!(result.steps, 1);
    assert_eq!(result.loop_count, 1);
}

#[test]
fn zero_cell_skips_loop_body() {
    // head0 moves to the last cell (0); '[' jumps past ']' without running '+'.
    let mut tape = vec![b'<', b'[', b'+', b']', 0];
    let result = execute(&mut tape);
    assert_eq!(tape, vec![b'<', b'[', b'+', b']', 0]);
    assert_eq!(result.math_count, 0);
    assert_eq!(result.steps, 3);
    assert_eq!(result.halt_reason, HaltReason::EndOfTape);
}

#[test]
fn copy_moves_bytes_between_heads() {
    // head1 starts at 3; '.' copies tape[0] ('.') to tape[3], which then
    // runs as a second copy.
    let mut tape = vec![b'.', 0, 0, 0];
    let result = execute_with_head1(&mut tape, 3);
    assert_eq!(tape, vec![b'.', 0, 0, b'.']);
    assert_eq!(result.copy_count, 2);
    // head1 start is wrapped onto the tape: 7 is cell 3 of 4.
    let mut tape = vec![b'.', 0, 0, 0];
    execute_with_head1(&mut tape, 7);
    assert_eq!(tape, vec![b'.', 0, 0, b'.']);
    let mut tape = vec![b'}', b',', 9];
    let result = execute_with_head1(&mut tape, 1);
    assert_eq!(tape, vec![9, b',', 9]);
    assert_eq!(result.head1_count, 1);
    assert_eq!(result.copy_count, 1);
}

#[test]
fn heads_wrap_both_ways() {
    // '{' from 0 wraps head1 to the last cell; '.' writes tape[0] there.
    let mut tape = vec![b'{', b'.', 0];
    execute_with_head1(&mut tape, 0);
    assert_eq!(tape, vec![b'{', b'.', b'{']);
    // '>' three times moves head0 onto the '+' at cell 3, which increments itself.
    let mut tape = vec![b'>', b'>', b'>', b'+'];
    let result = execute(&mut tape);
    assert_eq!(tape, vec![b'>', b'>', b'>', b'+' + 1]);
    assert_eq!(result.head0_count, 3);
}

#[test]
fn matching_bracket_stays_inside_tape() {
    assert_eq!(find_matching_bracket(b"[[]]", 0, 1), Some(3));
    assert_eq!(find_matching_bracket(b"[[]]", 1, 1), Some(2));
    assert_eq!(find_matching_bracket(b"[[]]", 3, -1), Some(0));
    assert_eq!(find_matching_bracket(b"[[]]", 2, -1), Some(1));
    assert_eq!(find_matching_bracket(b"[ab", 0, 1), None);
    assert_eq!(find_matching_bracket(b"]..[", 3, 1), None);
    assert_eq!(find_matching_bracket(b"]..[", 0, -1), None);
    assert_eq!(find_matching_bracket(b"[[]", 0, 1), None);
}

#[test]
fn execute_tape_reports_halt_code() {
    let mut tape = vec![0u8, 1, 2, 3];
    let result = execute_tape(&mut tape);
    assert_eq!(result.halt_reason, 3);
    let mut tape = vec![0x2B, 0, 0, 0];
    let result = execute_tape(&mut tape);
    assert_eq!(result.halt_reason, 0);
    assert_eq!(tape[0], 0x2C);
    assert_eq!(result.math_count, 1);
    let mut tape = vec![b']', 0];
    assert_eq!(execute_tape(&mut tape).halt_reason, 2);
}

#[test]
fn halt_codes() {
    assert_eq!(HaltReason::EndOfTape.code(), 0);
    assert_eq!(HaltReason::MaxSteps.code(), 1);
    assert_eq!(HaltReason::UnmatchedBracket.code(), 2);
    assert_eq!(HaltReason::NoInstructions.code(), 3);
}
