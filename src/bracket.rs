//! Bracket matching: a linear scan that stops at either tape edge.
use vstd::prelude::*;
use crate::instructions::{LOOP_END, LOOP_START};

verus! {

/// How a byte changes the nesting depth of a scan in the given direction:
/// a bracket that opens in that direction adds one, its partner takes one away.
pub open spec fn depth_delta(b: u8, forward: bool) -> int {
    if forward {
        if b == LOOP_START { 1 } else if b == LOOP_END { -1 } else { 0 }
    } else {
        if b == LOOP_END { 1 } else if b == LOOP_START { -1 } else { 0 }
    }
}

/// The scan from `pos` with nesting depth `depth`: the first position at which
/// the depth reaches zero, or `None` once the scan leaves `[0, tape.len())`.
pub open spec fn scan_from(tape: Seq<u8>, pos: int, depth: int, forward: bool) -> Option<int>
    decreases (if forward { tape.len() - pos } else { pos + 1 }),
{
    if pos < 0 || pos >= tape.len() {
        None
    } else {
        let d = depth + depth_delta(tape[pos], forward);
        if d == 0 {
            Some(pos)
        } else {
            scan_from(tape, if forward { pos + 1 } else { pos - 1 }, d, forward)
        }
    }
}

/// The partner of the bracket at `start`, searched forward or backward.
pub open spec fn matching_bracket(tape: Seq<u8>, start: int, forward: bool) -> Option<int> {
    scan_from(tape, if forward { start + 1 } else { start - 1 }, 1, forward)
}

proof fn lemma_scan_within_tape(tape: Seq<u8>, pos: int, depth: int, forward: bool)
    requires
        depth >= 1,
    ensures
        scan_from(tape, pos, depth, forward) matches Some(j) ==> {
            &&& 0 <= j < tape.len()
            &&& forward ==> pos <= j && tape[j] == LOOP_END
            &&& !forward ==> j <= pos && tape[j] == LOOP_START
        },
    decreases (if forward { tape.len() - pos } else { pos + 1 }),
{
    if 0 <= pos < tape.len() {
        let d = depth + depth_delta(tape[pos], forward);
        if d != 0 {
            lemma_scan_within_tape(tape, if forward { pos + 1 } else { pos - 1 }, d, forward);
        }
    }
}

/// A bracket's partner is never looked for across a tape edge: a match lies
/// inside the tape, on the side of the search, and is the closing bracket of
/// that direction (`]` forward, `[` backward).
pub proof fn lemma_match_within_tape(tape: Seq<u8>, start: int, forward: bool)
    ensures
        matching_bracket(tape, start, forward) matches Some(j) ==> {
            &&& 0 <= j < tape.len()
            &&& forward ==> start < j && tape[j] == LOOP_END
            &&& !forward ==> j < start && tape[j] == LOOP_START
        },
{
    lemma_scan_within_tape(tape, if forward { start + 1 } else { start - 1 }, 1, forward);
}

/// Finds the partner of the bracket at `start`: `direction` 1 searches forward
/// for `]`, -1 backward for `[`. Reaching either tape edge gives `None`.
pub fn find_matching_bracket(tape: &[u8], start: usize, direction: i32) -> (r: Option<usize>)
    requires
        direction == 1 || direction == -1,
    ensures
        r matches Some(j) ==> matching_bracket(tape@, start as int, direction == 1) == Some(
            j as int,
        ),
        r is None ==> matching_bracket(tape@, start as int, direction == 1) is None,
        r matches Some(j) ==> j < tape@.len(),
{
    proof {
        lemma_match_within_tape(tape@, start as int, direction == 1);
    }
    let forward = direction == 1;
    let len = tape.len();
    if forward && start >= len {
        return None;
    }
    if !forward && (start == 0 || start - 1 >= len) {
        return None;
    }
    let mut pos: usize = if forward { start + 1 } else { start - 1 };
    let mut depth: usize = 1;
    while pos < len
        invariant
            len == tape@.len(),
            forward == (direction == 1),
            1 <= depth,
            forward ==> start < pos && depth <= pos - start,
            !forward ==> pos < start && depth <= start - pos,
            matching_bracket(tape@, start as int, forward) == scan_from(
                tape@,
                pos as int,
                depth as int,
                forward,
            ),
        decreases (if forward { len - pos } else { pos + 1 }),
    {
        let b = tape[pos];
        let opens = if forward { b == LOOP_START } else { b == LOOP_END };
        let closes = if forward { b == LOOP_END } else { b == LOOP_START };
        if opens {
            if !forward && pos == 0 {
                assert(scan_from(tape@, -1, depth + 1, forward) is None);
                return None;
            }
            depth = depth + 1;
        } else if closes {
            depth = depth - 1;
            if depth == 0 {
                return Some(pos);
            }
        }
        if forward {
            pos = pos + 1;
        } else {
            if pos == 0 {
                assert(scan_from(tape@, -1, depth as int, forward) is None);
                return None;
            }
            pos = pos - 1;
        }
    }
    None
}

} // verus!
