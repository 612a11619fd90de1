//! The ten opcode bytes of the instruction set, and their classifier.
use vstd::prelude::*;

verus! {

/// `<`: move head0 one cell left.
pub const HEAD0_DEC: u8 = 0x3C;

/// `>`: move head0 one cell right.
pub const HEAD0_INC: u8 = 0x3E;

/// `{`: move head1 one cell left.
pub const HEAD1_DEC: u8 = 0x7B;

/// `}`: move head1 one cell right.
pub const HEAD1_INC: u8 = 0x7D;

/// `-`: decrement the cell under head0.
pub const DECREMENT: u8 = 0x2D;

/// `+`: increment the cell under head0.
pub const INCREMENT: u8 = 0x2B;

/// `.`: copy the cell under head0 to the cell under head1.
pub const COPY_TO_H1: u8 = 0x2E;

/// `,`: copy the cell under head1 to the cell under head0.
pub const COPY_TO_H0: u8 = 0x2C;

/// `[`: if the cell under head0 is zero, jump past the matching `]`.
pub const LOOP_START: u8 = 0x5B;

/// `]`: if the cell under head0 is nonzero, jump back past the matching `[`.
pub const LOOP_END: u8 = 0x5D;

/// The byte is one of the ten opcodes.
pub open spec fn is_opcode(b: u8) -> bool {
    b == HEAD0_DEC || b == HEAD0_INC || b == HEAD1_DEC || b == HEAD1_INC || b == DECREMENT
        || b == INCREMENT || b == COPY_TO_H1 || b == COPY_TO_H0 || b == LOOP_START
        || b == LOOP_END
}

/// Some byte of the sequence is an opcode.
pub open spec fn holds_opcode(s: Seq<u8>) -> bool {
    exists|i: int| 0 <= i < s.len() && is_opcode(#[trigger] s[i])
}

/// Whether `byte` is an opcode; every other byte is a no-op.
pub fn is_instruction(byte: u8) -> (r: bool)
    ensures
        r == is_opcode(byte),
{
    byte == HEAD0_DEC || byte == HEAD0_INC || byte == HEAD1_DEC || byte == HEAD1_INC
        || byte == DECREMENT || byte == INCREMENT || byte == COPY_TO_H1 || byte == COPY_TO_H0
        || byte == LOOP_START || byte == LOOP_END
}

/// Whether any byte of `tape` is an opcode.
pub fn has_instructions(tape: &[u8]) -> (r: bool)
    ensures
        r == holds_opcode(tape@),
{
    let mut i: usize = 0;
    while i < tape.len()
        invariant
            i <= tape@.len(),
            forall|j: int| 0 <= j < i ==> !is_opcode(#[trigger] tape@[j]),
        decreases tape@.len() - i,
    {
        if is_instruction(tape[i]) {
            return true;
        }
        i = i + 1;
    }
    false
}

} // verus!
