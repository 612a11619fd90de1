//! Pair and batch execution over a shared soup: two wrapped regions are
//! joined into one tape, run, and reported as a fixed binary record.
use vstd::prelude::*;
use vstd::arithmetic::div_mod::{lemma_fundamental_div_mod, lemma_fundamental_div_mod_converse_mod};
use crate::engine::{
    execute_with_params, initial, lemma_run_keeps_length, lemma_start_on_tape, outcome, HaltReason,
    Machine,
};

verus! {

/// Bytes of one pair in a batch: two little-endian `u32` slot offsets.
pub const PAIR_LEN: usize = 8;

/// The four little-endian bytes of `v`.
pub open spec fn le32(v: int) -> Seq<u8> {
    seq![
        (v % 256) as u8,
        ((v / 256) % 256) as u8,
        ((v / 65536) % 256) as u8,
        ((v / 16777216) % 256) as u8,
    ]
}

/// The `u32` whose little-endian bytes start at `at`.
pub open spec fn u32_at(s: Seq<u8>, at: int) -> int {
    s[at] + 256 * s[at + 1] + 65536 * s[at + 2] + 16777216 * s[at + 3]
}

/// The number that stands for a halt reason in a record.
pub open spec fn halt_code(h: HaltReason) -> int {
    match h {
        HaltReason::EndOfTape => 0,
        HaltReason::MaxSteps => 1,
        HaltReason::UnmatchedBracket => 2,
        HaltReason::NoInstructions => 3,
    }
}

/// `size` bytes of the soup from `slot` on, each index wrapped around the soup.
pub open spec fn region(soup: Seq<u8>, slot: int, size: int) -> Seq<u8> {
    Seq::new(size as nat, |i: int| soup[(slot + i) % (soup.len() as int)])
}

/// The tape of a pair: the region at `slot_a`, then the region at `slot_b`.
pub open spec fn pair_tape(soup: Seq<u8>, slot_a: int, slot_b: int, size: int) -> Seq<u8> {
    region(soup, slot_a, size) + region(soup, slot_b, size)
}

/// The record of an execution: its six counters and halt code, then its tape.
pub open spec fn record(m: Machine, h: HaltReason) -> Seq<u8> {
    le32(m.steps as int) + le32(m.head0_count as int) + le32(m.head1_count as int) + le32(
        m.math_count as int,
    ) + le32(m.copy_count as int) + le32(m.loop_count as int) + le32(halt_code(h)) + m.tape
}

/// The record of the pair at `slot_a` and `slot_b`.
#[verifier::opaque]
pub open spec fn pair_record(
    soup: Seq<u8>,
    slot_a: int,
    slot_b: int,
    size: int,
    head1_offset: int,
    max_steps: nat,
) -> Seq<u8> {
    let (m, h) = outcome(pair_tape(soup, slot_a, slot_b, size), head1_offset, max_steps);
    record(m, h)
}

/// The records of the first `n` pairs of `pairs`, in order.
pub open spec fn batch_records(
    soup: Seq<u8>,
    pairs: Seq<u8>,
    size: int,
    head1_offset: int,
    max_steps: nat,
    n: nat,
) -> Seq<u8>
    decreases n,
{
    if n == 0 {
        Seq::empty()
    } else {
        let at = 8 * (n - 1);
        batch_records(soup, pairs, size, head1_offset, max_steps, (n - 1) as nat) + pair_record(
            soup,
            u32_at(pairs, at),
            u32_at(pairs, at + 4),
            size,
            head1_offset,
            max_steps,
        )
    }
}

impl HaltReason {
    /// The number that stands for this halt reason in a record.
    pub fn code(&self) -> (r: u32)
        ensures
            r == halt_code(*self),
    {
        match self {
            HaltReason::EndOfTape => 0,
            HaltReason::MaxSteps => 1,
            HaltReason::UnmatchedBracket => 2,
            HaltReason::NoInstructions => 3,
        }
    }
}

fn push_le32(out: &mut Vec<u8>, v: u32)
    ensures
        final(out)@ == old(out)@ + le32(v as int),
{
    out.push((v % 256) as u8);
    out.push(((v / 256) % 256) as u8);
    out.push(((v / 65536) % 256) as u8);
    out.push(((v / 16777216) % 256) as u8);
    assert(final(out)@ =~= old(out)@ + le32(v as int));
}

proof fn lemma_mod_next(x: int, len: int)
    requires
        x >= 0,
        len > 0,
    ensures
        (x + 1) % len == (if x % len + 1 == len { 0 } else { x % len + 1 }),
{
    lemma_fundamental_div_mod(x, len);
    let q = x / len;
    if x % len + 1 == len {
        assert(x + 1 == (q + 1) * len + 0) by (nonlinear_arith)
            requires
                x == len * q + x % len,
                x % len + 1 == len,
        ;
        lemma_fundamental_div_mod_converse_mod(x + 1, len, q + 1, 0);
    } else {
        assert(x + 1 == q * len + (x % len + 1)) by (nonlinear_arith)
            requires
                x == len * q + x % len,
        ;
        lemma_fundamental_div_mod_converse_mod(x + 1, len, q, x % len + 1);
    }
}

fn push_region(out: &mut Vec<u8>, soup: &[u8], slot: usize, size: usize)
    requires
        soup@.len() > 0,
    ensures
        final(out)@ == old(out)@ + region(soup@, slot as int, size as int),
{
    let len = soup.len();
    let mut idx: usize = slot % len;
    let mut i: usize = 0;
    while i < size
        invariant
            len == soup@.len(),
            len > 0,
            i <= size,
            idx == (slot as int + i as int) % (len as int),
            out@ == old(out)@ + region(soup@, slot as int, i as int),
        decreases size - i,
    {
        proof {
            lemma_mod_next(slot as int + i as int, len as int);
        }
        out.push(soup[idx]);
        idx = if idx + 1 == len { 0 } else { idx + 1 };
        i = i + 1;
        assert(out@ =~= old(out)@ + region(soup@, slot as int, i as int));
    }
}

/// Runs the pair of soup regions at `slot_a` and `slot_b` (each `region_size`
/// bytes, indices wrapped around the soup) as one tape, with head1 starting
/// at `head1_offset` and at most `max_steps` steps. Returns the record: the
/// six counters and the halt code as little-endian `u32`s, then the changed
/// tape. The soup is not written.
pub fn execute_pair(
    soup: &[u8],
    slot_a: usize,
    slot_b: usize,
    region_size: usize,
    head1_offset: usize,
    max_steps: u32,
) -> (r: Vec<u8>)
    requires
        soup@.len() > 0,
        region_size > 0,
    ensures
        r@ == pair_record(
            soup@,
            slot_a as int,
            slot_b as int,
            region_size as int,
            head1_offset as int,
            max_steps as nat,
        ),
{
    let mut combined: Vec<u8> = Vec::new();
    push_region(&mut combined, soup, slot_a, region_size);
    push_region(&mut combined, soup, slot_b, region_size);
    assert(combined@ =~= pair_tape(soup@, slot_a as int, slot_b as int, region_size as int));
    let result = execute_with_params(combined.as_mut_slice(), head1_offset, max_steps);
    let mut output: Vec<u8> = Vec::new();
    push_le32(&mut output, result.steps);
    push_le32(&mut output, result.head0_count);
    push_le32(&mut output, result.head1_count);
    push_le32(&mut output, result.math_count);
    push_le32(&mut output, result.copy_count);
    push_le32(&mut output, result.loop_count);
    push_le32(&mut output, result.halt_reason.code());
    output.append(&mut combined);
    proof {
        reveal(pair_record);
    }
    output
}

/// Decodes the little-endian `u32` at `at`.
fn read_u32_le(bytes: &[u8], at: usize) -> (r: u32)
    requires
        at + 4 <= bytes@.len(),
    ensures
        r == u32_at(bytes@, at as int),
{
    bytes[at] as u32 + 256 * (bytes[at + 1] as u32) + 65536 * (bytes[at + 2] as u32) + 16777216
        * (bytes[at + 3] as u32)
}

/// Runs each complete 8-byte group of `pairs` (slot_a, then slot_b, as
/// little-endian `u32`s) as `execute_pair` does, in order, and returns the
/// records one after another. Trailing bytes that make no full group are
/// ignored.
pub fn execute_batch(
    soup: &[u8],
    pairs: &[u8],
    region_size: usize,
    head1_offset: usize,
    max_steps: u32,
) -> (r: Vec<u8>)
    requires
        soup@.len() > 0,
        region_size > 0,
    ensures
        r@ == batch_records(
            soup@,
            pairs@,
            region_size as int,
            head1_offset as int,
            max_steps as nat,
            pairs@.len() / 8,
        ),
        r@.len() == (pairs@.len() / 8) * (28 + 2 * region_size),
{
    let pairs_len = pairs.len();
    let num_pairs = pairs_len / PAIR_LEN;
    let mut output: Vec<u8> = Vec::new();
    let mut i: usize = 0;
    let mut offset: usize = 0;
    while i < num_pairs
        invariant
            pairs_len == pairs@.len(),
            num_pairs == pairs@.len() / 8,
            i <= num_pairs,
            offset == 8 * i,
            soup@.len() > 0,
            region_size > 0,
            output@ == batch_records(
                soup@,
                pairs@,
                region_size as int,
                head1_offset as int,
                max_steps as nat,
                i as nat,
            ),
        decreases num_pairs - i,
    {
        assert(offset + 8 <= pairs@.len());
        let next = offset + PAIR_LEN;
        let slot_a = read_u32_le(pairs, offset);
        let slot_b = read_u32_le(pairs, offset + 4);
        let mut rec = execute_pair(
            soup,
            slot_a as usize,
            slot_b as usize,
            region_size,
            head1_offset,
            max_steps,
        );
        let ghost prev = output@;
        let ghost added = rec@;
        output.append(&mut rec);
        assert(output@ == prev + added);
        i = i + 1;
        offset = next;
    }
    proof {
        lemma_batch_len(
            soup@,
            pairs@,
            region_size as int,
            head1_offset as int,
            max_steps as nat,
            pairs@.len() / 8,
        );
    }
    output
}

/// A pair's record is 28 bytes of header and then its tape of twice the
/// region size.
pub proof fn lemma_pair_record_len(
    soup: Seq<u8>,
    slot_a: int,
    slot_b: int,
    size: int,
    head1_offset: int,
    max_steps: nat,
)
    requires
        size >= 0,
    ensures
        pair_record(soup, slot_a, slot_b, size, head1_offset, max_steps).len() == 28 + 2 * size,
{
    reveal(pair_record);
    let tape = pair_tape(soup, slot_a, slot_b, size);
    if crate::instructions::holds_opcode(tape) {
        lemma_start_on_tape(tape, head1_offset);
        lemma_run_keeps_length(initial(tape, head1_offset), max_steps);
    }
}

/// A batch of `n` pairs gives `n` records of `28 + 2 * size` bytes each.
pub proof fn lemma_batch_len(
    soup: Seq<u8>,
    pairs: Seq<u8>,
    size: int,
    head1_offset: int,
    max_steps: nat,
    n: nat,
)
    requires
        size >= 0,
    ensures
        batch_records(soup, pairs, size, head1_offset, max_steps, n).len() == n * (28 + 2 * size),
    decreases n,
{
    if n > 0 {
        let at = 8 * (n - 1);
        lemma_batch_len(soup, pairs, size, head1_offset, max_steps, (n - 1) as nat);
        lemma_pair_record_len(
            soup,
            u32_at(pairs, at),
            u32_at(pairs, at + 4),
            size,
            head1_offset,
            max_steps,
        );
        let k = 28 + 2 * size;
        let m = (n - 1) as nat;
        assert(m * k + k == n * k) by (nonlinear_arith)
            requires
                m == n - 1,
        ;
    } else {
        assert(n * (28 + 2 * size) == 0) by (nonlinear_arith)
            requires
                n == 0,
        ;
    }
}

} // verus!
