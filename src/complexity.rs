//! The integer parts of the complexity measures: the byte histogram behind
//! the Shannon entropy, and the deflate size behind the complexity estimate.
use vstd::prelude::*;

verus! {

/// Deflate level of the complexity estimate; fixed so that scores compare.
pub const COMPRESSION_LEVEL: u8 = 6;

/// How often `v` occurs in `s`.
pub open spec fn count_of(s: Seq<u8>, v: u8) -> nat
    decreases s.len(),
{
    if s.len() == 0 {
        0
    } else {
        count_of(s.drop_last(), v) + if s.last() == v { 1nat } else { 0nat }
    }
}

/// The count of each byte value of `data`, indexed by the value.
pub fn byte_histogram(data: &[u8]) -> (r: Vec<usize>)
    ensures
        r@.len() == 256,
        forall|v: int| 0 <= v < 256 ==> #[trigger] r@[v] == count_of(data@, v as u8),
{
    let mut counts: Vec<usize> = Vec::new();
    let mut k: usize = 0;
    while k < 256
        invariant
            k <= 256,
            counts@.len() == k,
            forall|v: int| 0 <= v < k ==> #[trigger] counts@[v] == 0,
        decreases 256 - k,
    {
        counts.push(0);
        k = k + 1;
    }
    let len = data.len();
    let mut i: usize = 0;
    while i < len
        invariant
            len == data@.len(),
            i <= len,
            counts@.len() == 256,
            forall|v: int|
                0 <= v < 256 ==> #[trigger] counts@[v] == count_of(data@.subrange(0, i as int), v as u8),
            forall|v: int| 0 <= v < 256 ==> #[trigger] counts@[v] <= i,
        decreases len - i,
    {
        let b = data[i];
        let c = counts[b as usize];
        counts.set(b as usize, c + 1);
        proof {
            let s = data@.subrange(0, i + 1);
            assert(s.drop_last() =~= data@.subrange(0, i as int));
            assert forall|v: int| 0 <= v < 256 implies #[trigger] counts@[v] == count_of(s, v as u8) by {
                if v != b as int {
                    assert(v as u8 != b);
                }
            }
        }
        i = i + 1;
    }
    assert(data@.subrange(0, len as int) =~= data@);
    counts
}

/// What `miniz_oxide::deflate::compress_to_vec` gives for `data` at `level`.
pub uninterp spec fn deflate_of(data: Seq<u8>, level: u8) -> Seq<u8>;

/// Relies on `miniz_oxide::deflate::compress_to_vec`: a raw deflate stream of
/// `data` at `level` (0 to 10), which depends on those two alone.
#[verifier::external_body]
fn deflate(data: &[u8], level: u8) -> (r: Vec<u8>)
    requires
        level <= 10,
    ensures
        r@ == deflate_of(data@, level),
{
    miniz_oxide::deflate::compress_to_vec(data, level)
}

/// The deflate size of `data` at the fixed level; none for empty data.
pub open spec fn compressed_size_of(data: Seq<u8>) -> Option<nat> {
    if data.len() == 0 {
        None
    } else {
        Some(deflate_of(data, COMPRESSION_LEVEL).len())
    }
}

/// Bytes of the deflate stream of `data` at the fixed level, or `None` for
/// empty data, which is not compressed. The complexity estimate in bits per
/// byte is eight times this size over the length of `data`.
pub fn compressed_size(data: &[u8]) -> (r: Option<usize>)
    ensures
        r matches Some(n) ==> compressed_size_of(data@) == Some(n as nat),
        r is None ==> compressed_size_of(data@) is None,
{
    if data.len() == 0 {
        return None;
    }
    let packed = deflate(data, COMPRESSION_LEVEL);
    Some(packed.len())
}

/// The compressed size depends on the data alone: equal data, equal size.
pub proof fn lemma_compressed_size_deterministic(a: Seq<u8>, b: Seq<u8>)
    requires
        a == b,
    ensures
        compressed_size_of(a) == compressed_size_of(b),
{
}

} // verus!
