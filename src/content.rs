use vstd::prelude::*;
use crate::error::EngineError;

verus! {

/// Number of leading bytes inspected when deciding whether content is text.
pub const SAMPLE_LEN: usize = 1000;

/// Largest file, in bytes, that is shown as text.
pub const DISPLAY_CAP: u64 = 10485760;

/// Number of bytes above 0x7f among the first `n` bytes of `b`.
pub open spec fn high_count(b: Seq<u8>, n: int) -> nat
    decreases n,
{
    if n <= 0 {
        0
    } else {
        high_count(b, n - 1) + if b[n - 1] > 127 { 1nat } else { 0nat }
    }
}

/// Length of the sample taken from content of length `len`.
pub open spec fn sample_len(len: int) -> int {
    if len < SAMPLE_LEN as int { len } else { SAMPLE_LEN as int }
}

/// Content looks binary: it holds a null byte, or more than 30% of its sample lies
/// outside 7-bit ASCII.
pub open spec fn looks_binary(b: Seq<u8>) -> bool {
    b.contains(0u8) || 10 * high_count(b, sample_len(b.len() as int)) > 3 * sample_len(
        b.len() as int,
    )
}

/// Decides whether `bytes` should be refused as non-textual.
pub fn is_binary_content(bytes: &[u8]) -> (r: bool)
    ensures
        r == looks_binary(bytes@),
{
    let n = bytes.len();
    let mut i: usize = 0;
    while i < n
        invariant
            n == bytes@.len(),
            i <= n,
            forall|j: int| 0 <= j < i ==> bytes@[j] != 0u8,
        decreases n - i,
    {
        if bytes[i] == 0 {
            return true;
        }
        i = i + 1;
    }
    assert(!bytes@.contains(0u8));
    let sample: usize = if n < SAMPLE_LEN { n } else { SAMPLE_LEN };
    let mut high: usize = 0;
    let mut k: usize = 0;
    while k < sample
        invariant
            sample == sample_len(n as int),
            sample <= n,
            n == bytes@.len(),
            k <= sample,
            sample <= SAMPLE_LEN,
            high <= k,
            high == high_count(bytes@, k as int),
        decreases sample - k,
    {
        if bytes[k] > 127 {
            high = high + 1;
        }
        k = k + 1;
    }
    10 * high > 3 * sample
}


/// Decides whether a file of `size` bytes whose content is `bytes` may be shown as text:
/// refused with `BinaryContentRejected` when it exceeds the display cap or looks binary.
pub fn check_displayable(size: u64, bytes: &[u8]) -> (r: Result<(), EngineError>)
    ensures
        r is Ok <==> (size <= DISPLAY_CAP && !looks_binary(bytes@)),
        r is Err ==> (r matches Err(EngineError::BinaryContentRejected)),
{
    if size > DISPLAY_CAP || is_binary_content(bytes) {
        Err(EngineError::BinaryContentRejected)
    } else {
        Ok(())
    }
}

} // verus!
