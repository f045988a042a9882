//! Audio framing: the recognizer runs at 16 kHz and live audio is handed to
//! it in fixed chunks.

use vstd::prelude::*;

verus! {

/// The recognizer's sample rate.
pub const TARGET_RATE: u32 = 16000;

/// About 160 ms at 16 kHz: the granularity live chunks are handed to the recognizer.
pub const CHUNK: usize = 2560;

/// How many device-rate samples make one recognizer chunk.
pub fn chunk_len_at_rate(rate: u32) -> (n: usize)
    ensures
        n == 2560 * rate / 16000,
{
    let prod: u64 = 2560u64 * (rate as u64);
    let n: u64 = prod / 16000;
    assert(n < 0x1_0000_0000) by (nonlinear_arith)
        requires
            prod == 2560 * rate,
            rate < 0x1_0000_0000,
            n == prod / 16000,
    ;
    n as usize
}

} // verus!
