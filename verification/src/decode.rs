//! Image bitstream decompression (LZ77 + RLE).
//!
//! The compressed-image decoder is not available: [`decode_run`] yields no output, which
//! callers treat as a blank/placeholder image, and [`decode_data`] therefore reports
//! [`Error::DecodeFailed`] for any non-empty expected output. Uncompressed images and
//! envelopes that store their payload as-is do not go through here.

use crate::error::Error;
use vstd::prelude::*;

verus! {

/// Decode a compressed bitstream, returning as many bytes as it yields (`0..=expected`).
/// The decoder yields nothing.
pub fn decode_run(src: &[u8], expected: usize) -> (out: Vec<u8>)
    ensures
        out@.len() <= expected,
        out@ == Seq::<u8>::empty(),
{
    let _ = (src, expected);
    Vec::new()
}

/// Decode a compressed bitstream into exactly `expected` output bytes: errors unless the
/// decode produced exactly `expected` bytes.
pub fn decode_data(src: &[u8], expected: usize) -> (r: Result<Vec<u8>, Error>)
    ensures
        r matches Ok(v) ==> v@.len() == expected && expected == 0,
        r is Ok <==> expected == 0,
        r is Err ==> r == Err::<Vec<u8>, Error>(Error::DecodeFailed { got: 0, expected }),
{
    let out = decode_run(src, expected);
    if out.len() != expected {
        return Err(Error::DecodeFailed { got: out.len(), expected });
    }
    Ok(out)
}

} // verus!
