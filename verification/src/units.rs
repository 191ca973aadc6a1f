//! Byte counts as displayed: whole mebibytes, truncated.

use vstd::prelude::*;

verus! {

/// Bytes in one mebibyte. Every "MB" label of the monitor counts these.
pub const BYTES_PER_MEBIBYTE: u64 = 1_048_576;

/// Whole mebibytes contained in `bytes`.
pub open spec fn mebibytes(bytes: int) -> int {
    bytes / 1_048_576
}

/// Converts a byte count to whole mebibytes, discarding the remainder.
pub fn bytes_to_mebibytes(bytes: u64) -> (whole: u64)
    ensures
        whole == mebibytes(bytes as int),
        whole == bytes / BYTES_PER_MEBIBYTE,
{
    bytes / 1024 / 1024
}

} // verus!
