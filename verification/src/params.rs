//! The chunk size bounds that suit a file of a given size.

use vstd::prelude::*;

use crate::chunking::{chunker_size_ceilings, size_ceilings_spec, within_chunker_limits};

verus! {

/// Bytes in a mebibyte.
pub const MEGABYTE: u64 = 1024 * 1024;

/// Bytes in a gibibyte.
pub const GIGABYTE: u64 = 1024 * 1024 * 1024;

/// The `(min, avg, max)` chunk sizes for a file of `size` bytes: small
/// chunks up to a mebibyte, middling ones up to a gibibyte, and the largest
/// that the chunker accepts beyond.
pub open spec fn params_for_size(size: u64) -> (u32, u32, u32) {
    if size <= MEGABYTE {
        (32_768, 131_072, 524_288)
    } else if size <= GIGABYTE {
        (524_288, 2_097_152, 131_989_504)
    } else {
        size_ceilings_spec()
    }
}

/// Chooses the `(min, avg, max)` chunk sizes for a file of `size` bytes.
pub fn determine_params(size: u64) -> (r: (u32, u32, u32))
    ensures
        r == params_for_size(size),
{
    if size <= MEGABYTE {
        (32 * 1024, 128 * 1024, 512 * 1024)
    } else if size <= GIGABYTE {
        (512 * 1024, 2 * 1024 * 1024, 64 * 2014 * 1024)
    } else {
        chunker_size_ceilings()
    }
}

/// For every size, the chosen bounds are ordered: minimum, then average,
/// then maximum.
pub proof fn lemma_params_ordered(size: u64)
    ensures
        params_for_size(size).0 <= params_for_size(size).1 <= params_for_size(size).2,
{
}

/// Up to a mebibyte and beyond a gibibyte, the chunker accepts the chosen
/// bounds.
pub proof fn lemma_params_accepted(size: u64)
    requires
        size <= MEGABYTE || size > GIGABYTE,
    ensures
        within_chunker_limits(params_for_size(size).0, params_for_size(size).1, params_for_size(size).2),
{
}

/// The bounds depend only on which of three size ranges the file falls in:
/// up to a mebibyte they are (32 KiB, 128 KiB, 512 KiB); above a mebibyte
/// and up to a gibibyte, (512 KiB, 2 MiB, 64 * 2014 KiB); above a gibibyte,
/// (1 MiB, 4 MiB, 16 MiB).
pub proof fn lemma_params_by_range(size: u64)
    ensures
        size <= 1_048_576 ==> params_for_size(size) == (32_768u32, 131_072u32, 524_288u32),
        1_048_576 < size <= 1_073_741_824 ==> params_for_size(size) == (524_288u32, 2_097_152u32, 131_989_504u32),
        1_073_741_824 < size ==> params_for_size(size) == (1_048_576u32, 4_194_304u32, 16_777_216u32),
{
}

/// Two files in the same size range get the same bounds.
pub proof fn lemma_params_constant_on_ranges(a: u64, b: u64)
    requires
        (a <= MEGABYTE && b <= MEGABYTE) || (MEGABYTE < a <= GIGABYTE && MEGABYTE < b <= GIGABYTE) || (
        GIGABYTE < a && GIGABYTE < b),
    ensures
        params_for_size(a) == params_for_size(b),
{
    lemma_params_by_range(a);
    lemma_params_by_range(b);
}

} // verus!
