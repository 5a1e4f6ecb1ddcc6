//! Byte counts in binary units.

use vstd::prelude::*;

verus! {

/// Bytes in `n` kibibytes, as a mathematical integer.
pub open spec fn spec_kb(n: int) -> int {
    n * 1024
}

/// Bytes in `n` mebibytes, as a mathematical integer.
pub open spec fn spec_mb(n: int) -> int {
    n * 1024 * 1024
}

/// Bytes in `n` gibibytes, as a mathematical integer.
pub open spec fn spec_gb(n: int) -> int {
    n * 1024 * 1024 * 1024
}

/// Bytes in `n` kibibytes.
pub fn kb(n: usize) -> (bytes: usize)
    requires
        spec_kb(n as int) <= usize::MAX,
    ensures
        bytes == spec_kb(n as int),
{
    n * 1024
}

/// Bytes in `n` mebibytes.
pub fn mb(n: usize) -> (bytes: usize)
    requires
        spec_mb(n as int) <= usize::MAX,
    ensures
        bytes == spec_mb(n as int),
{
    n * 1024 * 1024
}

/// Bytes in `n` gibibytes.
pub fn gb(n: usize) -> (bytes: usize)
    requires
        spec_gb(n as int) <= usize::MAX,
    ensures
        bytes == spec_gb(n as int),
{
    n * 1024 * 1024 * 1024
}

} // verus!
