use vstd::prelude::*;

verus! {

/// `n` kibibytes.
pub fn kb(n: u64) -> (r: u64)
    requires
        n * 1024 <= u64::MAX,
    ensures
        r == n * 1024,
{
    n * 1024
}

/// `n` mebibytes.
pub fn mb(n: u64) -> (r: u64)
    requires
        n * 1024 * 1024 <= u64::MAX,
    ensures
        r == n * 1024 * 1024,
{
    n * 1024 * 1024
}

} // verus!
