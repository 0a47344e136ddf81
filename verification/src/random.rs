//! Random choices, drawn from the `fastrand` crate's thread-local generator.
//! Nothing is promised of a draw beyond the range it falls in.

use vstd::prelude::*;

verus! {

/// A `usize` in `lo..=hi`, by calling `fastrand::usize`. Trusted: fastrand
/// documents a value in the given range; it panics on an empty range, which
/// `requires` rules out.
#[verifier::external_body]
pub(crate) fn random_usize(lo: usize, hi: usize) -> (r: usize)
    requires
        lo <= hi,
    ensures
        lo <= r <= hi,
{
    fastrand::usize(lo..=hi)
}

/// An `i32` in `lo..=hi`, by calling `fastrand::i32`. Trusted: fastrand
/// documents a value in the given range; it panics on an empty range, which
/// `requires` rules out.
#[verifier::external_body]
pub(crate) fn random_i32(lo: i32, hi: i32) -> (r: i32)
    requires
        lo <= hi,
    ensures
        lo <= r <= hi,
{
    fastrand::i32(lo..=hi)
}

/// A `u8` in `lo..=hi`, by calling `fastrand::u8`. Trusted: fastrand
/// documents a value in the given range; it panics on an empty range, which
/// `requires` rules out.
#[verifier::external_body]
pub(crate) fn random_u8(lo: u8, hi: u8) -> (r: u8)
    requires
        lo <= hi,
    ensures
        lo <= r <= hi,
{
    fastrand::u8(lo..=hi)
}

/// A `u16` drawn over its whole range, by calling `fastrand::u16`.
/// Nothing is promised of the value.
#[verifier::external_body]
pub(crate) fn random_u16() -> (r: u16) {
    fastrand::u16(..)
}

/// A `u32` in `lo..=hi`, by calling `fastrand::u32`. Trusted: fastrand
/// documents a value in the given range; it panics on an empty range, which
/// `requires` rules out.
#[verifier::external_body]
pub(crate) fn random_u32(lo: u32, hi: u32) -> (r: u32)
    requires
        lo <= hi,
    ensures
        lo <= r <= hi,
{
    fastrand::u32(lo..=hi)
}

/// A random `bool`, by calling `fastrand::bool`. Nothing is promised of the
/// value.
#[verifier::external_body]
pub(crate) fn random_bool() -> (r: bool) {
    fastrand::bool()
}

/// Append `count` random bytes.
pub(crate) fn push_random_bytes(out: &mut Vec<u8>, count: usize)
    ensures
        final(out)@.len() == old(out)@.len() + count,
        final(out)@.subrange(0, old(out)@.len() as int) == old(out)@,
{
    let ghost start = out@;
    let mut i: usize = 0;
    while i < count
        invariant
            i <= count,
            out@.len() == start.len() + i,
            out@.subrange(0, start.len() as int) == start,
        decreases count - i,
    {
        let b = random_u8(0, 255);
        out.push(b);
        i = i + 1;
        assert(out@.subrange(0, start.len() as int) =~= start);
    }
}

} // verus!
