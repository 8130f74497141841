//! Samples and their 16-bit range.

use vstd::prelude::*;

verus! {

/// One linear PCM amplitude.
pub type Sample = i16;

/// An ordered run of samples; the order is time.
pub type PcmBuf = Vec<Sample>;

/// The value in the 16-bit range that is nearest to `value`.
pub open spec fn saturated(value: int) -> int {
    if value < i16::MIN as int {
        i16::MIN as int
    } else if value > i16::MAX as int {
        i16::MAX as int
    } else {
        value
    }
}

/// Narrows a filtered amplitude to a sample.  Values beyond the 16-bit range
/// stick to the nearest bound; they never wrap.
pub fn saturate(value: i32) -> (sample: Sample)
    ensures
        sample as int == saturated(value as int),
{
    if value < i16::MIN as i32 {
        i16::MIN
    } else if value > i16::MAX as i32 {
        i16::MAX
    } else {
        value as i16
    }
}

} // verus!
