//! Saturating coercion of arbitrary-precision integers into the
//! machine's signed range, and the signed-to-unsigned width coercion
//! used for tab sizes and fill widths.

use vstd::prelude::*;

verus! {

/// What this engine reads of an arbitrary-precision integer: either the
/// value fits an `isize`, or it lies beyond one of the two extremes.
/// Conversion from a host big-integer value happens at the caller's
/// boundary; inside the engine only these three facts matter.
#[derive(Clone, Copy, Debug, PartialEq, Eq, Structural)]
pub enum BigIntArg {
    /// The value is representable and is exactly this `isize`.
    Fits(isize),
    /// The value is below `isize::MIN`.
    BelowMin,
    /// The value is above `isize::MAX`.
    AboveMax,
}

/// The saturated machine-width reading of a big integer: out-of-range
/// values coerce to the nearest representable extreme, preserving sign.
pub open spec fn spec_saturated(v: BigIntArg) -> isize {
    match v {
        BigIntArg::Fits(i) => i,
        BigIntArg::BelowMin => isize::MIN,
        BigIntArg::AboveMax => isize::MAX,
    }
}

/// Saturating conversion to `isize`: never fails, only clamps.
pub fn saturate_to_isize(v: BigIntArg) -> (r: isize)
    ensures
        r == spec_saturated(v),
{
    match v {
        BigIntArg::Fits(i) => i,
        BigIntArg::BelowMin => isize::MIN,
        BigIntArg::AboveMax => isize::MAX,
    }
}

/// Relies on `num_traits::cast::ToPrimitive::to_usize` for `isize`:
/// per its documentation it returns the value as a `usize` when it is
/// representable there — for an `isize`, exactly when it is
/// non-negative — and `None` otherwise.
#[verifier::external_body]
pub(crate) fn isize_to_usize(v: isize) -> (r: Option<usize>)
    ensures
        r == (if v >= 0 {
            Some(v as usize)
        } else {
            None::<usize>
        }),
{
    num_traits::cast::ToPrimitive::to_usize(&v)
}

/// A signed width read as an unsigned one: negative values coerce to 0.
pub open spec fn spec_unsigned_width(w: isize) -> usize {
    if w >= 0 {
        w as usize
    } else {
        0
    }
}

/// Unsigned reading of a signed width, clamping below at zero; this is
/// the coercion tab sizes and zero-fill widths go through.
pub fn signed_width_to_usize(w: isize) -> (r: usize)
    ensures
        r == spec_unsigned_width(w),
{
    match isize_to_usize(w) {
        Some(u) => u,
        None => 0,
    }
}

} // verus!
