//! Index-range normalization: optional, possibly out-of-range signed
//! bounds plus a sequence length become a clamped half-open range with
//! slice semantics.

use vstd::prelude::*;
use crate::coerce::{BigIntArg, spec_saturated, saturate_to_isize};

verus! {

/// A half-open `[start, end)` interval of element positions. An
/// "abnormal" range (`start > end`) signals an empty result or a
/// missed match, never an error.
#[derive(Clone, Copy, Debug, PartialEq, Eq, Structural)]
pub struct IndexRange {
    pub start: usize,
    pub end: usize,
}

/// Ranges that can report whether they are normal (`start <= end`).
pub trait StringRange {
    /// What "normal" means for this range, at the specification level.
    spec fn spec_is_normal(&self) -> bool;

    /// Whether the range is normal; abnormal ranges stand for "no
    /// match" / "empty result".
    fn is_normal(&self) -> (r: bool)
        ensures
            r == self.spec_is_normal(),
    ;
}

impl StringRange for IndexRange {
    open spec fn spec_is_normal(&self) -> bool {
        self.start <= self.end
    }

    fn is_normal(&self) -> (r: bool)
        ensures
            r == self.spec_is_normal(),
    {
        self.start <= self.end
    }
}

/// The normalized end bound: clamped to `len` from above; a negative
/// bound counts back from `len` and then clamps to 0.
pub open spec fn spec_norm_end(e: int, len: int) -> int {
    if e > len {
        len
    } else if e < 0 {
        if e + len < 0 {
            0
        } else {
            e + len
        }
    } else {
        e
    }
}

/// The normalized start bound: a negative bound counts back from `len`
/// and then clamps to 0; a bound past `len` is deliberately left as it
/// is, so that the resulting abnormal range reads as "empty".
pub open spec fn spec_norm_start(s: int, len: int) -> int {
    if s < 0 {
        if s + len < 0 {
            0
        } else {
            s + len
        }
    } else {
        s
    }
}

/// The saturated bound an optional big integer contributes, with the
/// given default for an absent one.
pub open spec fn spec_opt_bound(v: Option<BigIntArg>, default: int) -> int {
    match v {
        Some(b) => spec_saturated(b) as int,
        None => default,
    }
}

/// The fully normalized range for optional signed bounds and a length.
pub open spec fn spec_adjusted(start: Option<BigIntArg>, end: Option<BigIntArg>, len: usize) -> IndexRange {
    IndexRange {
        start: spec_norm_start(spec_opt_bound(start, 0), len as int) as usize,
        end: spec_norm_end(spec_opt_bound(end, len as int), len as int) as usize,
    }
}

/// Normalizes optional string indices against a length. Each present
/// bound is first saturated to the machine's signed range (never an
/// error), then interpreted with slice semantics: negative bounds count
/// back from the end and clamp to 0; the end bound also clamps to
/// `len` from above, while the start bound does not — a start past the
/// end yields an abnormal range, which callers treat as empty.
pub fn adjust_indices(start: Option<BigIntArg>, end: Option<BigIntArg>, len: usize) -> (r: IndexRange)
    requires
        len <= isize::MAX as usize,
    ensures
        r == spec_adjusted(start, end, len),
        r.end <= len,
        r.start <= isize::MAX as usize,
{
    let mut s: isize = match start {
        Some(b) => saturate_to_isize(b),
        None => 0,
    };
    let mut e: isize = match end {
        Some(b) => saturate_to_isize(b),
        None => len as isize,
    };
    if e > len as isize {
        e = len as isize;
    } else if e < 0 {
        e = e + len as isize;
        if e < 0 {
            e = 0;
        }
    }
    if s < 0 {
        s = s + len as isize;
        if s < 0 {
            s = 0;
        }
    }
    IndexRange { start: s as usize, end: e as usize }
}

} // verus!
