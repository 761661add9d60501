//! Typed, validated parameter bundles consumed by the transform
//! algorithms.

use vstd::prelude::*;
use vstd::slice::slice_subrange;
use crate::coerce::{BigIntArg, signed_width_to_usize, spec_unsigned_width};
use crate::errors::{AnyStrError, value_error};
use crate::ranges::{IndexRange, StringRange, spec_adjusted, adjust_indices};

verus! {

/// Separator and split-count limit for the split family. A supplied
/// separator must be non-empty; that is enforced once, by
/// `get_value`, not inside the split loops.
pub struct SplitArgs {
    pub sep: Option<Vec<u8>>,
    pub maxsplit: isize,
}

impl SplitArgs {
    /// Validates the bundle: rejects an empty separator with a value
    /// error, and otherwise hands back the separator and limit
    /// unchanged.
    pub fn get_value(self) -> (r: Result<(Option<Vec<u8>>, isize), AnyStrError>)
        ensures
            match r {
                Ok((sep, maxsplit)) => {
                    &&& sep == self.sep
                    &&& maxsplit == self.maxsplit
                    &&& (self.sep matches Some(p) ==> p@.len() > 0)
                },
                Err(e) => {
                    &&& self.sep matches Some(p) && p@.len() == 0
                    &&& e is ValueError
                    &&& e.spec_message() == "empty separator"@
                },
            },
    {
        match self.sep {
            Some(s) => {
                if s.len() == 0 {
                    Err(value_error("empty separator"))
                } else {
                    Ok((Some(s), self.maxsplit))
                }
            },
            None => Ok((None, self.maxsplit)),
        }
    }
}

/// Whether line terminators are retained in each fragment produced by
/// line splitting.
#[derive(Clone, Copy, Debug, PartialEq, Eq, Structural)]
pub struct SplitLinesArgs {
    pub keepends: bool,
}

impl Default for SplitLinesArgs {
    /// By default, line terminators are dropped from the fragments.
    fn default() -> (r: Self)
        ensures
            !r.keepends,
    {
        SplitLinesArgs { keepends: false }
    }
}

/// A signed tab width, read as an unsigned one on use.
#[derive(Clone, Copy, Debug, PartialEq, Eq, Structural)]
pub struct ExpandTabsArgs {
    tabsize: isize,
}

impl ExpandTabsArgs {
    /// The signed width as supplied.
    pub closed spec fn spec_raw_tabsize(&self) -> isize {
        self.tabsize
    }

    /// A bundle holding the given signed tab width.
    pub fn new(tabsize: isize) -> (r: Self)
        ensures
            r.spec_raw_tabsize() == tabsize,
    {
        ExpandTabsArgs { tabsize }
    }

    /// The tab width as an unsigned count: a negative width coerces to
    /// zero — never an error.
    pub fn tabsize(&self) -> (r: usize)
        ensures
            r == spec_unsigned_width(self.spec_raw_tabsize()),
    {
        signed_width_to_usize(self.tabsize)
    }
}

/// The affix argument of a starts-with / ends-with style operation —
/// a single candidate or a (possibly nested) tuple of candidates —
/// together with independently optional start and end bounds.
pub struct StartsEndsWithArgs<A> {
    pub affix: A,
    pub start: Option<BigIntArg>,
    pub end: Option<BigIntArg>,
}

impl<A> StartsEndsWithArgs<A> {
    /// The affix, and the normalized range when at least one bound was
    /// supplied; with neither bound the whole sequence is meant and no
    /// range is produced.
    pub fn get_value(self, len: usize) -> (r: (A, Option<IndexRange>))
        requires
            len <= isize::MAX as usize,
        ensures
            r.0 == self.affix,
            r.1 == (if self.start is Some || self.end is Some {
                Some(spec_adjusted(self.start, self.end, len))
            } else {
                None::<IndexRange>
            }),
    {
        let range = if self.start.is_some() || self.end.is_some() {
            Some(adjust_indices(self.start, self.end, len))
        } else {
            None
        };
        (self.affix, range)
    }

    /// Restricts the subject to the requested range: hands back the
    /// affix and the sub-view of `s` the bounds select, the whole of
    /// `s` when no bound was supplied, and `None` when the normalized
    /// range is abnormal — the caller's empty / no-match case.
    pub fn prepare<'a>(self, s: &'a [u8], len: usize) -> (r: Option<(A, &'a [u8])>)
        requires
            len == s@.len(),
            len <= isize::MAX as usize,
        ensures
            ({
                if self.start is Some || self.end is Some {
                    let rng = spec_adjusted(self.start, self.end, len);
                    if rng.start <= rng.end {
                        r matches Some((affix, sub)) && affix == self.affix && sub@
                            == s@.subrange(rng.start as int, rng.end as int)
                    } else {
                        r is None
                    }
                } else {
                    r matches Some((affix, sub)) && affix == self.affix && sub@ == s@
                }
            }),
    {
        let (affix, range) = self.get_value(len);
        let substr = if let Some(range) = range {
            if !range.is_normal() {
                return None;
            }
            slice_subrange(s, range.start, range.end)
        } else {
            s
        };
        Some((affix, substr))
    }
}

} // verus!
