//! Substring search: first-occurrence lookup and non-overlapping
//! occurrence counting, plus the range-restricted `find`/`count`
//! primitives built on them.

use vstd::prelude::*;
use vstd::slice::slice_subrange;
use crate::ranges::{IndexRange, StringRange};

verus! {

/// Whether `n` occurs in `s` at position `i`.
pub open spec fn match_at(s: Seq<u8>, n: Seq<u8>, i: int) -> bool {
    0 <= i && i + n.len() <= s.len() && s.subrange(i, i + n.len()) == n
}

/// The position of the first occurrence of `n` in `s`, or `-1` if
/// there is none.
pub open spec fn first_match(s: Seq<u8>, n: Seq<u8>) -> int
    decreases s.len(),
{
    if match_at(s, n, 0) {
        0
    } else if s.len() == 0 {
        -1
    } else {
        let rest = first_match(s.skip(1), n);
        if rest < 0 {
            -1
        } else {
            1 + rest
        }
    }
}

/// A match of the suffix `s.skip(1)` is a match of `s` one position
/// later, and conversely.
proof fn lemma_match_shift(s: Seq<u8>, n: Seq<u8>, i: int)
    requires
        s.len() > 0,
        i >= 0,
    ensures
        match_at(s.skip(1), n, i) == match_at(s, n, i + 1),
{
    if i + 1 + n.len() <= s.len() {
        assert(s.skip(1).subrange(i, i + n.len() as int) =~= s.subrange(i + 1, i + 1 + n.len() as int));
    }
}

/// `first_match` names the least occurrence position: it is a match,
/// nothing earlier is, and `-1` means there is no match at all.
pub proof fn lemma_first_match_props(s: Seq<u8>, n: Seq<u8>)
    ensures
        first_match(s, n) >= 0 ==> match_at(s, n, first_match(s, n)),
        first_match(s, n) >= 0 ==> forall|j: int| 0 <= j < first_match(s, n) ==> !match_at(s, n, j),
        first_match(s, n) < 0 ==> forall|j: int| !match_at(s, n, j),
        first_match(s, n) >= 0 ==> first_match(s, n) + n.len() <= s.len(),
    decreases s.len(),
{
    if match_at(s, n, 0) {
    } else if s.len() == 0 {
        assert forall|j: int| !match_at(s, n, j) by {
            if 0 <= j && j + n.len() <= s.len() {
                assert(j == 0);
            }
        }
    } else {
        lemma_first_match_props(s.skip(1), n);
        let rest = first_match(s.skip(1), n);
        assert forall|j: int| 0 <= j < first_match(s, n) implies !match_at(s, n, j) by {
            if j > 0 {
                lemma_match_shift(s, n, j - 1);
            }
        }
        if rest < 0 {
            assert forall|j: int| !match_at(s, n, j) by {
                if j > 0 {
                    lemma_match_shift(s, n, j - 1);
                }
            }
        } else {
            lemma_match_shift(s, n, rest);
        }
    }
}

/// If `i` is a match and nothing earlier is, then `i` is exactly the
/// first match.
pub proof fn lemma_first_match_is(s: Seq<u8>, n: Seq<u8>, i: int)
    requires
        match_at(s, n, i),
        forall|j: int| 0 <= j < i ==> !match_at(s, n, j),
    ensures
        first_match(s, n) == i,
{
    lemma_first_match_props(s, n);
    let f = first_match(s, n);
    if f < 0 {
        assert(!match_at(s, n, i));
    } else if f < i {
        assert(!match_at(s, n, f));
    } else if f > i {
        assert(!match_at(s, n, i));
    }
}

/// If nothing matches, `first_match` is `-1`.
pub proof fn lemma_first_match_none(s: Seq<u8>, n: Seq<u8>)
    requires
        forall|j: int| 0 <= j <= s.len() - n.len() ==> !match_at(s, n, j),
    ensures
        first_match(s, n) == -1,
{
    lemma_first_match_props(s, n);
    let f = first_match(s, n);
    if f >= 0 {
        assert(!match_at(s, n, f));
    }
}

/// Whether `needle` occurs in `s` at position `i`; total, `false` for
/// any position where the needle would not fit.
pub fn matches_at(s: &[u8], needle: &[u8], i: usize) -> (r: bool)
    ensures
        r == match_at(s@, needle@, i as int),
{
    if i > s.len() || needle.len() > s.len() - i {
        assert(!match_at(s@, needle@, i as int));
        return false;
    }
    let mut j: usize = 0;
    while j < needle.len()
        invariant
            i + needle.len() <= s.len(),
            0 <= j <= needle.len(),
            forall|k: int| 0 <= k < j ==> s@[i + k] == needle@[k],
        decreases needle.len() - j,
    {
        if s[i + j] != needle[j] {
            assert(s@.subrange(i as int, i + needle@.len()) != needle@) by {
                assert(s@.subrange(i as int, i + needle@.len())[j as int] != needle@[j as int]);
            }
            return false;
        }
        j += 1;
    }
    assert(s@.subrange(i as int, i + needle@.len()) =~= needle@);
    true
}

/// The position of the first occurrence of `needle` in `s`, if any;
/// an empty needle matches at position 0.
pub fn find_sub(s: &[u8], needle: &[u8]) -> (r: Option<usize>)
    ensures
        r == (if first_match(s@, needle@) >= 0 {
            Some(first_match(s@, needle@) as usize)
        } else {
            None::<usize>
        }),
        r matches Some(i) ==> i + needle@.len() <= s@.len(),
{
    proof {
        lemma_first_match_props(s@, needle@);
    }
    if needle.len() > s.len() {
        proof {
            lemma_first_match_none(s@, needle@);
        }
        return None;
    }
    if needle.len() == 0 {
        proof {
            assert(s@.subrange(0, 0) =~= needle@);
            lemma_first_match_is(s@, needle@, 0);
        }
        return Some(0);
    }
    let bound: usize = s.len() - needle.len();
    let mut i: usize = 0;
    while i <= bound
        invariant
            0 < needle@.len() <= s@.len(),
            s@.len() <= usize::MAX,
            bound == s@.len() - needle@.len(),
            0 <= i <= bound + 1,
            forall|j: int| 0 <= j < i ==> !match_at(s@, needle@, j),
        decreases bound + 1 - i,
    {
        if matches_at(s, needle, i) {
            proof {
                lemma_first_match_is(s@, needle@, i as int);
            }
            return Some(i);
        }
        i += 1;
    }
    proof {
        lemma_first_match_none(s@, needle@);
    }
    None
}

/// The number of non-overlapping occurrences of `n` in `s`, counted
/// from the left; an empty needle occurs at every boundary, `len + 1`
/// times in all.
pub open spec fn spec_count(s: Seq<u8>, n: Seq<u8>) -> nat
    decreases s.len(),
{
    if n.len() == 0 {
        s.len() + 1
    } else if first_match(s, n) < 0 {
        0
    } else if first_match(s, n) + n.len() <= s.len() {
        1 + spec_count(s.skip(first_match(s, n) + n.len() as int), n)
    } else {
        1
    }
}

/// Counts non-overlapping occurrences of `needle` in `s`, from the
/// left.
pub fn count_sub(s: &[u8], needle: &[u8]) -> (r: usize)
    requires
        needle@.len() == 0 ==> s@.len() < usize::MAX,
    ensures
        r == spec_count(s@, needle@),
{
    if needle.len() == 0 {
        return s.len() + 1;
    }
    let mut pos: usize = 0;
    let mut count: usize = 0;
    proof {
        assert(s@.skip(0) =~= s@);
    }
    loop
        invariant
            needle@.len() > 0,
            0 <= pos <= s@.len(),
            count <= pos,
            spec_count(s@, needle@) == count + spec_count(s@.skip(pos as int), needle@),
        decreases s@.len() - pos,
    {
        let rem = slice_subrange(s, pos, s.len());
        match find_sub(rem, needle) {
            Some(i) => {
                proof {
                    lemma_first_match_props(rem@, needle@);
                    assert(rem@ =~= s@.skip(pos as int));
                    assert(spec_count(s@.skip(pos as int), needle@) == 1 + spec_count(
                        s@.skip(pos as int).skip(i + needle@.len()),
                        needle@,
                    ));
                    assert(s@.skip(pos as int).skip(i + needle@.len()) =~= s@.skip(
                        pos + i + needle@.len(),
                    ));
                }
                count += 1;
                pos = pos + i + needle.len();
            }
            None => {
                return count;
            }
        }
    }
}

/// The first occurrence of `needle` within the `range`-restricted view
/// of `s`, reported as a position in the unrestricted `s`; an abnormal
/// range yields "not found" outright.
pub fn py_find(s: &[u8], needle: &[u8], range: IndexRange) -> (r: Option<usize>)
    requires
        range.start <= range.end ==> range.end <= s@.len(),
    ensures
        !range.spec_is_normal() ==> r is None,
        range.spec_is_normal() ==> r == ({
            let f = first_match(s@.subrange(range.start as int, range.end as int), needle@);
            if f >= 0 {
                Some((range.start + f) as usize)
            } else {
                None::<usize>
            }
        }),
{
    if range.is_normal() {
        let sub = slice_subrange(s, range.start, range.end);
        proof {
            lemma_first_match_props(sub@, needle@);
        }
        match find_sub(sub, needle) {
            Some(i) => Some(range.start + i),
            None => None,
        }
    } else {
        None
    }
}

/// The number of occurrences of `needle` within the
/// `range`-restricted view of `s`; an abnormal range counts zero
/// without searching.
pub fn py_count(s: &[u8], needle: &[u8], range: IndexRange) -> (r: usize)
    requires
        range.start <= range.end ==> range.end <= s@.len(),
        needle@.len() == 0 ==> s@.len() < usize::MAX,
    ensures
        !range.spec_is_normal() ==> r == 0,
        range.spec_is_normal() ==> r == spec_count(s@.subrange(range.start as int, range.end as int), needle@),
{
    if range.is_normal() {
        let sub = slice_subrange(s, range.start, range.end);
        count_sub(sub, needle)
    } else {
        0
    }
}

} // verus!
