//! Stripping leading and trailing elements, and prefix / suffix
//! removal: every result here is a borrowed sub-view of the input,
//! never a copy.

use vstd::prelude::*;
use vstd::slice::slice_subrange;

verus! {

/// The six byte values Python treats as whitespace in byte strings:
/// space, tab, line feed, carriage return, vertical tab, form feed.
pub open spec fn is_space(b: u8) -> bool {
    b == 32 || b == 9 || b == 10 || b == 13 || b == 11 || b == 12
}

/// Whether `b` is one of the bytes of `set`.
pub open spec fn in_set(set: Seq<u8>, b: u8) -> bool {
    exists|i: int| 0 <= i < set.len() && set[i] == b
}

/// Whether `b` occurs in `set`, executably.
pub fn byte_in_set(set: &[u8], b: u8) -> (r: bool)
    ensures
        r == in_set(set@, b),
{
    let mut i: usize = 0;
    while i < set.len()
        invariant
            0 <= i <= set@.len(),
            forall|k: int| 0 <= k < i ==> set@[k] != b,
        decreases set@.len() - i,
    {
        if set[i] == b {
            return true;
        }
        i += 1;
    }
    false
}

/// How many leading bytes of `s` lie in `set`.
pub open spec fn leading_in_set(s: Seq<u8>, set: Seq<u8>) -> int
    decreases s.len(),
{
    if s.len() == 0 {
        0
    } else if !in_set(set, s[0]) {
        0
    } else {
        1 + leading_in_set(s.skip(1), set)
    }
}

/// How many trailing bytes of `s` lie in `set`.
pub open spec fn trailing_in_set(s: Seq<u8>, set: Seq<u8>) -> int
    decreases s.len(),
{
    if s.len() == 0 {
        0
    } else if !in_set(set, s.last()) {
        0
    } else {
        1 + trailing_in_set(s.drop_last(), set)
    }
}

/// `s` with every leading and trailing byte of `set` removed.
pub open spec fn spec_strip(s: Seq<u8>, set: Seq<u8>) -> Seq<u8> {
    let t = s.skip(leading_in_set(s, set));
    t.take(t.len() - trailing_in_set(t, set))
}

/// `leading_in_set` is pinned by its characterization: every byte
/// before the cut is in the set and the byte at the cut, if any, is
/// not.
pub proof fn lemma_leading_in_set_is(s: Seq<u8>, set: Seq<u8>, i: int)
    requires
        0 <= i <= s.len(),
        forall|k: int| 0 <= k < i ==> in_set(set, #[trigger] s[k]),
        i < s.len() ==> !in_set(set, s[i]),
    ensures
        leading_in_set(s, set) == i,
    decreases s.len(),
{
    if s.len() == 0 {
    } else if !in_set(set, s[0]) {
        assert(i == 0);
    } else {
        assert(forall|k: int| 0 <= k < i - 1 ==> #[trigger] s.skip(1)[k] == s[k + 1]);
        lemma_leading_in_set_is(s.skip(1), set, i - 1);
    }
}

/// `trailing_in_set` is pinned by its characterization from the right.
pub proof fn lemma_trailing_in_set_is(s: Seq<u8>, set: Seq<u8>, j: int)
    requires
        0 <= j <= s.len(),
        forall|k: int| j <= k < s.len() ==> in_set(set, #[trigger] s[k]),
        j > 0 ==> !in_set(set, s[j - 1]),
    ensures
        trailing_in_set(s, set) == s.len() - j,
    decreases s.len(),
{
    if s.len() == 0 {
    } else if !in_set(set, s.last()) {
        assert(j == s.len());
    } else {
        assert(forall|k: int| 0 <= k < s.len() - 1 ==> #[trigger] s.drop_last()[k] == s[k]);
        lemma_trailing_in_set_is(s.drop_last(), set, j);
    }
}

/// `s` with every byte of `set` stripped from both ends: a borrowed
/// sub-view, never a copy.
pub fn strip_chars<'a>(s: &'a [u8], set: &[u8]) -> (r: &'a [u8])
    ensures
        r@ == spec_strip(s@, set@),
{
    let n = s.len();
    let mut i: usize = 0;
    while i < n && byte_in_set(set, s[i])
        invariant
            n == s@.len(),
            0 <= i <= n,
            forall|k: int| 0 <= k < i ==> in_set(set@, #[trigger] s@[k]),
        decreases n - i,
    {
        i += 1;
    }
    proof {
        lemma_leading_in_set_is(s@, set@, i as int);
    }
    let mut j: usize = n;
    while j > i && byte_in_set(set, s[j - 1])
        invariant
            n == s@.len(),
            0 <= i <= j <= n,
            forall|k: int| j <= k < n ==> in_set(set@, #[trigger] s@[k]),
        decreases j,
    {
        j -= 1;
    }
    proof {
        let t = s@.skip(i as int);
        assert(forall|k: int| 0 <= k < t.len() ==> t[k] == s@[k + i]);
        if j == i {
            lemma_trailing_in_set_is(t, set@, 0);
        } else {
            lemma_trailing_in_set_is(t, set@, j - i);
        }
        assert(s@.subrange(i as int, j as int) =~= t.take(t.len() - trailing_in_set(t, set@)));
    }
    slice_subrange(s, i, j)
}

/// The whitespace byte set, as a buffer.
pub fn whitespace_set() -> (r: Vec<u8>)
    ensures
        r@ == seq![32u8, 9u8, 10u8, 13u8, 11u8, 12u8],
        forall|b: u8| in_set(r@, b) == is_space(b),
{
    let mut v: Vec<u8> = Vec::new();
    v.push(32);
    v.push(9);
    v.push(10);
    v.push(13);
    v.push(11);
    v.push(12);
    proof {
        assert(v@ =~= seq![32u8, 9u8, 10u8, 13u8, 11u8, 12u8]);
        assert(forall|b: u8| is_space(b) ==> in_set(v@, b)) by {
            assert(v@[0] == 32 && v@[1] == 9 && v@[2] == 10 && v@[3] == 13 && v@[4] == 11
                && v@[5] == 12);
        }
    }
    v
}

/// Strips from both ends. A supplied character set selects
/// charset-aware stripping; `None` — distinguished from "supplied but
/// empty" — selects default whitespace stripping. Returns a borrowed
/// sub-view of the input.
pub fn py_strip<'a>(s: &'a [u8], chars: Option<Option<&[u8]>>) -> (r: &'a [u8])
    ensures
        match chars {
            Some(Some(set)) => r@ == spec_strip(s@, set@),
            _ => r@ == spec_strip(s@, seq![32u8, 9u8, 10u8, 13u8, 11u8, 12u8]),
        },
{
    let flat: Option<&[u8]> = match chars {
        Some(inner) => inner,
        None => None,
    };
    match flat {
        Some(set) => strip_chars(s, set),
        None => {
            let ws = whitespace_set();
            let r = strip_chars(s, ws.as_slice());
            proof {
                assert(ws@ =~= seq![32u8, 9u8, 10u8, 13u8, 11u8, 12u8]);
            }
            r
        },
    }
}

/// Whether `p` is a prefix of `s`.
pub open spec fn spec_starts_with(s: Seq<u8>, p: Seq<u8>) -> bool {
    p.len() <= s.len() && s.take(p.len() as int) == p
}

/// Whether `p` is a suffix of `s`.
pub open spec fn spec_ends_with(s: Seq<u8>, p: Seq<u8>) -> bool {
    p.len() <= s.len() && s.skip(s.len() - p.len()) == p
}

/// Whether `s` starts with `p`, executably.
pub fn starts_with_bytes(s: &[u8], p: &[u8]) -> (r: bool)
    ensures
        r == spec_starts_with(s@, p@),
{
    let r = crate::search::matches_at(s, p, 0);
    proof {
        if p@.len() <= s@.len() {
            assert(s@.subrange(0, p@.len() as int) =~= s@.take(p@.len() as int));
        }
    }
    r
}

/// Whether `s` ends with `p`, executably.
pub fn ends_with_bytes(s: &[u8], p: &[u8]) -> (r: bool)
    ensures
        r == spec_ends_with(s@, p@),
{
    if p.len() > s.len() {
        return false;
    }
    let r = crate::search::matches_at(s, p, s.len() - p.len());
    proof {
        assert(s@.subrange(s@.len() - p@.len(), s@.len() - p@.len() + p@.len()) =~= s@.skip(
            s@.len() - p@.len(),
        ));
    }
    r
}

/// `s` with `p` removed from the front when it is a prefix, otherwise
/// `s` itself.
pub open spec fn spec_removeprefix(s: Seq<u8>, p: Seq<u8>) -> Seq<u8> {
    if spec_starts_with(s, p) {
        s.skip(p.len() as int)
    } else {
        s
    }
}

/// `s` with `p` removed from the back when it is a suffix, otherwise
/// `s` itself.
pub open spec fn spec_removesuffix(s: Seq<u8>, p: Seq<u8>) -> Seq<u8> {
    if spec_ends_with(s, p) {
        s.take(s.len() - p.len())
    } else {
        s
    }
}

/// The sequence with the prefix trimmed off only when it is present;
/// a borrowed sub-view either way, never a copy.
pub fn py_removeprefix<'a>(s: &'a [u8], prefix: &[u8]) -> (r: &'a [u8])
    ensures
        r@ == spec_removeprefix(s@, prefix@),
{
    if starts_with_bytes(s, prefix) {
        let r = slice_subrange(s, prefix.len(), s.len());
        proof {
            assert(s@.subrange(prefix@.len() as int, s@.len() as int) =~= s@.skip(
                prefix@.len() as int,
            ));
        }
        r
    } else {
        s
    }
}

/// The sequence with the suffix trimmed off only when it is present;
/// a borrowed sub-view either way, never a copy.
pub fn py_removesuffix<'a>(s: &'a [u8], suffix: &[u8]) -> (r: &'a [u8])
    ensures
        r@ == spec_removesuffix(s@, suffix@),
{
    if ends_with_bytes(s, suffix) {
        let r = slice_subrange(s, 0, s.len() - suffix.len());
        proof {
            assert(s@.subrange(0, s@.len() - suffix@.len()) =~= s@.take(s@.len() - suffix@.len()));
        }
        r
    } else {
        s
    }
}

/// Removing a prefix a second time is a no-op once the prefix is
/// gone: whenever the first removal leaves a sequence that no longer
/// starts with `p` — or `p` is empty, so removal changes nothing —
/// a second removal returns the same sequence. (With a non-empty `p`
/// still present after the first removal, as in a sequence that
/// starts with `p` twice over, a second call strips it again.)
pub proof fn lemma_removeprefix_idempotent(s: Seq<u8>, p: Seq<u8>)
    requires
        p.len() > 0 ==> !spec_starts_with(spec_removeprefix(s, p), p),
    ensures
        spec_removeprefix(spec_removeprefix(s, p), p) == spec_removeprefix(s, p),
{
    if p.len() == 0 {
        assert(s.take(0) =~= p);
        assert(s.skip(0) =~= s);
    }
}

} // verus!
