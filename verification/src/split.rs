//! The split family: splitting on a separator, with and without a
//! fragment cap, and splitting on runs of whitespace from either end.

use vstd::prelude::*;
use vstd::slice::{slice_subrange, slice_to_vec};
use crate::buffer::seq_views;
use crate::errors::AnyStrError;
use crate::search::{first_match, lemma_first_match_props};
use crate::strip::is_space;
use crate::args::SplitArgs;

verus! {

/// The fragments of `s` split on every occurrence of the non-empty
/// separator `sep`: what stands between consecutive occurrences,
/// including empty fragments between adjacent ones.
pub open spec fn spec_split_sep(s: Seq<u8>, sep: Seq<u8>) -> Seq<Seq<u8>>
    recommends
        sep.len() > 0,
    decreases s.len(),
        when sep.len() > 0
        via spec_split_sep_decreases
{
    let f = first_match(s, sep);
    if f < 0 {
        seq![s]
    } else {
        seq![s.take(f)] + spec_split_sep(s.skip(f + sep.len()), sep)
    }
}

#[via_fn]
proof fn spec_split_sep_decreases(s: Seq<u8>, sep: Seq<u8>) {
    lemma_first_match_props(s, sep);
}

/// The same split, capped at `maxcount` fragments: once only one
/// fragment may still be produced, the whole remainder is it. Zero
/// fragments may be asked for, and yields none.
pub open spec fn spec_splitn_sep(s: Seq<u8>, sep: Seq<u8>, maxcount: nat) -> Seq<Seq<u8>>
    recommends
        sep.len() > 0,
    decreases s.len(),
        when sep.len() > 0
        via spec_splitn_sep_decreases
{
    if maxcount == 0 {
        Seq::empty()
    } else {
        let f = first_match(s, sep);
        if maxcount == 1 || f < 0 {
            seq![s]
        } else {
            seq![s.take(f)] + spec_splitn_sep(s.skip(f + sep.len()), sep, (maxcount - 1) as nat)
        }
    }
}

#[via_fn]
proof fn spec_splitn_sep_decreases(s: Seq<u8>, sep: Seq<u8>, maxcount: nat) {
    lemma_first_match_props(s, sep);
}

/// Splits `s` on every occurrence of the non-empty separator.
pub fn split_on_sep(s: &[u8], sep: &[u8]) -> (r: Vec<Vec<u8>>)
    requires
        sep@.len() > 0,
    ensures
        seq_views(r@) == spec_split_sep(s@, sep@),
{
    let n = s.len();
    let mut acc: Vec<Vec<u8>> = Vec::new();
    let mut pos: usize = 0;
    proof {
        assert(s@.skip(0) =~= s@);
    }
    loop
        invariant
            sep@.len() > 0,
            n == s@.len(),
            0 <= pos <= n,
            spec_split_sep(s@, sep@) == seq_views(acc@) + spec_split_sep(
                s@.skip(pos as int),
                sep@,
            ),
        decreases n - pos,
    {
        let rem = slice_subrange(s, pos, n);
        proof {
            assert(rem@ =~= s@.skip(pos as int));
            lemma_first_match_props(rem@, sep@);
        }
        match crate::search::find_sub(rem, sep) {
            Some(i) => {
                let frag = slice_to_vec(slice_subrange(rem, 0, i));
                proof {
                    assert(frag@ =~= rem@.take(i as int));
                    assert(rem@.skip(i + sep@.len()) =~= s@.skip(pos + i + sep@.len()));
                    assert(seq_views(acc@.push(frag)) =~= seq_views(acc@).push(frag@));
                    assert(seq_views(acc@) + (seq![frag@] + spec_split_sep(
                        rem@.skip(i + sep@.len()),
                        sep@,
                    )) =~= seq_views(acc@).push(frag@) + spec_split_sep(
                        rem@.skip(i + sep@.len()),
                        sep@,
                    ));
                }
                acc.push(frag);
                pos = pos + i + sep.len();
            },
            None => {
                let frag = slice_to_vec(rem);
                proof {
                    assert(seq_views(acc@.push(frag)) =~= seq_views(acc@).push(frag@));
                    assert(seq_views(acc@) + spec_split_sep(rem@, sep@) =~= seq_views(
                        acc@,
                    ).push(frag@));
                }
                acc.push(frag);
                return acc;
            },
        }
    }
}

/// Splits `s` on the non-empty separator into at most `maxcount`
/// fragments.
pub fn splitn_on_sep(s: &[u8], sep: &[u8], maxcount: usize) -> (r: Vec<Vec<u8>>)
    requires
        sep@.len() > 0,
    ensures
        seq_views(r@) == spec_splitn_sep(s@, sep@, maxcount as nat),
{
    let mut acc: Vec<Vec<u8>> = Vec::new();
    if maxcount == 0 {
        proof {
            assert(seq_views(acc@) =~= spec_splitn_sep(s@, sep@, 0));
        }
        return acc;
    }
    let n = s.len();
    let mut pos: usize = 0;
    let mut left: usize = maxcount;
    proof {
        assert(s@.skip(0) =~= s@);
    }
    loop
        invariant
            sep@.len() > 0,
            n == s@.len(),
            0 <= pos <= n,
            left >= 1,
            spec_splitn_sep(s@, sep@, maxcount as nat) == seq_views(acc@) + spec_splitn_sep(
                s@.skip(pos as int),
                sep@,
                left as nat,
            ),
        decreases n - pos,
    {
        let rem = slice_subrange(s, pos, n);
        proof {
            assert(rem@ =~= s@.skip(pos as int));
            lemma_first_match_props(rem@, sep@);
        }
        if left == 1 {
            let frag = slice_to_vec(rem);
            proof {
                assert(seq_views(acc@.push(frag)) =~= seq_views(acc@).push(frag@));
                assert(seq_views(acc@) + spec_splitn_sep(rem@, sep@, 1) =~= seq_views(
                    acc@,
                ).push(frag@));
            }
            acc.push(frag);
            return acc;
        }
        match crate::search::find_sub(rem, sep) {
            Some(i) => {
                let frag = slice_to_vec(slice_subrange(rem, 0, i));
                proof {
                    assert(frag@ =~= rem@.take(i as int));
                    assert(rem@.skip(i + sep@.len()) =~= s@.skip(pos + i + sep@.len()));
                    assert(seq_views(acc@.push(frag)) =~= seq_views(acc@).push(frag@));
                    assert(seq_views(acc@) + (seq![frag@] + spec_splitn_sep(
                        rem@.skip(i + sep@.len()),
                        sep@,
                        (left - 1) as nat,
                    )) =~= seq_views(acc@).push(frag@) + spec_splitn_sep(
                        rem@.skip(i + sep@.len()),
                        sep@,
                        (left - 1) as nat,
                    ));
                }
                acc.push(frag);
                pos = pos + i + sep.len();
                left = left - 1;
            },
            None => {
                let frag = slice_to_vec(rem);
                proof {
                    assert(seq_views(acc@.push(frag)) =~= seq_views(acc@).push(frag@));
                    assert(seq_views(acc@) + spec_splitn_sep(rem@, sep@, left as nat)
                        =~= seq_views(acc@).push(frag@));
                }
                acc.push(frag);
                return acc;
            },
        }
    }
}

/// The length of the run of whitespace at the head of `s`.
pub open spec fn leading_spaces(s: Seq<u8>) -> int
    decreases s.len(),
{
    if s.len() == 0 {
        0
    } else if !is_space(s[0]) {
        0
    } else {
        1 + leading_spaces(s.skip(1))
    }
}

/// The length of the run of non-whitespace at the head of `s` — the
/// first word.
pub open spec fn leading_word(s: Seq<u8>) -> int
    decreases s.len(),
{
    if s.len() == 0 {
        0
    } else if is_space(s[0]) {
        0
    } else {
        1 + leading_word(s.skip(1))
    }
}

/// The length of the run of whitespace at the end of `s`.
pub open spec fn trailing_spaces(s: Seq<u8>) -> int
    decreases s.len(),
{
    if s.len() == 0 {
        0
    } else if !is_space(s.last()) {
        0
    } else {
        1 + trailing_spaces(s.drop_last())
    }
}

/// The length of the run of non-whitespace at the end of `s` — the
/// last word.
pub open spec fn trailing_word(s: Seq<u8>) -> int
    decreases s.len(),
{
    if s.len() == 0 {
        0
    } else if is_space(s.last()) {
        0
    } else {
        1 + trailing_word(s.drop_last())
    }
}

/// `leading_spaces` is within bounds and pinned by a scan: every byte
/// before `i` is whitespace and the byte at `i`, if any, is not.
pub proof fn lemma_leading_spaces_is(s: Seq<u8>, i: int)
    requires
        0 <= i <= s.len(),
        forall|k: int| 0 <= k < i ==> is_space(#[trigger] s[k]),
        i < s.len() ==> !is_space(s[i]),
    ensures
        leading_spaces(s) == i,
    decreases s.len(),
{
    if s.len() > 0 && is_space(s[0]) {
        assert(forall|k: int| 0 <= k < s.len() - 1 ==> #[trigger] s.skip(1)[k] == s[k + 1]);
        lemma_leading_spaces_is(s.skip(1), i - 1);
    }
}

/// `leading_word` is within bounds and pinned by a scan.
pub proof fn lemma_leading_word_is(s: Seq<u8>, i: int)
    requires
        0 <= i <= s.len(),
        forall|k: int| 0 <= k < i ==> !is_space(#[trigger] s[k]),
        i < s.len() ==> is_space(s[i]),
    ensures
        leading_word(s) == i,
    decreases s.len(),
{
    if s.len() > 0 && !is_space(s[0]) {
        assert(forall|k: int| 0 <= k < s.len() - 1 ==> #[trigger] s.skip(1)[k] == s[k + 1]);
        lemma_leading_word_is(s.skip(1), i - 1);
    }
}

/// `trailing_spaces` is pinned by a scan from the right: everything
/// from `j` on is whitespace and the byte before `j`, if any, is not.
pub proof fn lemma_trailing_spaces_is(s: Seq<u8>, j: int)
    requires
        0 <= j <= s.len(),
        forall|k: int| j <= k < s.len() ==> is_space(#[trigger] s[k]),
        j > 0 ==> !is_space(s[j - 1]),
    ensures
        trailing_spaces(s) == s.len() - j,
    decreases s.len(),
{
    if s.len() > 0 && is_space(s.last()) {
        assert(forall|k: int| 0 <= k < s.len() - 1 ==> #[trigger] s.drop_last()[k] == s[k]);
        lemma_trailing_spaces_is(s.drop_last(), j);
    }
}

/// `trailing_word` is pinned by a scan from the right.
pub proof fn lemma_trailing_word_is(s: Seq<u8>, j: int)
    requires
        0 <= j <= s.len(),
        forall|k: int| j <= k < s.len() ==> !is_space(#[trigger] s[k]),
        j > 0 ==> is_space(s[j - 1]),
    ensures
        trailing_word(s) == s.len() - j,
    decreases s.len(),
{
    if s.len() > 0 && !is_space(s.last()) {
        assert(forall|k: int| 0 <= k < s.len() - 1 ==> #[trigger] s.drop_last()[k] == s[k]);
        lemma_trailing_word_is(s.drop_last(), j);
    }
}

/// `leading_spaces` never leaves the sequence, and what it skips is
/// whitespace while the byte it stops at is not.
pub proof fn lemma_leading_spaces_props(s: Seq<u8>)
    ensures
        0 <= leading_spaces(s) <= s.len(),
        leading_spaces(s) < s.len() ==> !is_space(s[leading_spaces(s)]),
    decreases s.len(),
{
    if s.len() > 0 && is_space(s[0]) {
        lemma_leading_spaces_props(s.skip(1));
    }
}

/// `leading_word` never leaves the sequence, and is positive when the
/// head is not whitespace.
pub proof fn lemma_leading_word_props(s: Seq<u8>)
    ensures
        0 <= leading_word(s) <= s.len(),
        s.len() > 0 && !is_space(s[0]) ==> leading_word(s) >= 1,
    decreases s.len(),
{
    if s.len() > 0 && !is_space(s[0]) {
        lemma_leading_word_props(s.skip(1));
    }
}

/// `trailing_spaces` never leaves the sequence, and the byte it stops
/// at, scanning from the right, is not whitespace.
pub proof fn lemma_trailing_spaces_props(s: Seq<u8>)
    ensures
        0 <= trailing_spaces(s) <= s.len(),
        trailing_spaces(s) < s.len() ==> !is_space(s[s.len() - trailing_spaces(s) - 1]),
    decreases s.len(),
{
    if s.len() > 0 && is_space(s.last()) {
        lemma_trailing_spaces_props(s.drop_last());
    }
}

/// `trailing_word` never leaves the sequence, and is positive when
/// the last byte is not whitespace.
pub proof fn lemma_trailing_word_props(s: Seq<u8>)
    ensures
        0 <= trailing_word(s) <= s.len(),
        s.len() > 0 && !is_space(s.last()) ==> trailing_word(s) >= 1,
    decreases s.len(),
{
    if s.len() > 0 && !is_space(s.last()) {
        lemma_trailing_word_props(s.drop_last());
    }
}

/// The fragments of `s` split on runs of whitespace, scanning from
/// the left. A non-negative `maxsplit` caps the number of cuts: once
/// it is exhausted the remainder — its leading whitespace stripped,
/// anything after kept verbatim — is the final fragment. A negative
/// `maxsplit` means unlimited. Leading and trailing whitespace never
/// produce empty fragments.
pub open spec fn spec_split_ws(s: Seq<u8>, maxsplit: int) -> Seq<Seq<u8>>
    decreases s.len(),
        via spec_split_ws_decreases
{
    let t = s.skip(leading_spaces(s));
    if t.len() == 0 {
        Seq::empty()
    } else if maxsplit == 0 {
        seq![t]
    } else {
        let w = leading_word(t);
        seq![t.take(w)] + spec_split_ws(t.skip(w), maxsplit - 1)
    }
}

#[via_fn]
proof fn spec_split_ws_decreases(s: Seq<u8>, maxsplit: int) {
    lemma_leading_spaces_props(s);
    let t = s.skip(leading_spaces(s));
    if t.len() != 0 {
        lemma_leading_word_props(t);
        assert(t[0] == s[leading_spaces(s)]);
    }
}

/// The fragments of `s` split on runs of whitespace, the cuts counted
/// from the right; fragments still appear in their original order. A
/// non-negative `maxsplit` caps the cuts: once it is exhausted the
/// remainder — its trailing whitespace stripped — is the final (that
/// is, leftmost) fragment.
pub open spec fn spec_rsplit_ws(s: Seq<u8>, maxsplit: int) -> Seq<Seq<u8>>
    decreases s.len(),
        via spec_rsplit_ws_decreases
{
    let t = s.take(s.len() - trailing_spaces(s));
    if t.len() == 0 {
        Seq::empty()
    } else if maxsplit == 0 {
        seq![t]
    } else {
        let w = trailing_word(t);
        spec_rsplit_ws(t.take(t.len() - w), maxsplit - 1) + seq![t.skip(t.len() - w)]
    }
}

#[via_fn]
proof fn spec_rsplit_ws_decreases(s: Seq<u8>, maxsplit: int) {
    lemma_trailing_spaces_props(s);
    let t = s.take(s.len() - trailing_spaces(s));
    if t.len() != 0 {
        lemma_trailing_word_props(t);
        assert(t.last() == s[s.len() - trailing_spaces(s) - 1]);
    }
}

/// Whether `b` is an ASCII whitespace byte, executably.
pub fn is_space_byte(b: u8) -> (r: bool)
    ensures
        r == is_space(b),
{
    b == 32 || b == 9 || b == 10 || b == 13 || b == 11 || b == 12
}

/// Splits on runs of whitespace from the left, `maxsplit` capping the
/// number of cuts (negative: unlimited).
pub fn py_split_whitespace(s: &[u8], maxsplit: isize) -> (r: Vec<Vec<u8>>)
    ensures
        seq_views(r@) == spec_split_ws(s@, maxsplit as int),
{
    let n = s.len();
    let mut acc: Vec<Vec<u8>> = Vec::new();
    let mut pos: usize = 0;
    let mut count: usize = 0;
    proof {
        assert(s@.skip(0) =~= s@);
    }
    loop
        invariant
            n == s@.len(),
            0 <= pos <= n,
            count <= pos,
            maxsplit >= 0 ==> count <= maxsplit as int,
            count == acc@.len(),
            spec_split_ws(s@, maxsplit as int) == seq_views(acc@) + spec_split_ws(
                s@.skip(pos as int),
                maxsplit - count,
            ),
        decreases n - pos,
    {
        let start = pos;
        let mut i = pos;
        while i < n && is_space_byte(s[i])
            invariant
                n == s@.len(),
                start <= i <= n,
                forall|k: int| start <= k < i ==> is_space(#[trigger] s@[k]),
            decreases n - i,
        {
            i += 1;
        }
        proof {
            let rem = s@.skip(start as int);
            assert(forall|k: int| 0 <= k < rem.len() ==> #[trigger] rem[k] == s@[k + start]);
            lemma_leading_spaces_is(rem, i - start);
            assert(rem.skip(i - start) =~= s@.skip(i as int));
        }
        if i >= n {
            proof {
                assert(seq_views(acc@) + spec_split_ws(s@.skip(pos as int), maxsplit - count)
                    =~= seq_views(acc@));
            }
            return acc;
        }
        if maxsplit >= 0 && count == maxsplit as usize {
            let frag = slice_to_vec(slice_subrange(s, i, n));
            proof {
                assert(frag@ =~= s@.skip(i as int));
                assert(seq_views(acc@.push(frag)) =~= seq_views(acc@).push(frag@));
                assert(seq_views(acc@) + spec_split_ws(s@.skip(pos as int), maxsplit - count)
                    =~= seq_views(acc@).push(frag@));
            }
            acc.push(frag);
            return acc;
        }
        let word_start = i;
        let mut j = i;
        while j < n && !is_space_byte(s[j])
            invariant
                n == s@.len(),
                word_start <= j <= n,
                forall|k: int| word_start <= k < j ==> !is_space(#[trigger] s@[k]),
            decreases n - j,
        {
            j += 1;
        }
        let frag = slice_to_vec(slice_subrange(s, word_start, j));
        proof {
            let t = s@.skip(word_start as int);
            assert(forall|k: int| 0 <= k < t.len() ==> #[trigger] t[k] == s@[k + word_start]);
            lemma_leading_word_is(t, j - word_start);
            assert(frag@ =~= t.take(j - word_start));
            assert(t.skip(j - word_start) =~= s@.skip(j as int));
            assert(seq_views(acc@.push(frag)) =~= seq_views(acc@).push(frag@));
            assert(seq_views(acc@) + (seq![frag@] + spec_split_ws(
                s@.skip(j as int),
                maxsplit - count - 1,
            )) =~= seq_views(acc@).push(frag@) + spec_split_ws(
                s@.skip(j as int),
                maxsplit - count - 1,
            ));
        }
        acc.push(frag);
        count += 1;
        pos = j;
    }
}

/// Splits on runs of whitespace, the cuts counted from the right,
/// `maxsplit` capping them (negative: unlimited); fragments come back
/// in their original order.
pub fn py_rsplit_whitespace(s: &[u8], maxsplit: isize) -> (r: Vec<Vec<u8>>)
    ensures
        seq_views(r@) == spec_rsplit_ws(s@, maxsplit as int),
{
    let mut acc: Vec<Vec<u8>> = Vec::new();
    let mut pos: usize = s.len();
    let mut count: usize = 0;
    proof {
        assert(s@.take(s@.len() as int) =~= s@);
    }
    loop
        invariant
            0 <= pos <= s@.len(),
            count <= s@.len() - pos,
            maxsplit >= 0 ==> count <= maxsplit as int,
            count == acc@.len(),
            spec_rsplit_ws(s@, maxsplit as int) == spec_rsplit_ws(
                s@.take(pos as int),
                maxsplit - count,
            ) + seq_views(acc@),
        decreases pos,
    {
        let mut i = pos;
        while i > 0 && is_space_byte(s[i - 1])
            invariant
                0 <= i <= pos <= s@.len(),
                forall|k: int| i <= k < pos ==> is_space(#[trigger] s@[k]),
            decreases i,
        {
            i -= 1;
        }
        proof {
            let rem = s@.take(pos as int);
            assert(forall|k: int| 0 <= k < rem.len() ==> #[trigger] rem[k] == s@[k]);
            lemma_trailing_spaces_is(rem, i as int);
            assert(rem.take(i as int) =~= s@.take(i as int));
        }
        if i == 0 {
            proof {
                assert(spec_rsplit_ws(s@.take(pos as int), maxsplit - count) + seq_views(acc@)
                    =~= seq_views(acc@));
            }
            return acc;
        }
        if maxsplit >= 0 && count == maxsplit as usize {
            let frag = slice_to_vec(slice_subrange(s, 0, i));
            proof {
                assert(frag@ =~= s@.take(i as int));
                assert(seq_views(acc@.insert(0, frag)) =~= seq_views(acc@).insert(0, frag@));
                assert((seq![frag@] + seq_views(acc@)) =~= seq_views(acc@).insert(0, frag@));
            }
            acc.insert(0, frag);
            return acc;
        }
        let word_end = i;
        let mut j = i;
        while j > 0 && !is_space_byte(s[j - 1])
            invariant
                0 <= j <= word_end <= s@.len(),
                forall|k: int| j <= k < word_end ==> !is_space(#[trigger] s@[k]),
            decreases j,
        {
            j -= 1;
        }
        let frag = slice_to_vec(slice_subrange(s, j, word_end));
        proof {
            let t = s@.take(word_end as int);
            assert(forall|k: int| 0 <= k < t.len() ==> #[trigger] t[k] == s@[k]);
            lemma_trailing_word_is(t, j as int);
            assert(frag@ =~= t.skip(j as int));
            assert(t.take(j as int) =~= s@.take(j as int));
            assert(seq_views(acc@.insert(0, frag)) =~= seq_views(acc@).insert(0, frag@));
            assert((spec_rsplit_ws(s@.take(j as int), maxsplit - count - 1) + seq![frag@])
                + seq_views(acc@) =~= spec_rsplit_ws(s@.take(j as int), maxsplit - count - 1)
                + seq_views(acc@).insert(0, frag@));
        }
        acc.insert(0, frag);
        count += 1;
        pos = j;
    }
}

/// What `py_split` produces for validated arguments: an unlimited or
/// capped separator split, or a whitespace split honoring `maxsplit`.
pub open spec fn spec_py_split(s: Seq<u8>, sep: Option<Seq<u8>>, maxsplit: int) -> Seq<Seq<u8>> {
    match sep {
        Some(p) => if maxsplit < 0 {
            spec_split_sep(s, p)
        } else {
            spec_splitn_sep(s, p, (maxsplit + 1) as nat)
        },
        None => spec_split_ws(s, maxsplit),
    }
}

/// Splits `s` as the arguments direct: on the separator when one is
/// supplied — unlimited for a negative `maxsplit`, otherwise capped
/// at `maxsplit + 1` fragments — and on runs of whitespace when none
/// is. An empty separator is rejected with a value error before any
/// work.
pub fn py_split(s: &[u8], args: SplitArgs) -> (r: Result<Vec<Vec<u8>>, AnyStrError>)
    ensures
        match r {
            Ok(frags) => {
                &&& (args.sep matches Some(p) ==> p@.len() > 0)
                &&& seq_views(frags@) == spec_py_split(
                    s@,
                    match args.sep {
                        Some(p) => Some(p@),
                        None => None,
                    },
                    args.maxsplit as int,
                )
            },
            Err(e) => {
                &&& args.sep matches Some(p) && p@.len() == 0
                &&& e is ValueError
                &&& e.spec_message() == "empty separator"@
            },
        },
{
    let (sep, maxsplit) = match args.get_value() {
        Ok(v) => v,
        Err(e) => {
            return Err(e);
        },
    };
    let splits = match sep {
        Some(pattern) => {
            if maxsplit < 0 {
                split_on_sep(s, pattern.as_slice())
            } else {
                splitn_on_sep(s, pattern.as_slice(), (maxsplit as usize) + 1)
            }
        },
        None => py_split_whitespace(s, maxsplit),
    };
    Ok(splits)
}

} // verus!
