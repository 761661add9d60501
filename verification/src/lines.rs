//! Byte-oriented line splitting: one scan recognizing `\n`, bare
//! `\r`, and the two-byte `\r\n`, never double-counting the latter.

use vstd::prelude::*;
use vstd::slice::{slice_subrange, slice_to_vec};
use crate::buffer::seq_views;
use crate::args::SplitLinesArgs;

verus! {

/// Whether `b` opens a line terminator: line feed or carriage return.
pub open spec fn is_term(b: u8) -> bool {
    b == 10 || b == 13
}

/// The position of the first line-terminator byte in `s`, or the
/// length of `s` if there is none.
pub open spec fn first_term(s: Seq<u8>) -> int
    decreases s.len(),
{
    if s.len() == 0 {
        0
    } else if is_term(s[0]) {
        0
    } else {
        1 + first_term(s.skip(1))
    }
}

/// `first_term` is within bounds, everything before it is ordinary,
/// and it lands on a terminator when it is not the length.
pub proof fn lemma_first_term_props(s: Seq<u8>)
    ensures
        0 <= first_term(s) <= s.len(),
        forall|k: int| 0 <= k < first_term(s) ==> !is_term(#[trigger] s[k]),
        first_term(s) < s.len() ==> is_term(s[first_term(s)]),
    decreases s.len(),
{
    if s.len() > 0 && !is_term(s[0]) {
        lemma_first_term_props(s.skip(1));
        assert forall|k: int| 0 <= k < first_term(s) implies !is_term(#[trigger] s[k]) by {
            if k > 0 {
                assert(s.skip(1)[k - 1] == s[k]);
                assert(!is_term(s.skip(1)[k - 1]));
            }
        }
    }
}

/// `first_term` is pinned by a scan.
pub proof fn lemma_first_term_is(s: Seq<u8>, i: int)
    requires
        0 <= i <= s.len(),
        forall|k: int| 0 <= k < i ==> !is_term(#[trigger] s[k]),
        i < s.len() ==> is_term(s[i]),
    ensures
        first_term(s) == i,
    decreases s.len(),
{
    if s.len() > 0 && !is_term(s[0]) {
        assert(forall|k: int| 0 <= k < s.len() - 1 ==> #[trigger] s.skip(1)[k] == s[k + 1]);
        lemma_first_term_is(s.skip(1), i - 1);
    }
}

/// The line fragments of `s`. Each fragment runs from the previous
/// cut to its terminator — `\r\n` taken as one two-byte terminator —
/// and carries the terminator bytes only when `keep` is set; a
/// trailing unterminated run forms one final fragment, and an empty
/// input yields no fragments at all.
pub open spec fn spec_splitlines(s: Seq<u8>, keep: bool) -> Seq<Seq<u8>>
    decreases s.len(),
        via spec_splitlines_decreases
{
    if s.len() == 0 {
        Seq::empty()
    } else {
        let i = first_term(s);
        if i == s.len() {
            seq![s]
        } else {
            let t: int = if s[i] == 13 && i + 1 < s.len() && s[i + 1] == 10 {
                2
            } else {
                1
            };
            let e: int = if keep {
                t
            } else {
                0
            };
            seq![s.take(i + e)] + spec_splitlines(s.skip(i + t), keep)
        }
    }
}

#[via_fn]
proof fn spec_splitlines_decreases(s: Seq<u8>, keep: bool) {
    lemma_first_term_props(s);
}

/// Splits `s` into lines at `\n`, `\r`, and `\r\n` terminators,
/// keeping the terminators in the fragments only when the argument
/// says so. An empty input yields no fragments, and an input that
/// does not end in a terminator contributes its tail as a final
/// fragment.
pub fn py_bytes_splitlines(s: &[u8], options: SplitLinesArgs) -> (r: Vec<Vec<u8>>)
    ensures
        seq_views(r@) == spec_splitlines(s@, options.keepends),
{
    let keep = options.keepends;
    let n = s.len();
    let mut elements: Vec<Vec<u8>> = Vec::new();
    let mut last_i: usize = 0;
    let mut i: usize = 0;
    proof {
        assert(s@.skip(0) =~= s@);
    }
    while i < n
        invariant
            n == s@.len(),
            0 <= last_i <= i <= n,
            forall|k: int| last_i <= k < i ==> !is_term(#[trigger] s@[k]),
            spec_splitlines(s@, keep) == seq_views(elements@) + spec_splitlines(
                s@.skip(last_i as int),
                keep,
            ),
        decreases n - i,
    {
        let ch = s[i];
        if ch != 10 && ch != 13 {
            i += 1;
            continue ;
        }
        let is_rn = ch == 13 && i + 1 < n && s[i + 1] == 10;
        let (end_len, i_diff): (usize, usize) = if is_rn {
            (if keep {
                2
            } else {
                0
            }, 2)
        } else {
            (if keep {
                1
            } else {
                0
            }, 1)
        };
        let frag = slice_to_vec(slice_subrange(s, last_i, i + end_len));
        proof {
            let rem = s@.skip(last_i as int);
            assert(forall|k: int| 0 <= k < rem.len() ==> #[trigger] rem[k] == s@[k + last_i]);
            lemma_first_term_is(rem, i - last_i);
            let ri = i - last_i;
            let t: int = if rem[ri] == 13 && ri + 1 < rem.len() && rem[ri + 1] == 10 {
                2
            } else {
                1
            };
            assert(t == i_diff as int);
            assert(frag@ =~= rem.take(ri + end_len));
            assert(rem.skip(ri + t) =~= s@.skip(last_i + ri + t));
            assert(seq_views(elements@.push(frag)) =~= seq_views(elements@).push(frag@));
            assert(seq_views(elements@) + (seq![frag@] + spec_splitlines(
                rem.skip(ri + t),
                keep,
            )) =~= seq_views(elements@).push(frag@) + spec_splitlines(rem.skip(ri + t), keep));
        }
        elements.push(frag);
        last_i = i + i_diff;
        i = i + i_diff;
    }
    if last_i != n {
        let frag = slice_to_vec(slice_subrange(s, last_i, n));
        proof {
            let rem = s@.skip(last_i as int);
            assert(forall|k: int| 0 <= k < rem.len() ==> #[trigger] rem[k] == s@[k + last_i]);
            lemma_first_term_is(rem, n - last_i);
            assert(frag@ =~= rem);
            assert(seq_views(elements@.push(frag)) =~= seq_views(elements@).push(frag@));
            assert(seq_views(elements@) + spec_splitlines(rem, keep) =~= seq_views(
                elements@,
            ).push(frag@));
        }
        elements.push(frag);
    } else {
        proof {
            assert(s@.skip(last_i as int).len() == 0);
            assert(seq_views(elements@) + spec_splitlines(s@.skip(last_i as int), keep)
                =~= seq_views(elements@));
        }
    }
    elements
}

} // verus!
