//! Joining a fallible list of pieces with a separator, and one-shot
//! partitioning around the first occurrence of a separator.

use vstd::prelude::*;
use vstd::slice::{slice_subrange, slice_to_vec};
use crate::buffer::AnyStrContainer;
use crate::errors::{AnyStrError, value_error};
use crate::search::{first_match, lemma_first_match_props};

verus! {

/// The pieces joined with one copy of `sep` between consecutive
/// pieces and none at either end.
pub open spec fn spec_join(pieces: Seq<Seq<u8>>, sep: Seq<u8>) -> Seq<u8>
    decreases pieces.len(),
{
    if pieces.len() == 0 {
        Seq::empty()
    } else if pieces.len() == 1 {
        pieces[0]
    } else {
        spec_join(pieces.drop_last(), sep) + sep + pieces.last()
    }
}

/// Whether position `k` holds the first failing piece of `items`:
/// it is an error and everything before it succeeded.
pub open spec fn first_err_at<E>(items: Seq<Result<Vec<u8>, E>>, k: int) -> bool {
    &&& 0 <= k < items.len()
    &&& items[k] is Err
    &&& forall|j: int| 0 <= j < k ==> items[j] is Ok
}

/// Each piece of a fallible list read as its byte sequence, the
/// successful ones by their contents.
pub open spec fn ok_views<E>(items: Seq<Result<Vec<u8>, E>>) -> Seq<Seq<u8>> {
    items.map_values(|it: Result<Vec<u8>, E>| it->Ok_0@)
}

/// Joins the successful pieces of `items` with the separator `sep`,
/// draining the list as the original's iterator would be consumed.
/// An empty list yields an empty buffer; otherwise the first piece
/// seeds the buffer and each later piece is preceded by one copy of
/// the separator. The first failing piece — earlier pieces all
/// succeeded — short-circuits: its error is returned and no partial
/// result survives.
pub fn py_join<E>(sep: &[u8], items: &mut Vec<Result<Vec<u8>, E>>) -> (r: Result<Vec<u8>, E>)
    ensures
        final(items)@.len() == 0,
        match r {
            Ok(joined) => {
                &&& forall|k: int| 0 <= k < old(items)@.len() ==> old(items)@[k] is Ok
                &&& joined@ == spec_join(ok_views(old(items)@), sep@)
            },
            Err(e) => exists|k: int|
                #[trigger] first_err_at(old(items)@, k) && e == old(items)@[k]->Err_0,
        },
{
    let ghost orig = items@;
    let ghost pieces = ok_views(orig);
    let mut joined: Vec<u8> = Vec::new();
    let mut idx: usize = 0;
    let n = items.len();
    while idx < n
        invariant
            orig == old(items)@,
            pieces == ok_views(orig),
            n == orig.len(),
            0 <= idx <= n,
            items@ == orig.skip(idx as int),
            forall|j: int| 0 <= j < idx ==> orig[j] is Ok,
            joined@ == spec_join(pieces.take(idx as int), sep@),
        decreases n - idx,
    {
        let it = items.remove(0);
        proof {
            assert(it == orig.skip(idx as int)[0]);
            assert(orig.skip(idx as int).remove(0) =~= orig.skip(idx + 1));
        }
        match it {
            Ok(elem) => {
                if idx > 0 {
                    joined.push_str(sep);
                }
                joined.push_str(elem.as_slice());
                proof {
                    assert(pieces.take(idx + 1).drop_last() =~= pieces.take(idx as int));
                    assert(pieces.take(idx + 1).last() == pieces[idx as int]);
                    assert(pieces[idx as int] == orig[idx as int]->Ok_0@);
                }
            },
            Err(e) => {
                items.clear();
                proof {
                    assert(first_err_at(old(items)@, idx as int));
                    assert(e == old(items)@[idx as int]->Err_0);
                }
                return Err(e);
            },
        }
        idx += 1;
    }
    proof {
        assert(pieces.take(n as int) =~= pieces);
    }
    Ok(joined)
}

/// What partitioning yields: the head before the first occurrence of
/// the separator, whether an occurrence was found, and the tail after
/// it — or the whole sequence, no match, and an empty tail.
pub open spec fn spec_partition(s: Seq<u8>, sub: Seq<u8>) -> (Seq<u8>, bool, Seq<u8>) {
    let f = first_match(s, sub);
    if f >= 0 {
        (s.take(f), true, s.skip(f + sub.len()))
    } else {
        (s, false, Seq::empty())
    }
}

/// Splits `s` around the first occurrence of the non-empty separator
/// `sub` into `(head, matched, tail)`; without an occurrence the head
/// is the whole sequence, `matched` is false and the tail is empty.
/// An empty separator is a value error, raised before any work.
pub fn py_partition(s: &[u8], sub: &[u8]) -> (r: Result<(Vec<u8>, bool, Vec<u8>), AnyStrError>)
    ensures
        match r {
            Ok((front, has_mid, back)) => {
                &&& sub@.len() > 0
                &&& (front@, has_mid, back@) == spec_partition(s@, sub@)
            },
            Err(e) => {
                &&& sub@.len() == 0
                &&& e is ValueError
                &&& e.spec_message() == "empty separator"@
            },
        },
{
    if sub.len() == 0 {
        return Err(value_error("empty separator"));
    }
    proof {
        lemma_first_match_props(s@, sub@);
    }
    let n = s.len();
    match crate::search::find_sub(s, sub) {
        Some(i) => {
            let front = slice_to_vec(slice_subrange(s, 0, i));
            let back = slice_to_vec(slice_subrange(s, i + sub.len(), n));
            proof {
                assert(front@ =~= s@.take(i as int));
                assert(back@ =~= s@.skip(i + sub@.len()));
            }
            Ok((front, true, back))
        },
        None => {
            let front = slice_to_vec(s);
            let back: Vec<u8> = Vec::new();
            Ok((front, false, back))
        },
    }
}

} // verus!
