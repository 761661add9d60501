//! Concatenation, padding, centering and zero-fill: every operation
//! here allocates and returns a new buffer.

use vstd::prelude::*;
use vstd::slice::slice_subrange;
use crate::buffer::{AnyStrContainer, push_repeated};
use crate::coerce::{signed_width_to_usize, spec_unsigned_width};

verus! {

/// A run of `count` copies of `fill`.
pub open spec fn spec_repeated(fill: u8, count: nat) -> Seq<u8> {
    Seq::new(count, |i: int| fill)
}

/// The concatenation of two sequences, in a fresh buffer.
pub fn py_add<C: AnyStrContainer>(a: &[u8], b: &[u8]) -> (r: C)
    requires
        a@.len() + b@.len() <= usize::MAX,
    ensures
        r.contents() == a@ + b@,
{
    let mut new = C::with_capacity(a.len() + b.len());
    new.push_str(a);
    new.push_str(b);
    proof {
        assert(Seq::<u8>::empty() + a@ + b@ =~= a@ + b@);
    }
    new
}

/// `s` with `left` copies of `fillchar` before it and `right` copies
/// after it, in a fresh buffer.
pub fn py_pad(s: &[u8], left: usize, right: usize, fillchar: u8) -> (r: Vec<u8>)
    requires
        left + right + s@.len() <= usize::MAX,
    ensures
        r@ == spec_repeated(fillchar, left as nat) + s@ + spec_repeated(fillchar, right as nat),
        r@.len() == left + right + s@.len(),
{
    let mut u: Vec<u8> = Vec::with_capacity(left + right + s.len());
    push_repeated(&mut u, fillchar, left);
    u.push_str(s);
    push_repeated(&mut u, fillchar, right);
    proof {
        assert(Seq::<u8>::empty() + spec_repeated(fillchar, left as nat) + s@ + spec_repeated(
            fillchar,
            right as nat,
        ) =~= spec_repeated(fillchar, left as nat) + s@ + spec_repeated(fillchar, right as nat));
    }
    u
}

/// How much of the margin goes on the left when centering: half of it,
/// plus one extra unit exactly when both the margin and the width are
/// odd. This bitwise tie-break is part of the operation's semantics.
pub open spec fn spec_center_left(width: usize, len: usize) -> usize
    recommends
        len <= width,
{
    let marg = (width - len) as usize;
    (marg / 2 + (marg & width & 1)) as usize
}

/// `s` centered in a field of `width` elements, the margin split by
/// the parity rule of `spec_center_left`; `len` is the element length
/// of `s`, which the caller guarantees is at most `width`.
pub fn py_center(s: &[u8], width: usize, fillchar: u8, len: usize) -> (r: Vec<u8>)
    requires
        len == s@.len(),
        len <= width,
    ensures
        ({
            let l = spec_center_left(width, len);
            r@ == spec_repeated(fillchar, l as nat) + s@ + spec_repeated(
                fillchar,
                (width - len - l) as nat,
            )
        }),
        r@.len() == width,
{
    let marg: usize = width - len;
    let extra: usize = marg & width & 1;
    proof {
        let m = marg;
        let w = width;
        assert((m & w & 1) <= 1) by (bit_vector);
        assert((m & w & 1 == 1) ==> (m % 2 == 1)) by (bit_vector);
        assert(marg % 2 == 1 ==> marg / 2 + 1 <= marg);
    }
    let left: usize = marg / 2 + extra;
    py_pad(s, left, marg - left, fillchar)
}

/// `s` left-justified: all the padding goes on the right.
pub fn py_ljust(s: &[u8], width: usize, fillchar: u8, len: usize) -> (r: Vec<u8>)
    requires
        len == s@.len(),
        len <= width,
    ensures
        r@ == s@ + spec_repeated(fillchar, (width - len) as nat),
        r@.len() == width,
{
    let r = py_pad(s, 0, width - len, fillchar);
    proof {
        assert(spec_repeated(fillchar, 0) + s@ + spec_repeated(fillchar, (width - len) as nat)
            =~= s@ + spec_repeated(fillchar, (width - len) as nat));
    }
    r
}

/// `s` right-justified: all the padding goes on the left.
pub fn py_rjust(s: &[u8], width: usize, fillchar: u8, len: usize) -> (r: Vec<u8>)
    requires
        len == s@.len(),
        len <= width,
    ensures
        r@ == spec_repeated(fillchar, (width - len) as nat) + s@,
        r@.len() == width,
{
    let r = py_pad(s, width - len, 0, fillchar);
    proof {
        assert(spec_repeated(fillchar, (width - len) as nat) + s@ + spec_repeated(fillchar, 0)
            =~= spec_repeated(fillchar, (width - len) as nat) + s@);
    }
    r
}

/// A numeral zero-filled to `width`: if `width` exceeds the length,
/// `'0'` digits are inserted immediately after a leading `'+'` or
/// `'-'` sign — never in front of it — so the signed numeral still
/// reads correctly; otherwise the bytes are returned unchanged.
pub open spec fn spec_zfill(s: Seq<u8>, width: nat) -> Seq<u8> {
    if width <= s.len() {
        s
    } else if s.len() > 0 && (s[0] == 43 || s[0] == 45) {
        s.take(1) + spec_repeated(48, (width - s.len()) as nat) + s.skip(1)
    } else {
        spec_repeated(48, (width - s.len()) as nat) + s
    }
}

/// Zero-fills a numeral to `width` bytes, inserting `'0'` after any
/// leading sign; returns a copy unchanged when the width is already
/// satisfied.
pub fn zfill(bytes: &[u8], width: usize) -> (r: Vec<u8>)
    ensures
        r@ == spec_zfill(bytes@, width as nat),
{
    if width <= bytes.len() {
        let mut r: Vec<u8> = Vec::with_capacity(bytes.len());
        r.push_str(bytes);
        proof {
            assert(Seq::<u8>::empty() + bytes@ =~= bytes@);
        }
        r
    } else {
        let mut r: Vec<u8> = Vec::with_capacity(width);
        let has_sign: bool = bytes.len() > 0 && (bytes[0] == 43 || bytes[0] == 45);
        let rest: &[u8] = if has_sign {
            r.push(bytes[0]);
            slice_subrange(bytes, 1, bytes.len())
        } else {
            bytes
        };
        push_repeated(&mut r, 48, width - bytes.len());
        r.push_str(rest);
        proof {
            if has_sign {
                assert(bytes@.take(1) =~= Seq::<u8>::empty().push(bytes@[0]));
                assert(bytes@.subrange(1, bytes@.len() as int) =~= bytes@.skip(1));
                assert(Seq::<u8>::empty().push(bytes@[0]) + spec_repeated(
                    48,
                    (width - bytes@.len()) as nat,
                ) + bytes@.skip(1) =~= spec_zfill(bytes@, width as nat));
            } else {
                assert(Seq::<u8>::empty() + spec_repeated(48, (width - bytes@.len()) as nat)
                    + bytes@ =~= spec_zfill(bytes@, width as nat));
            }
        }
        r
    }
}

/// Zero-fill with a signed target width: a negative width coerces to
/// zero (so the bytes come back unchanged), never an error.
pub fn py_zfill(s: &[u8], width: isize) -> (r: Vec<u8>)
    ensures
        r@ == spec_zfill(s@, spec_unsigned_width(width) as nat),
{
    let w: usize = signed_width_to_usize(width);
    zfill(s, w)
}

} // verus!
