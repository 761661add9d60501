//! The growable accumulator used to assemble new sequences: created
//! empty or pre-sized, appended to, and handed back to the caller.

use vstd::prelude::*;

verus! {

/// Capability interface of a growable buffer that accumulates a new
/// byte sequence.
pub trait AnyStrContainer: Sized {
    /// The bytes accumulated so far.
    spec fn contents(&self) -> Seq<u8>;

    /// An empty buffer.
    fn new() -> (r: Self)
        ensures
            r.contents() == Seq::<u8>::empty(),
    ;

    /// An empty buffer pre-sized by a capacity hint; the hint does not
    /// affect the contents.
    fn with_capacity(capacity: usize) -> (r: Self)
        ensures
            r.contents() == Seq::<u8>::empty(),
    ;

    /// Appends a whole sequence.
    fn push_str(&mut self, s: &[u8])
        ensures
            final(self).contents() == old(self).contents() + s@,
    ;
}

impl AnyStrContainer for Vec<u8> {
    open spec fn contents(&self) -> Seq<u8> {
        self@
    }

    fn new() -> (r: Self)
        ensures
            r.contents() == Seq::<u8>::empty(),
    {
        Vec::new()
    }

    fn with_capacity(capacity: usize) -> (r: Self)
        ensures
            r.contents() == Seq::<u8>::empty(),
    {
        Vec::with_capacity(capacity)
    }

    fn push_str(&mut self, s: &[u8])
        ensures
            final(self).contents() == old(self).contents() + s@,
    {
        let mut i: usize = 0;
        while i < s.len()
            invariant
                0 <= i <= s@.len(),
                self@ == old(self)@ + s@.take(i as int),
            decreases s@.len() - i,
        {
            self.push(s[i]);
            proof {
                assert(old(self)@ + s@.take(i + 1) =~= (old(self)@ + s@.take(i as int)).push(
                    s@[i as int],
                ));
            }
            i += 1;
        }
        proof {
            assert(s@.take(s@.len() as int) =~= s@);
        }
    }
}

/// The mathematical contents of a list of buffers: each buffer read
/// as its byte sequence.
pub open spec fn seq_views(v: Seq<Vec<u8>>) -> Seq<Seq<u8>> {
    v.map_values(|x: Vec<u8>| x@)
}

/// Appends `count` copies of the element `fill`.
pub fn push_repeated(v: &mut Vec<u8>, fill: u8, count: usize)
    requires
        old(v)@.len() + count <= usize::MAX,
    ensures
        final(v)@ == old(v)@ + Seq::new(count as nat, |i: int| fill),
{
    let mut i: usize = 0;
    while i < count
        invariant
            0 <= i <= count,
            v@ == old(v)@ + Seq::new(i as nat, |j: int| fill),
        decreases count - i,
    {
        v.push(fill);
        proof {
            assert(old(v)@ + Seq::new((i + 1) as nat, |j: int| fill) =~= (old(v)@ + Seq::new(
                i as nat,
                |j: int| fill,
            )).push(fill));
        }
        i += 1;
    }
}

} // verus!
