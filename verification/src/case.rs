//! Case classification over caller-supplied predicates, and the
//! delegation point for percent-style formatting.

use vstd::prelude::*;

verus! {

/// Scans all elements against a caller-supplied predicate pair: any
/// element of the opposite case makes the classification false at
/// once; otherwise it is true exactly when at least one element of
/// the target case was seen. An all-caseless sequence classifies as
/// false.
///
/// The contract speaks through the predicates' own postconditions:
/// with deterministic predicates it pins the result exactly.
pub fn py_iscase<F: Fn(u8) -> bool, G: Fn(u8) -> bool>(s: &[u8], is_case: F, is_opposite: G) -> (r:
    bool)
    requires
        forall|c: u8| #[trigger] is_case.requires((c,)),
        forall|c: u8| #[trigger] is_opposite.requires((c,)),
    ensures
        r ==> (forall|k: int|
            0 <= k < s@.len() ==> is_opposite.ensures((#[trigger] s@[k],), false)) && (exists|
            k: int,
        |
            0 <= k < s@.len() && is_case.ensures((#[trigger] s@[k],), true)),
        !r ==> (exists|k: int| 0 <= k < s@.len() && is_opposite.ensures((#[trigger] s@[k],), true))
            || (forall|k: int| 0 <= k < s@.len() ==> is_case.ensures((#[trigger] s@[k],), false)),
{
    let mut cased = false;
    let mut i: usize = 0;
    let ghost n = s@.len();
    while i < s.len()
        invariant
            n == s@.len(),
            0 <= i <= n,
            forall|c: u8| #[trigger] is_case.requires((c,)),
            forall|c: u8| #[trigger] is_opposite.requires((c,)),
            forall|k: int| 0 <= k < i ==> is_opposite.ensures((#[trigger] s@[k],), false),
            cased ==> exists|k: int| 0 <= k < i && is_case.ensures((#[trigger] s@[k],), true),
            !cased ==> forall|k: int| 0 <= k < i ==> is_case.ensures((#[trigger] s@[k],), false),
        decreases s@.len() - i,
    {
        let c = s[i];
        if is_opposite(c) {
            return false;
        } else if !cased && is_case(c) {
            cased = true;
        }
        i += 1;
    }
    cased
}

/// Hands a textual format template to the caller-supplied
/// percent-style formatter — an external collaborator whose grammar
/// is out of scope here — and returns whatever it produces: a
/// formatted string or its formatting failure.
pub fn py_cformat<E, F: Fn(&str) -> Result<String, E>>(format_string: &str, cformat: &F) -> (r:
    Result<String, E>)
    requires
        cformat.requires((format_string,)),
    ensures
        cformat.ensures((format_string,), r),
{
    cformat(format_string)
}

} // verus!
