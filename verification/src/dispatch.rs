//! Tuple-aware predicate dispatch: a value is either a single
//! candidate of the expected type, a (possibly nested) tuple of such
//! values, or something else entirely — which is a type error.

use vstd::prelude::*;
use crate::errors::{AnyStrError, str_concat};

verus! {

/// An affix argument as this engine reads it: a single candidate of
/// the expected type `T`, a tuple of further affix values (tuples may
/// nest arbitrarily), or a value of some other runtime type, carried
/// here by that type's name for the error message.
pub enum AffixValue<T> {
    Single(T),
    Tuple(Vec<AffixValue<T>>),
    Other(String),
}

/// Every `Single` candidate in the value, in traversal order.
pub open spec fn affix_leaves<T>(v: AffixValue<T>) -> Seq<T>
    decreases v,
{
    match v {
        AffixValue::Single(t) => seq![t],
        AffixValue::Tuple(elems) => affix_leaves_list(elems@),
        AffixValue::Other(_) => Seq::empty(),
    }
}

/// The candidates of a list of affix values, in order.
pub open spec fn affix_leaves_list<T>(s: Seq<AffixValue<T>>) -> Seq<T>
    decreases s,
{
    if s.len() == 0 {
        Seq::empty()
    } else {
        affix_leaves(s[0]) + affix_leaves_list(s.skip(1))
    }
}

/// Whether the value holds, anywhere in its nesting, something that
/// is neither a candidate nor a tuple.
pub open spec fn affix_has_other<T>(v: AffixValue<T>) -> bool
    decreases v,
{
    match v {
        AffixValue::Single(_) => false,
        AffixValue::Tuple(elems) => affix_has_other_list(elems@),
        AffixValue::Other(_) => true,
    }
}

/// Whether any value of the list holds something of another type.
pub open spec fn affix_has_other_list<T>(s: Seq<AffixValue<T>>) -> bool
    decreases s,
{
    if s.len() == 0 {
        false
    } else {
        affix_has_other(s[0]) || affix_has_other_list(s.skip(1))
    }
}

/// The runtime type names of the foreign values, in traversal order.
pub open spec fn affix_others<T>(v: AffixValue<T>) -> Seq<Seq<char>>
    decreases v,
{
    match v {
        AffixValue::Single(_) => Seq::empty(),
        AffixValue::Tuple(elems) => affix_others_list(elems@),
        AffixValue::Other(name) => seq![name@],
    }
}

/// The foreign type names of a list of affix values, in order.
pub open spec fn affix_others_list<T>(s: Seq<AffixValue<T>>) -> Seq<Seq<char>>
    decreases s,
{
    if s.len() == 0 {
        Seq::empty()
    } else {
        affix_others(s[0]) + affix_others_list(s.skip(1))
    }
}

/// A candidate is in a list's leaves exactly when it is in some
/// member's leaves.
pub proof fn lemma_leaves_list_contains<T>(s: Seq<AffixValue<T>>, t: T)
    ensures
        affix_leaves_list(s).contains(t) <==> (exists|i: int|
            0 <= i < s.len() && affix_leaves(#[trigger] s[i]).contains(t)),
    decreases s,
{
    if s.len() > 0 {
        lemma_leaves_list_contains(s.skip(1), t);
        if affix_leaves_list(s).contains(t) {
            if affix_leaves(s[0]).contains(t) {
            } else {
                assert(affix_leaves_list(s.skip(1)).contains(t)) by {
                    let j = choose|j: int|
                        0 <= j < affix_leaves_list(s).len() && affix_leaves_list(s)[j] == t;
                    assert(affix_leaves_list(s.skip(1))[j - affix_leaves(s[0]).len()] == t);
                }
                let i = choose|i: int|
                    0 <= i < s.skip(1).len() && affix_leaves(#[trigger] s.skip(1)[i]).contains(t);
                assert(s.skip(1)[i] == s[i + 1]);
            }
        }
        if exists|i: int| 0 <= i < s.len() && affix_leaves(#[trigger] s[i]).contains(t) {
            let i = choose|i: int| 0 <= i < s.len() && affix_leaves(#[trigger] s[i]).contains(t);
            if i == 0 {
                let j = choose|j: int|
                    0 <= j < affix_leaves(s[0]).len() && affix_leaves(s[0])[j] == t;
                assert(affix_leaves_list(s)[j] == t);
            } else {
                assert(s.skip(1)[i - 1] == s[i]);
                assert(affix_leaves_list(s.skip(1)).contains(t));
                let j = choose|j: int|
                    0 <= j < affix_leaves_list(s.skip(1)).len() && affix_leaves_list(s.skip(1))[j]
                        == t;
                assert(affix_leaves_list(s)[j + affix_leaves(s[0]).len()] == t);
            }
        }
    }
}

/// A list holds a foreign value exactly when some member does.
pub proof fn lemma_has_other_list<T>(s: Seq<AffixValue<T>>)
    ensures
        affix_has_other_list(s) <==> (exists|i: int|
            0 <= i < s.len() && affix_has_other(#[trigger] s[i])),
    decreases s,
{
    if s.len() > 0 {
        lemma_has_other_list(s.skip(1));
        if affix_has_other_list(s) {
            if !affix_has_other(s[0]) {
                let i = choose|i: int|
                    0 <= i < s.skip(1).len() && affix_has_other(#[trigger] s.skip(1)[i]);
                assert(s.skip(1)[i] == s[i + 1]);
            }
        }
        if exists|i: int| 0 <= i < s.len() && affix_has_other(#[trigger] s[i]) {
            let i = choose|i: int| 0 <= i < s.len() && affix_has_other(#[trigger] s[i]);
            if i > 0 {
                assert(s.skip(1)[i - 1] == s[i]);
            }
        }
    }
}

/// A foreign type name is in a list's names exactly when it is in
/// some member's names.
pub proof fn lemma_others_list_contains<T>(s: Seq<AffixValue<T>>, name: Seq<char>)
    ensures
        affix_others_list(s).contains(name) <==> (exists|i: int|
            0 <= i < s.len() && affix_others(#[trigger] s[i]).contains(name)),
    decreases s,
{
    if s.len() > 0 {
        lemma_others_list_contains(s.skip(1), name);
        if affix_others_list(s).contains(name) {
            if affix_others(s[0]).contains(name) {
            } else {
                assert(affix_others_list(s.skip(1)).contains(name)) by {
                    let j = choose|j: int|
                        0 <= j < affix_others_list(s).len() && affix_others_list(s)[j] == name;
                    assert(affix_others_list(s.skip(1))[j - affix_others(s[0]).len()] == name);
                }
                let i = choose|i: int|
                    0 <= i < s.skip(1).len() && affix_others(#[trigger] s.skip(1)[i]).contains(
                        name,
                    );
                assert(s.skip(1)[i] == s[i + 1]);
            }
        }
        if exists|i: int| 0 <= i < s.len() && affix_others(#[trigger] s[i]).contains(name) {
            let i = choose|i: int| 0 <= i < s.len() && affix_others(#[trigger] s[i]).contains(name);
            if i == 0 {
                let j = choose|j: int|
                    0 <= j < affix_others(s[0]).len() && affix_others(s[0])[j] == name;
                assert(affix_others_list(s)[j] == name);
            } else {
                assert(s.skip(1)[i - 1] == s[i]);
                assert(affix_others_list(s.skip(1)).contains(name));
                let j = choose|j: int|
                    0 <= j < affix_others_list(s.skip(1)).len() && affix_others_list(s.skip(1))[j]
                        == name;
                assert(affix_others_list(s)[j + affix_others(s[0]).len()] == name);
            }
        }
    }
}

/// Tests the predicate against a single candidate, or against every
/// candidate of a (possibly nested) tuple, short-circuiting on the
/// first positive answer. A value that is neither the expected type
/// nor a tuple raises a type error whose message the builder makes
/// from that value's runtime type name. The contract speaks through
/// the closures' own postconditions: with a deterministic predicate
/// it pins each outcome.
pub fn single_or_tuple_any<T, F: Fn(&T) -> bool, M: Fn(&str) -> String>(
    obj: &AffixValue<T>,
    predicate: &F,
    message: &M,
) -> (r: Result<bool, AnyStrError>)
    requires
        forall|t: &T| #[trigger] predicate.requires((t,)),
        forall|name: &str| #[trigger] message.requires((name,)),
    ensures
        match r {
            Ok(found) => {
                &&& (found ==> (exists|t: &T|
                    affix_leaves(*obj).contains(*t) && #[trigger] predicate.ensures((t,), true)))
                &&& (!found ==> !affix_has_other(*obj) && (forall|t: &T|
                    affix_leaves(*obj).contains(*t) ==> #[trigger] predicate.ensures(
                        (t,),
                        false,
                    )))
            },
            Err(e) => {
                &&& affix_has_other(*obj)
                &&& e is TypeError
                &&& (exists|name: &str, m: String|
                    {
                        &&& affix_others(*obj).contains(name@)
                        &&& #[trigger] message.ensures((name,), m)
                        &&& e.spec_message() == m@
                    })
            },
        },
    decreases *obj,
{
    match obj {
        AffixValue::Single(t) => {
            let found = predicate(t);
            proof {
                assert(affix_leaves(*obj)[0] == *t);
                assert(affix_leaves(*obj).contains(*t));
            }
            Ok(found)
        },
        AffixValue::Other(name) => {
            let m = message(name.as_str());
            proof {
                assert(affix_others(*obj)[0] == name@);
                assert(affix_others(*obj).contains(name@));
            }
            Err(AnyStrError::TypeError(m))
        },
        AffixValue::Tuple(elems) => {
            let n = elems.len();
            let mut j: usize = 0;
            while j < n
                invariant
                    *obj == (AffixValue::Tuple(*elems)),
                    n == elems@.len(),
                    0 <= j <= n,
                    forall|t: &T| #[trigger] predicate.requires((t,)),
                    forall|name: &str| #[trigger] message.requires((name,)),
                    forall|i: int| 0 <= i < j ==> !affix_has_other(#[trigger] elems@[i]),
                    forall|i: int, t: &T|
                        0 <= i < j && #[trigger] affix_leaves(elems@[i]).contains(*t)
                            ==> predicate.ensures((t,), false),
                decreases n - j,
            {
                proof {
                    assert(decreases_to!(*obj => obj->Tuple_0));
                    assert(obj->Tuple_0 == *elems);
                    assert(decreases_to!(*elems => elems@));
                    assert(decreases_to!(elems@ => elems@[j as int]));
                }
                match single_or_tuple_any(&elems[j], predicate, message) {
                    Ok(true) => {
                        proof {
                            let t = choose|t: &T|
                                affix_leaves(elems@[j as int]).contains(*t)
                                    && #[trigger] predicate.ensures((t,), true);
                            lemma_leaves_list_contains(elems@, *t);
                            assert(*obj == AffixValue::Tuple(*elems));
                            assert(affix_leaves(*obj) == affix_leaves_list(elems@));
                            assert(affix_leaves(*obj).contains(*t));
                        }
                        return Ok(true);
                    },
                    Ok(false) => {},
                    Err(e) => {
                        proof {
                            lemma_has_other_list(elems@);
                            let (name, m) = choose|name: &str, m: String|
                                {
                                    &&& affix_others(elems@[j as int]).contains(name@)
                                    &&& #[trigger] message.ensures((name,), m)
                                    &&& e.spec_message() == m@
                                };
                            lemma_others_list_contains(elems@, name@);
                            assert(affix_others(*obj).contains(name@));
                        }
                        return Err(e);
                    },
                }
                j += 1;
            }
            proof {
                lemma_has_other_list(elems@);
                assert forall|t: &T| affix_leaves(*obj).contains(*t) implies #[trigger] predicate
                    .ensures((t,), false) by {
                    lemma_leaves_list_contains(elems@, *t);
                }
            }
            Ok(false)
        },
    }
}

/// The type-error message of a starts-with / ends-with style
/// operation: it names the operation, the expected type twice, and
/// the offending value's runtime type.
pub open spec fn spec_affix_message(func: Seq<char>, ty: Seq<char>, actual: Seq<char>) -> Seq<
    char,
> {
    func + " first arg must be "@ + ty + " or a tuple of "@ + ty + ", not "@ + actual
}

/// Tests a starts-with / ends-with style predicate — already bound to
/// its subject — against the affix argument: a single candidate, or
/// any member of a (possibly nested) tuple of candidates. A value of
/// any other type raises a type error whose message names the
/// operation, the expected type and the value's runtime type.
pub fn py_startsendswith<T, F: Fn(&T) -> bool>(
    affix: &AffixValue<T>,
    func_name: &str,
    py_type_name: &str,
    func: &F,
) -> (r: Result<bool, AnyStrError>)
    requires
        forall|t: &T| #[trigger] func.requires((t,)),
    ensures
        match r {
            Ok(found) => {
                &&& (found ==> (exists|t: &T|
                    affix_leaves(*affix).contains(*t) && #[trigger] func.ensures((t,), true)))
                &&& (!found ==> !affix_has_other(*affix) && (forall|t: &T|
                    affix_leaves(*affix).contains(*t) ==> #[trigger] func.ensures((t,), false)))
            },
            Err(e) => {
                &&& affix_has_other(*affix)
                &&& e is TypeError
                &&& (exists|name: Seq<char>|
                    #[trigger] affix_others(*affix).contains(name) && e.spec_message()
                        == spec_affix_message(func_name@, py_type_name@, name))
            },
        },
{
    let message = |name: &str| -> (m: String)
        ensures
            m@ == spec_affix_message(func_name@, py_type_name@, name@),
        {
            let part = str_concat(func_name, " first arg must be ");
            let part = str_concat(part.as_str(), py_type_name);
            let part = str_concat(part.as_str(), " or a tuple of ");
            let part = str_concat(part.as_str(), py_type_name);
            let part = str_concat(part.as_str(), ", not ");
            str_concat(part.as_str(), name)
        };
    let r = single_or_tuple_any(affix, func, &message);
    proof {
        if r is Err {
            let e = r->Err_0;
            let (name, m) = choose|name: &str, m: String|
                {
                    &&& affix_others(*affix).contains(name@)
                    &&& #[trigger] message.ensures((name,), m)
                    &&& e.spec_message() == m@
                };
            assert(affix_others(*affix).contains(name@) && e.spec_message() == spec_affix_message(
                func_name@,
                py_type_name@,
                name@,
            ));
        }
    }
    r
}

} // verus!
