//! The engine's failure values: a value error for semantically invalid
//! arguments, a type error for affix arguments of the wrong shape.

use vstd::prelude::*;

verus! {

/// A failure returned to the immediate caller; no primitive here
/// retries or recovers.
#[derive(Debug)]
pub enum AnyStrError {
    /// Semantically invalid argument with no reasonable fallback,
    /// e.g. an empty separator.
    ValueError(String),
    /// An affix argument that is neither the expected element type nor
    /// a (possibly nested) tuple of it; the message names the value's
    /// runtime type.
    TypeError(String),
}

impl AnyStrError {
    /// The failure's message, whatever its kind.
    pub open spec fn spec_message(&self) -> Seq<char> {
        match self {
            AnyStrError::ValueError(m) => m@,
            AnyStrError::TypeError(m) => m@,
        }
    }

    /// The failure's message text.
    pub fn message(&self) -> (m: &str)
        ensures
            m@ == self.spec_message(),
    {
        match self {
            AnyStrError::ValueError(m) => m.as_str(),
            AnyStrError::TypeError(m) => m.as_str(),
        }
    }

    /// Whether this failure is a value error.
    pub fn is_value_error(&self) -> (r: bool)
        ensures
            r == (self is ValueError),
    {
        match self {
            AnyStrError::ValueError(_) => true,
            AnyStrError::TypeError(_) => false,
        }
    }

    /// Whether this failure is a type error.
    pub fn is_type_error(&self) -> (r: bool)
        ensures
            r == (self is TypeError),
    {
        match self {
            AnyStrError::ValueError(_) => false,
            AnyStrError::TypeError(_) => true,
        }
    }
}

/// The concatenation of two string slices, as an owned string.
pub fn str_concat(a: &str, b: &str) -> (r: String)
    ensures
        r@ == a@ + b@,
{
    let mut s = String::from_str(a);
    s.append(b);
    s
}

/// A value error whose message is exactly the given text.
pub fn value_error(msg: &str) -> (r: AnyStrError)
    ensures
        r is ValueError,
        r.spec_message() == msg@,
{
    AnyStrError::ValueError(String::from_str(msg))
}

} // verus!
