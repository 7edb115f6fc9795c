//! Iterator util
use vstd::prelude::*;

verus! {
/// Ignore errors: the value of an `Ok`, nothing for an `Err`.
pub fn warn_ok<T, E>(x: Result<T, E>) -> (r: Option<T>)
    ensures
        r == match x {
            Ok(t) => Some(t),
            Err(_) => None,
        },
{
    match x {
        Ok(t) => Some(t),
        Err(_) => None,
    }
}

} // verus!
