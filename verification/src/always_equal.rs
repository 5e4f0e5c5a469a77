//! A wrapper that compares equal to any other value of its type.
//!
//! Some fields do not take part in a containing type's equality at all; a
//! value wrapped here never distinguishes two containers.

use vstd::prelude::*;

verus! {

/// Carries a value that plays no part in comparisons.
pub struct AlwaysEqual<T>(pub T);

impl<T> PartialEq for AlwaysEqual<T> {
    fn eq(&self, _other: &AlwaysEqual<T>) -> (r: bool) {
        true
    }
}

impl<T> vstd::std_specs::cmp::PartialEqSpecImpl for AlwaysEqual<T> {
    open spec fn obeys_eq_spec() -> bool {
        true
    }

    open spec fn eq_spec(&self, _other: &AlwaysEqual<T>) -> bool {
        true
    }
}

impl<T> Eq for AlwaysEqual<T> {

}

} // verus!
