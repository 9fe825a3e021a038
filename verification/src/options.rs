//! A refinement of `Option` testing absence together with a condition.

use vstd::prelude::*;

verus! {

/// Testing absence together with a caller-supplied condition.
pub trait IsNone {
    /// Whether this value carries nothing.
    spec fn spec_is_none(&self) -> bool;

    /// Returns `f()` if the value is absent, and `false` otherwise.
    /// `f` is consulted only when the value is absent.
    fn is_none_and<F: FnOnce() -> bool>(&self, f: F) -> (r: bool)
        requires
            self.spec_is_none() ==> call_requires(f, ()),
        ensures
            !self.spec_is_none() ==> r == false,
            self.spec_is_none() ==> call_ensures(f, (), r),
    ;
}

impl<T> IsNone for Option<T> {
    open spec fn spec_is_none(&self) -> bool {
        *self is None
    }

    fn is_none_and<F: FnOnce() -> bool>(&self, f: F) -> (r: bool) {
        match self {
            Some(_) => false,
            None => f(),
        }
    }
}

} // verus!
