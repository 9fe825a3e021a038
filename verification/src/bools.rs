//! Toggling and negated variants of the standard boolean combinators.

use vstd::prelude::*;

verus! {

/// In-place inversion of a boolean value.
pub trait Toggle: Sized {
    /// The value this one becomes when toggled.
    spec fn spec_toggled(&self) -> Self;

    /// Inverts the value in place: `true` becomes `false` and vice versa.
    fn toggle(&mut self)
        ensures
            *final(self) == old(self).spec_toggled(),
    ;
}

impl Toggle for bool {
    open spec fn spec_toggled(&self) -> bool {
        !*self
    }

    fn toggle(&mut self) {
        *self = !*self;
    }
}

/// Negated counterparts of the standard `then` and `then_some` combinators.
pub trait Not: Sized {
    /// The truth value this receiver stands for.
    spec fn spec_is_true(self) -> bool;

    /// Returns `Some(f())` if the value is `false`, and `None` otherwise.
    fn not_then<T, F: FnOnce() -> T>(self, f: F) -> (r: Option<T>)
        requires
            !self.spec_is_true() ==> call_requires(f, ()),
        ensures
            self.spec_is_true() ==> r is None,
            !self.spec_is_true() ==> r is Some && call_ensures(f, (), r->0),
    ;

    /// Returns `Some(t)` if the value is `false`, and `None` otherwise.
    fn not_then_some<T>(self, t: T) -> (r: Option<T>)
        ensures
            r == (if self.spec_is_true() {
                Option::<T>::None
            } else {
                Option::<T>::Some(t)
            }),
    ;
}

impl Not for bool {
    open spec fn spec_is_true(self) -> bool {
        self
    }

    fn not_then<T, F: FnOnce() -> T>(self, f: F) -> (r: Option<T>) {
        if self {
            None
        } else {
            Some(f())
        }
    }

    fn not_then_some<T>(self, t: T) -> (r: Option<T>) {
        if self {
            None
        } else {
            Some(t)
        }
    }
}

} // verus!
