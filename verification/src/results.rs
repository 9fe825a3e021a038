//! Filtering the success value of a `Result` through a predicate.

use vstd::prelude::*;

verus! {

/// Filtering a success value through a caller-supplied predicate.
pub trait Filter<T, E> {
    /// The result value this receiver stands for.
    spec fn spec_result(&self) -> Result<T, E>;

    /// Returns `Ok(&t)` when the receiver holds `Ok(t)` and `predicate(&t)`
    /// returns `true`; `Err(None)` when it holds `Ok(t)` and the predicate
    /// returns `false`; and `Err(Some(&e))` when it holds `Err(e)`.
    fn filter<F: FnOnce(&T) -> bool>(&self, predicate: F) -> (r: Result<&T, Option<&E>>)
        requires
            self.spec_result() is Ok ==> call_requires(predicate, (&self.spec_result()->Ok_0,)),
        ensures
            (match self.spec_result() {
                Ok(t) => match r {
                    Ok(rt) => *rt == t && call_ensures(predicate, (rt,), true),
                    Err(e) => e is None && call_ensures(predicate, (&t,), false),
                },
                Err(e) => r matches Err(re) && re matches Some(v) && *v == e,
            }),
    ;
}

impl<T, E> Filter<T, E> for Result<T, E> {
    open spec fn spec_result(&self) -> Result<T, E> {
        *self
    }

    fn filter<F: FnOnce(&T) -> bool>(&self, predicate: F) -> (r: Result<&T, Option<&E>>) {
        match self {
            Ok(ok) => {
                if predicate(ok) {
                    Ok(ok)
                } else {
                    Err(None)
                }
            },
            Err(e) => Err(Some(e)),
        }
    }
}

} // verus!
