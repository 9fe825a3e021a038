//! Bounds-safe two-way splitting of a slice at an index.

use vstd::prelude::*;

verus! {

/// Splitting a sequence of elements in two at an index, never panicking.
pub trait TrySplit<T>: View<V = Seq<T>> {
    /// Splits the elements into `[0, mid)` and `[mid, len)`.
    ///
    /// Returns `None` whenever either part would be empty (`mid == 0` or
    /// `mid >= len`), including any `mid` beyond the length; it never
    /// panics, however large `mid` is.
    fn try_split_at(&self, mid: usize) -> (r: Option<(&[T], &[T])>)
        ensures
            (match r {
                Some(p) => {
                    &&& 0 < mid < self@.len()
                    &&& p.0@ == self@.take(mid as int)
                    &&& p.1@ == self@.skip(mid as int)
                },
                None => mid == 0 || mid >= self@.len(),
            }),
    ;
}

impl<T> TrySplit<T> for [T] {
    fn try_split_at(&self, mid: usize) -> (r: Option<(&[T], &[T])>) {
        if mid > self.len() {
            return None;
        }
        let (left, right) = self.split_at(mid);
        if left.is_empty() || right.is_empty() {
            None
        } else {
            Some((left, right))
        }
    }
}

} // verus!
