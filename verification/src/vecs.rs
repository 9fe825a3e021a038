//! Search-and-replace over vectors: locate the first element a predicate
//! accepts and replace it, either in a fresh vector or in place.

use vstd::prelude::*;
use crate::slices::TrySplit;

verus! {

/// The index of the first element of `s` that `p` accepts, or `s.len()`
/// when no element is accepted.
pub open spec fn first_match<V>(s: Seq<V>, p: spec_fn(V) -> bool) -> int
    decreases s.len(),
{
    if s.len() == 0 {
        0
    } else if p(s[0]) {
        0
    } else {
        1 + first_match(s.drop_first(), p)
    }
}

/// Whether some element of `s` is accepted by `p`.
pub open spec fn has_match<V>(s: Seq<V>, p: spec_fn(V) -> bool) -> bool {
    exists|i: int| 0 <= i < s.len() && p(s[i])
}

/// `s` with its first element accepted by `p` replaced by `x`; `s` itself
/// when no element is accepted.
pub open spec fn spec_replace<V>(s: Seq<V>, p: spec_fn(V) -> bool, x: V) -> Seq<V> {
    if has_match(s, p) {
        s.update(first_match(s, p), x)
    } else {
        s
    }
}

/// The first match lies in bounds exactly when a match exists, is itself
/// accepted, and is preceded only by rejected elements.
pub proof fn lemma_first_match<V>(s: Seq<V>, p: spec_fn(V) -> bool)
    ensures
        0 <= first_match(s, p) <= s.len(),
        first_match(s, p) < s.len() <==> has_match(s, p),
        first_match(s, p) < s.len() ==> p(s[first_match(s, p)]),
        forall|j: int| 0 <= j < first_match(s, p) ==> !p(s[j]),
    decreases s.len(),
{
    if s.len() > 0 && !p(s[0]) {
        let rest = s.drop_first();
        lemma_first_match(rest, p);
        assert(forall|i: int| 0 <= i < rest.len() ==> rest[i] == s[i + 1]);
        if has_match(s, p) {
            let i = choose|i: int| 0 <= i < s.len() && p(s[i]);
            assert(p(rest[i - 1]));
        }
        if has_match(rest, p) {
            let i = choose|i: int| 0 <= i < rest.len() && p(rest[i]);
            assert(p(s[i + 1]));
        }
        assert forall|j: int| 0 <= j < first_match(s, p) implies !p(s[j]) by {
            if j > 0 {
                assert(s[j] == rest[j - 1]);
            }
        }
    }
}

/// Law: replacing by a predicate that no element satisfies leaves the
/// sequence unchanged; otherwise exactly the first accepted element is
/// replaced by `x`, every other element keeps its value, and the length
/// and the order of the remaining elements are preserved.
pub proof fn lemma_replace_first_match<V>(s: Seq<V>, p: spec_fn(V) -> bool, x: V)
    ensures
        !has_match(s, p) ==> spec_replace(s, p, x) == s,
        has_match(s, p) ==> {
            let k = first_match(s, p);
            &&& 0 <= k < s.len()
            &&& p(s[k])
            &&& forall|j: int| 0 <= j < k ==> !p(s[j])
            &&& spec_replace(s, p, x).len() == s.len()
            &&& spec_replace(s, p, x)[k] == x
            &&& forall|j: int| 0 <= j < s.len() && j != k ==> spec_replace(s, p, x)[j] == s[j]
        },
{
    lemma_first_match(s, p);
}

/// Law: applying a replace twice with the same predicate and value is the
/// same as applying it once, provided the predicate accepts the inserted
/// value. (Without that proviso the operation is not idempotent in
/// general: an element beyond the replaced one may still be accepted and
/// be replaced by the second application.)
pub proof fn lemma_replace_idempotent_when_value_matches<V>(
    s: Seq<V>,
    p: spec_fn(V) -> bool,
    x: V,
)
    requires
        p(x),
    ensures
        spec_replace(spec_replace(s, p, x), p, x) == spec_replace(s, p, x),
{
    lemma_first_match(s, p);
    if has_match(s, p) {
        let k = first_match(s, p);
        let s2 = s.update(k, x);
        lemma_first_match(s2, p);
        assert(p(s2[k]));
        let k2 = first_match(s2, p);
        assert(forall|j: int| 0 <= j < k ==> s2[j] == s[j]);
        assert(k2 == k) by {
            if k2 < k {
                assert(!p(s[k2]));
            }
            if k2 > k {
                assert(!p(s2[k]));
            }
        }
        assert(s2.update(k, x) =~= s2);
    }
}

/// Replacing the first element a predicate accepts, in a fresh vector or
/// in place.
pub trait ReplaceVec<F, V>: View<V = Seq<V>> where F: Fn(&V) -> bool, V: PartialEq + Clone {
    /// Returns a new vector identical to this one except that the first
    /// element `searcher` accepts is replaced by `value`; a clone of this
    /// vector when no element is accepted. The receiver is not changed.
    fn replace(&self, searcher: F, value: V) -> (r: Vec<V>)
        requires
            forall|i: int|
                0 <= i < self@.len() ==> call_requires(
                    searcher,
                    (&self@[i],),
                ),
        ensures
            r@.len() == self@.len(),
            ({
                let s = self@;
                ||| {
                    &&& forall|j: int|
                        0 <= j < s.len() ==> call_ensures(searcher, (&s[j],), false)
                    &&& forall|j: int| 0 <= j < s.len() ==> cloned(s[j], #[trigger] r@[j])
                }
                ||| exists|i: int|
                    {
                        &&& 0 <= i < s.len()
                        &&& call_ensures(searcher, (&s[i],), true)
                        &&& forall|j: int| 0 <= j < i ==> call_ensures(searcher, (&s[j],), false)
                        &&& r@[i] == value
                        &&& forall|j: int|
                            0 <= j < s.len() && j != i ==> cloned(s[j], #[trigger] r@[j])
                    }
            }),
    ;

    /// Overwrites the first element `searcher` accepts with `value`,
    /// in place; leaves the vector unchanged when no element is accepted.
    fn replace_mut(&mut self, searcher: F, value: V)
        requires
            forall|i: int|
                0 <= i < old(self)@.len() ==> call_requires(
                    searcher,
                    (&old(self)@[i],),
                ),
        ensures
            ({
                let s = old(self)@;
                ||| {
                    &&& forall|j: int|
                        0 <= j < s.len() ==> call_ensures(searcher, (&s[j],), false)
                    &&& final(self)@ == s
                }
                ||| exists|i: int|
                    {
                        &&& 0 <= i < s.len()
                        &&& call_ensures(searcher, (&s[i],), true)
                        &&& forall|j: int| 0 <= j < i ==> call_ensures(searcher, (&s[j],), false)
                        &&& final(self)@ == s.update(i, value)
                    }
            }),
    ;
}

impl<F, V> ReplaceVec<F, V> for Vec<V> where F: Fn(&V) -> bool, V: PartialEq + Clone {
    fn replace(&self, searcher: F, value: V) -> (r: Vec<V>) {
        let n = self.len();
        let mut i: usize = 0;
        let mut pos: Option<usize> = None;
        while i < n && pos.is_none()
            invariant
                n == self@.len(),
                i <= n,
                forall|k: int| 0 <= k < n ==> call_requires(searcher, (&self@[k],)),
                (match pos {
                    Some(p) => {
                        &&& p < i
                        &&& call_ensures(searcher, (&self@[p as int],), true)
                        &&& forall|j: int|
                            0 <= j < p ==> call_ensures(searcher, (&self@[j],), false)
                    },
                    None => forall|j: int| 0 <= j < i ==> call_ensures(searcher, (&self@[j],), false),
                }),
            decreases n - i,
        {
            if searcher(&self[i]) {
                pos = Some(i);
            }
            i = i + 1;
        }
        match pos {
            None => self.clone(),
            Some(p) => {
                let mut r = self.clone();
                r.set(p, value);
                proof {
                    assert(call_ensures(searcher, (&self@[p as int],), true));
                    assert(r@[p as int] == value);
                    assert(forall|j: int|
                        0 <= j < self@.len() && j != p ==> cloned(self@[j], #[trigger] r@[j]));
                }
                r
            },
        }
    }

    fn replace_mut(&mut self, searcher: F, value: V) {
        let n = self.len();
        let mut i: usize = 0;
        let mut pos: Option<usize> = None;
        while i < n && pos.is_none()
            invariant
                *self == *old(self),
                n == self@.len(),
                i <= n,
                forall|k: int| 0 <= k < n ==> call_requires(searcher, (&self@[k],)),
                (match pos {
                    Some(p) => {
                        &&& p < i
                        &&& call_ensures(searcher, (&self@[p as int],), true)
                        &&& forall|j: int|
                            0 <= j < p ==> call_ensures(searcher, (&self@[j],), false)
                    },
                    None => forall|j: int| 0 <= j < i ==> call_ensures(searcher, (&self@[j],), false),
                }),
            decreases n - i,
        {
            if searcher(&self[i]) {
                pos = Some(i);
            }
            i = i + 1;
        }
        if let Some(p) = pos {
            self.set(p, value);
        }
    }
}

impl<T> TrySplit<T> for Vec<T> {
    fn try_split_at(&self, mid: usize) -> (r: Option<(&[T], &[T])>) {
        if mid > self.len() {
            return None;
        }
        let (left, right) = self.as_slice().split_at(mid);
        if left.is_empty() || right.is_empty() {
            None
        } else {
            Some((left, right))
        }
    }
}

} // verus!
