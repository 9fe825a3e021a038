//! A union operation for hash maps: all entries of both maps, with the
//! left map's value winning on a shared key.

use vstd::prelude::*;
use vstd::std_specs::hash::{builds_valid_hashers, obeys_key_model, spec_hash_map_iter};
use vstd::std_specs::iter::IteratorSpec;
use std::collections::HashMap;
use std::hash::{BuildHasher, Hash};

verus! {

/// Whether cloning a value of `T` can only yield the value itself.
pub open spec fn clone_faithful<T: Clone>() -> bool {
    forall|x: T, y: T| cloned::<T>(x, y) ==> y == x
}

/// Set-like operations over maps.
pub trait SetOperation<K, V, S>: View<V = Map<K, V>> {
    /// Returns a map holding every entry of `self` and of `other`; a key
    /// present in both maps carries the value it has in `self`.
    ///
    /// The preconditions are the standard library model assumptions under
    /// which `vstd` specifies hash maps; they hold for the built-in
    /// hashers and for well-behaved key types.
    fn union(&self, other: &HashMap<K, V>) -> (r: HashMap<K, V>)
        where
            K: Eq + PartialEq + Hash + Clone,
            V: Eq + PartialEq + Clone,
            S: BuildHasher,

        requires
            obeys_key_model::<K>(),
            builds_valid_hashers::<S>(),
        ensures
            (clone_faithful::<K>() && clone_faithful::<V>()) ==> r@
                == other@.union_prefer_right(self@),
    ;
}

impl<K, V, S> SetOperation<K, V, S> for HashMap<K, V, S> {
    fn union(&self, other: &HashMap<K, V>) -> (r: HashMap<K, V>)
        where
            K: Eq + PartialEq + Hash + Clone,
            V: Eq + PartialEq + Clone,
            S: BuildHasher,
    {
        let ghost cf = clone_faithful::<K>() && clone_faithful::<V>();
        let mut r: HashMap<K, V> = HashMap::new();
        let ghost pairs1 = spec_hash_map_iter(self).remaining();
        for p in it1: self.iter()
            invariant
                obeys_key_model::<K>(),
                builds_valid_hashers::<S>(),
                cf == (clone_faithful::<K>() && clone_faithful::<V>()),
                pairs1 == it1.seq(),
                pairs1.len() == self@.dom().len(),
                forall|i: int|
                    0 <= i < pairs1.len() ==> self@.contains_key(*(#[trigger] pairs1[i]).0)
                        && self@[*pairs1[i].0] == *pairs1[i].1,
                cf ==> {
                    &&& forall|j: int|
                        0 <= j < it1.index() ==> r@.contains_key(*(#[trigger] pairs1[j]).0)
                            && r@[*pairs1[j].0] == *pairs1[j].1
                    &&& forall|k2: K|
                        #[trigger] r@.contains_key(k2) ==> exists|j: int|
                            0 <= j < it1.index() && *(#[trigger] pairs1[j]).0 == k2
                },
        {
            let (k, v) = p;
            let kc = k.clone();
            let vc = v.clone();
            let ghost old_r = r@;
            r.insert(kc, vc);
            proof {
                if cf {
                    assert(p == pairs1[it1.index()]);
                    assert(cloned::<K>(*k, kc));
                    assert(cloned::<V>(*v, vc));
                    assert(kc == *p.0);
                    assert(vc == *p.1);
                    assert(r@ == old_r.insert(kc, vc));
                }
            }
        }
        proof {
            if cf {
                assert forall|k2: K| self@.contains_key(k2) implies r@.contains_key(k2) && r@[k2]
                    == self@[k2] by {
                    assert(pairs1.contains((&k2, &self@[k2])));
                    let j = choose|j: int|
                        0 <= j < pairs1.len() && pairs1[j] == (&k2, &self@[k2]);
                    assert(r@.contains_key(*pairs1[j].0) && r@[*pairs1[j].0] == *pairs1[j].1);
                }
                assert forall|k2: K| r@.contains_key(k2) implies self@.contains_key(k2) by {
                    let j = choose|j: int| 0 <= j < pairs1.len() && *pairs1[j].0 == k2;
                    assert(self@.contains_key(*pairs1[j].0));
                }
                assert(r@ =~= self@);
            }
        }
        let ghost pairs2 = spec_hash_map_iter(other).remaining();
        for p in it2: other.iter()
            invariant
                obeys_key_model::<K>(),
                cf == (clone_faithful::<K>() && clone_faithful::<V>()),
                pairs2 == it2.seq(),
                pairs2.len() == other@.dom().len(),
                forall|i: int|
                    0 <= i < pairs2.len() ==> other@.contains_key(*(#[trigger] pairs2[i]).0)
                        && other@[*pairs2[i].0] == *pairs2[i].1,
                cf ==> {
                    &&& forall|k2: K|
                        self@.contains_key(k2) ==> #[trigger] r@.contains_key(k2) && r@[k2]
                            == self@[k2]
                    &&& forall|j: int|
                        0 <= j < it2.index() ==> r@.contains_key(*(#[trigger] pairs2[j]).0) && (
                        if self@.contains_key(*pairs2[j].0) {
                            r@[*pairs2[j].0] == self@[*pairs2[j].0]
                        } else {
                            r@[*pairs2[j].0] == *pairs2[j].1
                        })
                    &&& forall|k2: K|
                        #[trigger] r@.contains_key(k2) ==> self@.contains_key(k2) || exists|j: int|
                            0 <= j < it2.index() && *(#[trigger] pairs2[j]).0 == k2
                },
        {
            let (k, v) = p;
            proof {
                if cf {
                    assert(p == pairs2[it2.index()]);
                }
            }
            if !r.contains_key(k) {
                let kc = k.clone();
                let vc = v.clone();
                let ghost old_r = r@;
                r.insert(kc, vc);
                proof {
                    if cf {
                        assert(cloned::<K>(*k, kc));
                        assert(cloned::<V>(*v, vc));
                        assert(kc == *p.0);
                        assert(vc == *p.1);
                        assert(r@ == old_r.insert(kc, vc));
                    }
                }
            }
        }
        proof {
            if cf {
                let u = other@.union_prefer_right(self@);
                assert forall|k2: K| other@.contains_key(k2) implies r@.contains_key(k2) by {
                    assert(pairs2.contains((&k2, &other@[k2])));
                    let j = choose|j: int|
                        0 <= j < pairs2.len() && pairs2[j] == (&k2, &other@[k2]);
                    assert(r@.contains_key(*pairs2[j].0));
                }
                assert forall|k2: K| r@.contains_key(k2) implies u.contains_key(k2) && r@[k2]
                    == u[k2] by {
                    if self@.contains_key(k2) {
                        assert(r@[k2] == self@[k2]);
                    } else {
                        let j = choose|j: int| 0 <= j < pairs2.len() && *pairs2[j].0 == k2;
                        assert(other@.contains_key(*pairs2[j].0) && other@[*pairs2[j].0]
                            == *pairs2[j].1);
                        assert(r@[k2] == other@[k2]);
                    }
                }
                assert(r@ =~= u);
            }
        }
        r
    }
}

} // verus!
