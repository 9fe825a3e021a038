use std::collections::HashMap;
use type_utilities::maps::SetOperation;

#[test]
fn union_works() {
    let a = HashMap::from([("a", 2), ("b", 1), ("d", 3)]);
    let b = HashMap::from([("a", 2), ("b", 1), ("c", 4)]);

    let union_hashmap = a.union(&b);

    assert_eq!(
        HashMap::from([("a", 2), ("b", 1), ("c", 4), ("d", 3)]),
        union_hashmap
    );

    let c = HashMap::from([("a", 2), ("b", 1), ("c", 3), ("d", 2)]);
    let d = HashMap::from([("d", 2), ("f", 1), ("d", 3)]);

    let union_hashmap2 = c.union(&d);

    // the key "d" is present in both maps: the left map's value wins
    assert_eq!(
        HashMap::from([("a", 2), ("b", 1), ("c", 3), ("f", 1), ("d", 2)]),
        union_hashmap2
    );
}

#[test]
fn union_left_value_wins() {
    let a = HashMap::from([(1u64, "left"), (2, "only-left")]);
    let b = HashMap::from([(1u64, "right"), (3, "only-right")]);

    let u = a.union(&b);

    assert_eq!(
        HashMap::from([(1u64, "left"), (2, "only-left"), (3, "only-right")]),
        u
    );
}

#[test]
fn union_with_empty() {
    let a: HashMap<u64, u64> = HashMap::new();
    let b = HashMap::from([(7u64, 8u64)]);

    assert_eq!(a.union(&b), b);
    assert_eq!(b.union(&a), b);
}
