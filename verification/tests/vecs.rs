use type_utilities::slices::TrySplit;
use type_utilities::vecs::ReplaceVec;

#[derive(Debug, Default, Clone, PartialEq)]
struct Example {
    name: String,
    id: i32,
    other_property: Vec<u8>,
}

#[test]
fn replace_method_works() {
    let case1 = vec![1, 3, 4, 5];

    let replaced_vec = case1.replace(|item| *item == 3, 4);

    assert_eq!(vec![1, 4, 4, 5], replaced_vec);

    let replaced_vec2 = case1.replace(|item| *item == 5, 10);

    assert_eq!(vec![1, 3, 4, 10], replaced_vec2);

    let case2: Vec<Example> = vec![
        Example {
            name: "josh".to_string(),
            id: 1,
            other_property: vec![],
        },
        Example {
            name: "ua".to_string(),
            id: 2,
            other_property: vec![],
        },
    ];

    let replaced_struct_vec = case2.replace(
        |example| example.name.as_str() == "josh",
        Example {
            name: "replaced".to_string(),
            id: 3,
            other_property: vec![1, 2],
        },
    );

    assert_eq!(
        vec![
            Example {
                name: "replaced".to_string(),
                id: 3,
                other_property: vec![1, 2],
            },
            Example {
                name: "ua".to_string(),
                id: 2,
                other_property: vec![],
            },
        ],
        replaced_struct_vec
    );
}

#[test]
fn replace_mut_method_works() {
    let mut case1 = vec![1, 2, 3, 4, 5];

    case1.replace_mut(|item| *item == 2, 3);

    assert_eq!(vec![1, 3, 3, 4, 5], case1);

    let mut case2_struct_case = vec![
        Example {
            name: "name1".to_string(),
            id: 1,
            other_property: vec![1, 2, 3],
        },
        Example {
            name: "other".to_string(),
            id: 2,
            other_property: vec![3, 2, 4],
        },
    ];

    case2_struct_case.replace_mut(
        |item| item.name.as_str() == "other",
        Example {
            name: "other changed".to_string(),
            id: 2,
            other_property: vec![3, 2, 4],
        },
    );

    let case_to_compare_struct = vec![
        Example {
            name: "name1".to_string(),
            id: 1,
            other_property: vec![1, 2, 3],
        },
        Example {
            name: "other changed".to_string(),
            id: 2,
            other_property: vec![3, 2, 4],
        },
    ];

    assert_eq!(case_to_compare_struct, case2_struct_case);
}

#[test]
fn vec_try_split_at_works() {
    let case1 = vec![1, 2, 3, 4, 5, 6];

    // way out of bound, but won't panic
    let option1 = case1.try_split_at(20);

    assert_eq!(option1, None);

    let option2 = case1.try_split_at(3);

    assert_eq!(option2, Some(([1, 2, 3].as_ref(), [4, 5, 6].as_ref())));

    // In this case the left side is empty
    let option3 = case1.try_split_at(0);

    assert_eq!(option3, None);

    let case2 = [1, 2, 3, 4, 5, 6];

    let option4 = case2.try_split_at(3);

    assert_eq!(option4, Some(([1, 2, 3].as_ref(), [4, 5, 6].as_ref())));
}

#[test]
fn replace_without_match_keeps_vector() {
    let case = vec![1, 3, 5];

    let unchanged = case.replace(|item| *item == 7, 9);
    assert_eq!(vec![1, 3, 5], unchanged);

    let mut in_place = vec![1, 3, 5];
    in_place.replace_mut(|item| *item == 7, 9);
    assert_eq!(vec![1, 3, 5], in_place);
}

#[test]
fn replace_takes_only_first_match() {
    let case = vec![2, 2, 4];
    assert_eq!(vec![9, 2, 4], case.replace(|item| *item == 2, 9));
}

#[test]
fn replace_mut_not_idempotent_in_general() {
    // The inserted value does not satisfy the predicate, so a second
    // application replaces the next matching element.
    let mut v = vec![2, 2];
    v.replace_mut(|item| *item == 2, 9);
    assert_eq!(vec![9, 2], v);
    v.replace_mut(|item| *item == 2, 9);
    assert_eq!(vec![9, 9], v);

    // When the inserted value satisfies the predicate, re-applying the
    // replace changes nothing.
    let mut w = vec![1, 5];
    w.replace_mut(|item| *item >= 5, 7);
    assert_eq!(vec![1, 7], w);
    w.replace_mut(|item| *item >= 5, 7);
    assert_eq!(vec![1, 7], w);
}

#[test]
fn try_split_at_boundaries() {
    let v = vec![1, 2];
    assert_eq!(v.try_split_at(1), Some(([1].as_ref(), [2].as_ref())));
    // splitting at the length leaves the right side empty
    assert_eq!(v.try_split_at(2), None);
    assert_eq!(v.try_split_at(usize::MAX), None);

    let empty: Vec<u8> = vec![];
    assert_eq!(empty.try_split_at(0), None);
}
