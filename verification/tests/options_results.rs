use type_utilities::options::IsNone;
use type_utilities::results::Filter;

#[test]
fn is_none_and_works() {
    let case1 = Some(1);
    assert!(!case1.is_none_and(|| true));
    let case2: Option<i32> = None;
    assert!(case2.is_none_and(|| case1.is_some()));
}

#[test]
fn filter_works() {
    let case1 = "2".parse::<i32>();
    let case1 = case1.filter(|nu| *nu > 1);
    assert_eq!(case1, Ok(&2));

    let case2 = "err".parse::<i32>();
    let case2 = case2.filter(|nu| *nu < 10);

    match case2 {
        Ok(_) => {},
        Err(e) => {
            assert!(e.is_some());
        },
    };

    let case3 = "10".parse::<i32>();
    let case3 = case3.filter(|nu| *nu > 20);

    match case3 {
        Ok(_) => {},
        Err(e) => assert!(e.is_none()),
    };
}

#[test]
fn is_none_and_false_condition() {
    let case: Option<u8> = None;
    assert!(!case.is_none_and(|| false));
}
