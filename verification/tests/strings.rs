use type_utilities::strings::{IsCases, RemoveWhitespaces, SelectNth, ToCases};

#[test]
fn string_remove_whitespaces() {
    let case1 = String::from("first case ");

    assert_eq!("firstcase", case1.remove_whitespaces());
    let case2 = String::from(" this is another test with normal  ");
    assert_eq!("thisisanothertestwithnormal", case2.remove_whitespaces());
}

#[test]
fn to_snake_case() {
    let case1 = String::from("this is the first case");

    assert_eq!("this_is_the_first_case", case1.to_snake_case());

    let case2 = String::from(" this is the   second case2  ");

    assert_eq!("this_is_the_second_case2", case2.to_snake_case());
}

#[test]
fn to_camel_case() {
    let case1 = String::from("this is the first case");

    assert_eq!("thisIsTheFirstCase", case1.to_camel_case());

    let case2 = String::from(" this is the   second case2  ");

    assert_eq!("thisIsTheSecondCase2", case2.to_camel_case());

    let case3 = String::from(" This is a third case 3");

    assert_eq!("thisIsAThirdCase3", case3.to_camel_case());
}

#[test]
fn to_pascal_case() {
    let case1 = String::from("this is the first case");

    assert_eq!("ThisIsTheFirstCase", case1.to_pascal_case());

    let case2 = String::from(" this is the   second case2  ");

    assert_eq!("ThisIsTheSecondCase2", case2.to_pascal_case());

    let case3 = String::from(" This is a third case 3");

    assert_eq!("ThisIsAThirdCase3", case3.to_pascal_case());
}

#[test]
fn is_camel_case_works() {
    let case1 = String::from("thisIsCamelCase");

    assert!(case1.is_camel_case());

    let case2 = String::from("ThisisNotCamelCase");

    assert!(!case2.is_camel_case());

    let case3 = String::from("this isnot_camel_case");

    assert!(!case3.is_camel_case());

    let case4 = String::from("this#isnotCamelcase");

    assert!(!case4.is_camel_case());

    let case5 = String::from("thisIs%&notcamelcase");
    assert!(!case5.is_camel_case());

    let case6 = String::from("thisisnotcamelcase");
    assert!(!case6.is_camel_case());
}

#[test]
fn is_pascal_case_works() {
    let case1 = String::from("ThisIsPascalCase");

    assert!(case1.is_pascal_case());

    let case2 = String::from("thisisNotPascalCase");

    assert!(!case2.is_pascal_case());

    let case3 = String::from("this isnot_pascal_case");

    assert!(!case3.is_pascal_case());

    let case4 = String::from("this#isnotPascalcase");

    assert!(!case4.is_pascal_case());

    let case5 = String::from("thisIs%&notpascalcase");
    assert!(!case5.is_pascal_case());

    let case6 = String::from("thisisnotpascalcase");
    assert!(!case6.is_pascal_case());
}

#[test]
fn first() {
    let case1 = String::from("obtain the first character");

    assert_eq!("o", case1.first());

    assert_eq!("Helo world".first(), "H");
}

#[test]
fn first_of_empty_is_empty() {
    assert_eq!("", String::new().first());
    assert_eq!("", "".first());
    assert_eq!(" ", " leading blank".first());
}

#[test]
fn case_operations_on_empty_and_blank_input() {
    let empty = String::new();
    assert_eq!("", empty.remove_whitespaces());
    assert_eq!("", empty.to_snake_case());
    assert_eq!("", empty.to_camel_case());
    assert_eq!("", empty.to_pascal_case());

    let blank = String::from(" \t  \n ");
    assert_eq!("", blank.remove_whitespaces());
    assert_eq!("", blank.to_snake_case());
    assert_eq!("", blank.to_camel_case());
    assert_eq!("", blank.to_pascal_case());
}

#[test]
fn to_snake_case_is_fixed_point_on_own_output() {
    let case = String::from(" this is the   second case2  ");
    let once = case.to_snake_case();
    let twice = once.to_snake_case();
    assert_eq!(once, twice);

    let single = String::from("word");
    assert_eq!("word", single.to_snake_case());
    assert_eq!("word", single.to_snake_case().to_snake_case());
}

#[test]
fn case_conversion_changes_letter_case() {
    let upper_start = String::from("AB cd");
    assert_eq!("abCd", upper_start.to_camel_case());

    let lower = String::from("abc def");
    assert_eq!("AbcDef", lower.to_pascal_case());

    let single = String::from("Hello");
    assert_eq!("hello", single.to_camel_case());
    assert_eq!("Hello", single.to_pascal_case());
    assert_eq!("X", String::from(" x").to_pascal_case());
}

#[test]
fn is_snake_case_works() {
    let case1 = String::from("this_is_snake_case");
    assert!(case1.is_snake_case());

    let case2 = String::from("nounderscore");
    assert!(!case2.is_snake_case());

    let case3 = String::from("This_is_not");
    assert!(!case3.is_snake_case());

    let case4 = String::from("this is_not");
    assert!(!case4.is_snake_case());

    let case5 = String::from("this#is_not");
    assert!(!case5.is_snake_case());

    let case6 = String::from("");
    assert!(!case6.is_snake_case());
}

#[test]
fn single_character_words() {
    let case = String::from("a b c");
    assert_eq!("a_b_c", case.to_snake_case());
    assert_eq!("aBC", case.to_camel_case());
    assert_eq!("ABC", case.to_pascal_case());
}
