use fussel::util::{contains_string, list, list_and, list_or, str_eq};

#[test]
fn list_with_zero() {
    let vec: Vec<String> = vec![];
    assert_eq!(list(&vec, ", ", " and "), "");
}

#[test]
fn list_with_one() {
    let vec = vec![String::from("1")];
    assert_eq!(list(&vec, ", ", " and "), "1");
}

#[test]
fn list_with_two() {
    let vec = vec![String::from("1"), String::from("2")];
    assert_eq!(list(&vec, ", ", " and "), "1 and 2");
}

#[test]
fn list_with_three() {
    let vec = vec![String::from("1"), String::from("2"), String::from("3")];
    assert_eq!(list(&vec, ", ", " and "), "1, 2 and 3");
}

#[test]
fn list_with_four() {
    let vec = vec![
        String::from("1"),
        String::from("2"),
        String::from("3"),
        String::from("4"),
    ];
    assert_eq!(list(&vec, ", ", " and "), "1, 2, 3 and 4");
}

#[test]
fn list_and_or_wrappers() {
    let vec = vec![String::from("a"), String::from("b"), String::from("c")];
    assert_eq!(list_and(&vec), "a, b and c");
    assert_eq!(list_or(&vec), "a, b or c");
}

#[test]
fn string_helpers() {
    assert!(str_eq("abc", "abc"));
    assert!(!str_eq("abc", "abd"));
    assert!(!str_eq("abc", "ab"));
    let items = vec![String::from("rs"), String::from("md")];
    assert!(contains_string(&items, "md"));
    assert!(!contains_string(&items, "txt"));
}
