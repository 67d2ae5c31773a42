use fussel::span::{Position, Range, Scope};

#[test]
fn range_normalizes_either_order() {
    let a = Position::new(3, 7);
    let b = Position::new(2, 9);
    let r1 = Range::new(a, b);
    let r2 = Range::new(b, a);
    assert_eq!(r1, r2);
    assert_eq!(r1.lb, b);
    assert_eq!(r1.ub, a);
}

#[test]
fn contains_is_reflexive_and_transitive() {
    let outer = Range::new(Position::new(1, 0), Position::new(9, 0));
    let middle = Range::new(Position::new(2, 3), Position::new(8, 1));
    let inner = Range::new(Position::new(2, 4), Position::new(7, 0));
    assert!(outer.contains(&outer));
    assert!(outer.contains(&middle));
    assert!(middle.contains(&inner));
    assert!(outer.contains(&inner));
    assert!(!inner.contains(&outer));
}

#[test]
fn scope_requires_equal_paths() {
    let r = Range::new(Position::new(1, 0), Position::new(2, 0));
    let a = Scope::new(String::from("src/a.rs"), r);
    let b = Scope::new(String::from("src/b.rs"), r);
    let a2 = Scope::new(String::from("src/a.rs"), r);
    assert!(a.contains(&a2));
    assert!(!a.contains(&b));
}

#[test]
fn position_order_is_lexicographic() {
    assert!(Position::new(1, 9).le(&Position::new(2, 0)));
    assert!(Position::new(2, 0).le(&Position::new(2, 0)));
    assert!(!Position::new(2, 1).le(&Position::new(2, 0)));
}
