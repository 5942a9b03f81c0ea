use exercises::describe::{Describe, Point, User};

#[test]
fn test_derive_debug() {
    let point = Point { x: 1, y: 2 };
    let debug_str = format!("{:?}", point);
    assert!(debug_str.contains("Point"));
}

#[test]
fn test_derive_clone() {
    let point = Point { x: 1, y: 2 };
    let cloned = point.clone();
    assert_eq!(point, cloned);
}

#[test]
fn test_describe_trait() {
    let user = User {
        name: "Test".to_string(),
        age: 25,
    };
    assert!(user.describe().contains("Test"));
    assert!(user.describe().contains("25"));
}

#[test]
fn describe_exact_and_default_point() {
    let user = User { name: "Alice".to_string(), age: 30 };
    assert_eq!(user.describe(), "User: Alice is 30 years old");
    assert_eq!(Point::default(), Point { x: 0, y: 0 });
}
