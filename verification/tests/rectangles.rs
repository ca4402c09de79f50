use basics::numbers::adds_two;
use basics::rectangles::Rectangle;

#[test]
fn larger_can_hold_smaller() {
    let larger = Rectangle::new(8, 7);
    let smaller = Rectangle::new(5, 1);
    assert!(larger.can_hold(&smaller));
}

#[test]
fn smaller_cannot_hold_larger() {
    let larger = Rectangle::new(8, 7);
    let smaller = Rectangle::new(5, 1);
    assert!(!smaller.can_hold(&larger));
}

#[test]
fn it_adds_two() {
    assert_eq!(adds_two(2), 4);
}

#[test]
fn adds_two_to_negative_and_to_largest_admitted() {
    assert_eq!(adds_two(-2), 0);
    assert_eq!(adds_two(i32::MIN), i32::MIN + 2);
    assert_eq!(adds_two(i32::MAX - 2), i32::MAX);
}

#[test]
fn area_is_width_times_height() {
    assert_eq!(Rectangle::new(60, 50).area(), 3000);
    assert_eq!(Rectangle::new(40, 30).area(), 1200);
    assert_eq!(Rectangle::new(0, 9).area(), 0);
    assert_eq!(Rectangle::new(65535, 65537).area(), u32::MAX);
}

#[test]
fn square_has_equal_sides() {
    let square = Rectangle::square(100);
    assert_eq!(square.area(), 10000);
    assert!(square.can_hold(&Rectangle::new(99, 99)));
    assert!(!square.can_hold(&Rectangle::new(100, 99)));
    assert!(!square.can_hold(&Rectangle::new(99, 100)));
}

#[test]
fn equal_rectangles_do_not_hold_each_other() {
    let a = Rectangle::new(8, 7);
    let b = Rectangle::new(8, 7);
    assert!(!a.can_hold(&b));
    assert!(!b.can_hold(&a));
    assert!(!a.can_hold(&a));
}

#[test]
fn one_longer_side_is_not_enough() {
    let wide = Rectangle::new(10, 2);
    let tall = Rectangle::new(2, 10);
    assert!(!wide.can_hold(&tall));
    assert!(!tall.can_hold(&wide));
    assert!(!wide.can_hold(&Rectangle::new(9, 2)));
    assert!(wide.can_hold(&Rectangle::new(9, 1)));
}

#[test]
fn holding_is_transitive_on_a_chain() {
    let a = Rectangle::new(9, 9);
    let b = Rectangle::new(5, 6);
    let c = Rectangle::new(1, 2);
    assert!(a.can_hold(&b) && b.can_hold(&c) && a.can_hold(&c));
    assert!(a.area() > b.area() && b.area() > c.area());
}

#[test]
fn debug_output_names_the_sides() {
    let text = format!("{:?}", Rectangle::new(30, 50));
    assert_eq!(text, "Rectangle { width: 30, height: 50 }");
}
