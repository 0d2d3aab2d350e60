use gfwlist::shapes::tangle;
use gfwlist::shapes::MyBox;
use gfwlist::shapes::Sharp;

fn sample() -> MyBox {
    MyBox { label: String::from("Hello1"), left: 5, right: 10, top: 12, bottom: 28 }
}

#[test]
fn circumference_and_area() {
    let b = sample();
    assert_eq!(b.circumference(), 42);
    assert_eq!(b.area(), 80);
}

#[test]
fn measures_ignore_edge_order() {
    let b = sample();
    let c = MyBox { label: String::from("swapped"), left: 10, right: 5, top: 28, bottom: 12 };
    assert_eq!(c.circumference(), b.circumference());
    assert_eq!(c.area(), b.area());
}

#[test]
fn flat_box_has_no_area() {
    let b = MyBox { label: String::new(), left: -3, right: -3, top: -7, bottom: 2 };
    assert_eq!(b.area(), 0);
    assert_eq!(b.circumference(), 18);
}

#[test]
fn debug_and_display_texts() {
    let b = sample();
    assert_eq!(b.to_debug_string(), "MMMMBOX(12, 28, 5, 10)");
    assert_eq!(b.to_display_string(), "(top:12, left:5,right:10,bottom:28)");
    let n = MyBox { label: String::new(), left: -1, right: 0, top: i32::MIN, bottom: i32::MAX };
    assert_eq!(n.to_debug_string(), "MMMMBOX(-2147483648, 2147483647, -1, 0)");
    assert_eq!(n.to_display_string(), "(top:-2147483648, left:-1,right:0,bottom:2147483647)");
}

#[test]
fn sharp_codes() {
    assert_eq!(Sharp::Rectangle.code(), 1);
    assert_eq!(Sharp::Triangle.code(), 3);
}

struct Adder;

impl tangle for Adder {}

#[test]
fn tangle_add_sums() {
    assert_eq!(Adder.add(2, 3), 5);
    assert_eq!(Adder.add(-7, 7), 0);
}
