use primer::structs::_compute_area1;
use primer::structs::_compute_area2;
use primer::structs::_compute_area3;
use primer::structs::build_user;
use primer::structs::Rectangle;

#[test]
fn new_user_is_active_and_signed_in_once() {
    let user = build_user(String::from("example@mail.com"), String::from("user1"));
    assert_eq!(user.email, "example@mail.com");
    assert_eq!(user.username, "user1");
    assert!(user.active);
    assert_eq!(user.sign_in_count, 1);
}

#[test]
fn area_is_width_times_height() {
    let rect = Rectangle { width: 2, height: 3 };
    assert_eq!(rect.area(), 6);
    assert_eq!(_compute_area1(2, 3), 6);
    assert_eq!(_compute_area2((2, 3)), 6);
    assert_eq!(_compute_area3(&rect), 6);
}

#[test]
fn area_of_the_largest_square_that_fits() {
    let rect = Rectangle::square(65535);
    assert_eq!(rect.area(), 4294836225);
}

#[test]
fn area_of_a_flat_rectangle_is_zero() {
    let rect = Rectangle { width: 0, height: u32::MAX };
    assert_eq!(rect.area(), 0);
}

#[test]
fn square_has_equal_sides() {
    let square = Rectangle::square(7);
    assert_eq!(square.width, 7);
    assert_eq!(square.height, 7);
}

#[test]
fn rectangle_holds_only_what_is_smaller_both_ways() {
    let rect = Rectangle { width: 2, height: 3 };
    assert!(rect.can_hold(&Rectangle { width: 1, height: 1 }));
    assert!(rect.can_hold(&Rectangle { width: 1, height: 2 }));
    assert!(!rect.can_hold(&Rectangle { width: 2, height: 2 }));
    assert!(!rect.can_hold(&Rectangle { width: 1, height: 3 }));
    assert!(!rect.can_hold(&Rectangle { width: 2, height: 3 }));
    assert!(!rect.can_hold(&Rectangle { width: 3, height: 1 }));
}
