use primer::adder::add_two;
use primer::adder::Guess;
use primer::adder::Rectangle;

#[test]
fn larger_can_hold_smaller() {
    let larger = Rectangle {
        width: 10,
        height: 2,
    };
    let smaller = Rectangle {
        width: 5,
        height: 1,
    };

    assert!(larger.can_hold(&smaller));
}

#[test]
fn smaller_cannot_hold_larger() {
    let smaller = Rectangle {
        width: 5,
        height: 1,
    };
    let larger = Rectangle {
        width: 10,
        height: 2,
    };
    assert!(!smaller.can_hold(&larger));
}

#[test]
fn it_adds_two() {
    let input = 2;
    let expected = 4;

    let res = add_two(2);

    assert_eq!(
        expected, res,
        "Did not add two! Inputted {} and got {}",
        input, res
    );
}

#[test]
fn it_works() -> Result<(), String> {
    if 2 + 2 != 5 {
        Ok(())
    } else {
        Err(String::from("two plus two equals five"))
    }
}

#[test]
fn add_two_at_the_edges() {
    assert_eq!(add_two(i32::MAX - 2), i32::MAX);
    assert_eq!(add_two(i32::MIN), i32::MIN + 2);
    assert_eq!(add_two(-2), 0);
}

#[test]
fn guess_accepts_both_ends_of_its_range() {
    let _lowest = Guess::new(1);
    let _highest = Guess::new(100);
    let _middle = Guess::new(50);
}
