//! A restaurant, by way of its module tree: guests are met at the front
//! of the house, meals are made at the back.

use std::collections::HashMap;
use vstd::prelude::*;

pub mod back_of_house;
pub mod front_of_house;

pub use crate::restaurant::front_of_house::hosting;

verus! {

/// A visit: the guest is put on the waiting list and orders the summer
/// breakfast, changing the bread on second thought; the bill is noted.
pub fn eat_at_restaurant() {
    hosting::add_to_waitlist();

    let mut meal = back_of_house::Breakfast::summer("White");
    meal.change_toast("Whole wheat");
    assert(meal.bread() == "Whole wheat"@);
    assert(meal.fruit() == back_of_house::SUMMER_FRUIT@);

    let mut map: HashMap<i32, i32> = HashMap::new();
    map.insert(1, 2);
    assert(map@ == Map::<i32, i32>::empty().insert(1, 2));
}

} // verus!
