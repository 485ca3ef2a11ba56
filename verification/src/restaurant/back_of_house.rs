//! The kitchen.

use vstd::prelude::*;

verus! {

/// The fruit that comes with breakfast in summer.
pub const SUMMER_FRUIT: &'static str = "peaches";

/// A breakfast. The guest picks the bread; the fruit is the chef's
/// choice, and stays so.
pub struct Breakfast {
    pub toast: String,
    seasonal_fruit: String,
}

impl Breakfast {
    /// The bread.
    pub closed spec fn bread(&self) -> Seq<char> {
        self.toast@
    }

    /// The fruit of the season.
    pub closed spec fn fruit(&self) -> Seq<char> {
        self.seasonal_fruit@
    }

    /// The summer breakfast with the bread asked for.
    pub fn summer(toast: &str) -> (meal: Breakfast)
        ensures
            meal.bread() == toast@,
            meal.fruit() == SUMMER_FRUIT@,
    {
        Breakfast { toast: toast.to_string(), seasonal_fruit: SUMMER_FRUIT.to_string() }
    }

    /// Changes the bread, and nothing else.
    pub fn change_toast(&mut self, toast: &str)
        ensures
            final(self).bread() == toast@,
            final(self).fruit() == old(self).fruit(),
    {
        self.toast = toast.to_string();
    }
}

/// What comes before the meal.
pub enum Appetizer {
    Soup,
    Salad,
}

} // verus!
