use primer::restaurant::back_of_house::Appetizer;
use primer::restaurant::back_of_house::Breakfast;
use primer::restaurant::eat_at_restaurant;
use primer::restaurant::front_of_house::hosting::seat_at_table;
use primer::restaurant::front_of_house::serving::serve_order;
use primer::restaurant::front_of_house::serving::take_order;
use primer::restaurant::front_of_house::serving::take_payment;
use primer::restaurant::hosting;

#[test]
fn summer_breakfast_comes_with_the_bread_asked_for() {
    let meal = Breakfast::summer("Rye");
    assert_eq!(meal.toast, "Rye");
}

#[test]
fn the_bread_can_be_changed() {
    let mut meal = Breakfast::summer("White");
    meal.toast = String::from("Whole wheat");
    assert_eq!(meal.toast, "Whole wheat");
    meal.change_toast("Rye");
    assert_eq!(meal.toast, "Rye");
}

#[test]
fn appetizers_are_soup_and_salad() {
    let order = [Appetizer::Soup, Appetizer::Salad];
    assert!(matches!(order[0], Appetizer::Soup));
    assert!(matches!(order[1], Appetizer::Salad));
}

#[test]
fn a_visit_runs_to_its_end() {
    hosting::add_to_waitlist();
    seat_at_table();
    take_order();
    serve_order();
    take_payment();
    eat_at_restaurant();
}
