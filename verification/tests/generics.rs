use primer::generics::find_max;
use primer::generics::longest;
use primer::generics::returns_summarizable;
use primer::generics::Article;
use primer::generics::Point;
use primer::generics::Summary;
use primer::generics::Tweet;

#[test]
fn max_of_numbers() {
    let num_list = vec![2, -3, 42, 0, 16];
    assert_eq!(find_max(&num_list), 42);
}

#[test]
fn max_of_characters() {
    let char_list = vec!['h', 'e', 'l', 'l', 'o'];
    assert_eq!(find_max(&char_list), 'o');
}

#[test]
fn max_of_one_element_is_that_element() {
    assert_eq!(find_max(&[7u8]), 7);
}

#[test]
fn max_is_found_at_either_end() {
    assert_eq!(find_max(&[9, 1, 2]), 9);
    assert_eq!(find_max(&[1, 2, 9]), 9);
    assert_eq!(find_max(&[i64::MIN, i64::MAX, 0]), i64::MAX);
}

#[test]
fn max_of_equal_elements() {
    assert_eq!(find_max(&[3, 3, 3]), 3);
}

#[test]
fn the_champion_yields_only_to_what_exceeds_it() {
    assert_eq!(find_max(&[1.0, f64::NAN, 0.5]), 1.0);
    assert!(find_max(&[f64::NAN, 1.0]).is_nan());
    assert_eq!(find_max(&[0.5, 1.5, f64::NAN]), 1.5);
}

#[test]
fn point_hands_out_its_first_coordinate() {
    let int_point = Point { x: 2, y: -2 };
    assert_eq!(*int_point.x(), 2);
    let text_point = Point { x: String::from("left"), y: String::from("right") };
    assert_eq!(text_point.x(), "left");
}

#[test]
fn point_compares_its_coordinates_in_words() {
    assert_eq!(Point { x: 2, y: -2 }.cmp_display(), "x >+ y");
    assert_eq!(Point { x: 2, y: 2 }.cmp_display(), "x >+ y");
    assert_eq!(Point { x: -2, y: 2 }.cmp_display(), "x < y");
}

#[test]
fn article_is_summarized_by_headline_and_author() {
    let article = Article {
        author: String::from("hunter2"),
        headline: String::from("Hello, world!"),
        content: String::from("LOREM IPSUM!!"),
    };
    assert_eq!(article.summarize_author(), "hunter2");
    assert_eq!(article.summarize(), "Hello, world!, by hunter2");
}

#[test]
fn tweet_is_summarized_by_its_author_alone() {
    let tweet = Tweet {
        username: String::from("rustlang"),
        content: String::from("1.0 is out"),
    };
    assert_eq!(tweet.summarize_author(), "@rustlang");
    assert_eq!(tweet.summarize(), "(Read more from @rustlang...)");
}

#[test]
fn the_summarizable_thing_is_a_tweet_by_hunter2() {
    let thing = returns_summarizable();
    assert_eq!(thing.summarize_author(), "@hunter2");
    assert_eq!(thing.summarize(), "(Read more from @hunter2...)");
}

#[test]
fn longest_goes_by_bytes_and_prefers_the_second_on_a_tie() {
    assert_eq!(longest("test", "longer_test"), "longer_test");
    assert_eq!(longest("longer_test", "test"), "longer_test");
    let first = String::from("abc");
    let second = String::from("xyz");
    let chosen = longest(&first, &second);
    assert_eq!(chosen, "xyz");
    assert_eq!(longest("éé", "abc"), "éé");
    assert_eq!(longest("", ""), "");
}
