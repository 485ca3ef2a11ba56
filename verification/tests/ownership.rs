use primer::ownership::change_by_reference;
use primer::ownership::get_end_idx_of_first_word;
use primer::ownership::get_slice_of_first_word;

#[test]
fn first_word_ends_at_the_first_space() {
    let s = String::from("hello world");
    assert_eq!(get_end_idx_of_first_word(&s), 5);
    assert_eq!(get_slice_of_first_word(&s), "hello");
}

#[test]
fn text_without_space_is_one_word() {
    let s = String::from("hello");
    assert_eq!(get_end_idx_of_first_word(&s), 5);
    assert_eq!(get_slice_of_first_word(&s), "hello");
}

#[test]
fn first_word_of_empty_text_is_empty() {
    assert_eq!(get_end_idx_of_first_word(&String::new()), 0);
    assert_eq!(get_slice_of_first_word(""), "");
}

#[test]
fn leading_space_makes_the_first_word_empty() {
    let s = String::from(" hello world");
    assert_eq!(get_end_idx_of_first_word(&s), 0);
    assert_eq!(get_slice_of_first_word(&s), "");
}

#[test]
fn first_word_end_is_counted_in_bytes() {
    let s = String::from("héllo wörld");
    assert_eq!(get_end_idx_of_first_word(&s), 6);
    assert_eq!(get_slice_of_first_word(&s), "héllo");
    let s = String::from("日本語 です");
    assert_eq!(get_end_idx_of_first_word(&s), 9);
    assert_eq!(get_slice_of_first_word(&s), "日本語");
}

#[test]
fn only_the_plain_space_ends_a_word() {
    assert_eq!(get_slice_of_first_word("a\tb\nc d"), "a\tb\nc");
    assert_eq!(get_slice_of_first_word("a\u{a0}b c"), "a\u{a0}b");
}

#[test]
fn first_word_is_a_part_of_the_text_itself() {
    let s = String::from("hello world");
    let word = get_slice_of_first_word(&s);
    assert_eq!(word.as_ptr(), s.as_ptr());
}

#[test]
fn change_by_reference_appends_content() {
    let mut s = String::from("test5");
    change_by_reference(&mut s);
    assert_eq!(s, "test5content");
    change_by_reference(&mut s);
    assert_eq!(s, "test5contentcontent");
    let mut empty = String::new();
    change_by_reference(&mut empty);
    assert_eq!(empty, "content");
}
