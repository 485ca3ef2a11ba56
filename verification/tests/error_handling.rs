use primer::error_handling::demo_file_open;
use primer::error_handling::select;
use primer::error_handling::Demo;
use primer::error_handling::Next;
use primer::error_handling::Outcome;
use primer::error_handling::Selection;
use primer::error_handling::Stage;

#[test]
fn a_file_that_opens_is_used() {
    assert_eq!(demo_file_open(Stage::Opening, Outcome::Done), Next::UseFile);
}

#[test]
fn a_missing_file_is_created() {
    assert_eq!(demo_file_open(Stage::Opening, Outcome::NotFound), Next::CreateFile);
    assert_eq!(demo_file_open(Stage::Creating, Outcome::Done), Next::UseFile);
}

#[test]
fn any_other_failure_to_open_is_final() {
    assert_eq!(
        demo_file_open(Stage::Opening, Outcome::OtherError),
        Next::Abort("Problem opening file")
    );
}

#[test]
fn a_failure_to_create_is_final_whatever_it_is() {
    assert_eq!(
        demo_file_open(Stage::Creating, Outcome::NotFound),
        Next::Abort("Problem creating file")
    );
    assert_eq!(
        demo_file_open(Stage::Creating, Outcome::OtherError),
        Next::Abort("Problem creating file")
    );
}

#[test]
fn the_menu_has_five_entries() {
    assert_eq!(select(Some(1)), Selection::Run(Demo::Panic));
    assert_eq!(select(Some(2)), Selection::Run(Demo::OutOfBounds));
    assert_eq!(select(Some(3)), Selection::Run(Demo::FileOpen));
    assert_eq!(select(Some(4)), Selection::Run(Demo::FileOpen2));
    assert_eq!(select(Some(5)), Selection::Run(Demo::ErrProp));
}

#[test]
fn other_numbers_are_unexpected() {
    assert_eq!(select(Some(0)), Selection::Unexpected);
    assert_eq!(select(Some(6)), Selection::Unexpected);
    assert_eq!(select(Some(u32::MAX)), Selection::Unexpected);
}

#[test]
fn what_is_no_number_is_unreadable() {
    assert_eq!(select(None), Selection::Unreadable);
}
