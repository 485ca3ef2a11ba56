use primer::minigrep::keep_if_matching;
use primer::minigrep::read_failed;
use primer::minigrep::run;
use primer::minigrep::search;
use primer::minigrep::search_case_insensitive;
use primer::minigrep::start;
use primer::minigrep::Config;
use primer::minigrep::Step;

#[test]
fn new_config_works_with_3_args() {
    let args = [
        String::from("bin_name"),
        String::from("arg1"),
        String::from("arg2"),
    ];

    if let Err(msg) = Config::new(args.into_iter(), true) {
        panic!("Fatal test error: {}", msg);
    }
}

#[test]
fn search_returns_1_result() {
    let query = "fear";
    let contents = "\
All my past and futures
And we all went to heaven in a little row boat
There was nothing to fear and nothing to doubt";
    assert_eq!(
        vec!["There was nothing to fear and nothing to doubt"],
        search(query, contents)
    );
}

#[test]
fn search_case_insensitive_2_results() {
    let query = "and";
    let contents = "\
Black-eyed angels swam with me
A moon full of stars and astral cars
And all the things I used to see";
    assert_eq!(
        vec![
            "A moon full of stars and astral cars",
            "And all the things I used to see"
        ],
        search_case_insensitive(query, contents)
    );
}

#[test]
fn new_config_takes_query_and_file_name_in_order() {
    let args = vec![
        String::from("bin_name"),
        String::from("arg1"),
        String::from("arg2"),
        String::from("ignored"),
    ];
    let config = Config::new(args.into_iter(), false).unwrap();
    assert_eq!(config.query, "arg1");
    assert_eq!(config.fname, "arg2");
    assert!(!config.case_sensitive);
}

#[test]
fn new_config_without_file_name_says_so() {
    let args = [String::from("bin_name"), String::from("arg1")];
    assert_eq!(
        Config::new(args.into_iter(), true).err(),
        Some("Didn't get a filename")
    );
}

#[test]
fn new_config_without_query_says_so() {
    let args = [String::from("bin_name")];
    assert_eq!(
        Config::new(args.into_iter(), true).err(),
        Some("Didn't get a query")
    );
    let none: [String; 0] = [];
    assert_eq!(
        Config::new(none.into_iter(), true).err(),
        Some("Didn't get a query")
    );
}

#[test]
fn start_with_too_few_arguments_quits_with_failure() {
    let args = [String::from("bin_name"), String::from("arg1")];
    match start(args.into_iter(), true) {
        Step::Quit(failure) => {
            assert_eq!(failure.message, "Argument parsing problem: Didn't get a filename");
            assert_eq!(failure.status, 1);
        }
        Step::Read(_) => panic!("must not read a file"),
    }
    let args = [String::from("bin_name")];
    match start(args.into_iter(), false) {
        Step::Quit(failure) => {
            assert_eq!(failure.message, "Argument parsing problem: Didn't get a query");
            assert_eq!(failure.status, 1);
        }
        Step::Read(_) => panic!("must not read a file"),
    }
}

#[test]
fn start_with_both_arguments_reads_the_file() {
    let args = [
        String::from("bin_name"),
        String::from("needle"),
        String::from("haystack.txt"),
    ];
    match start(args.into_iter(), false) {
        Step::Read(config) => {
            assert_eq!(config.query, "needle");
            assert_eq!(config.fname, "haystack.txt");
            assert!(!config.case_sensitive);
        }
        Step::Quit(_) => panic!("must read the file"),
    }
}

#[test]
fn a_file_that_cannot_be_read_ends_the_program_with_failure() {
    let failure = read_failed("No such file or directory (os error 2)");
    assert_eq!(
        failure.message,
        "Application error: No such file or directory (os error 2)"
    );
    assert_eq!(failure.status, 1);
    assert_eq!(read_failed("").message, "Application error: ");
}

#[test]
fn one_line_of_three_matches() {
    let contents = "first line\nsecond one\nthird line";
    assert_eq!(search("one", contents), vec!["second one"]);
}

#[test]
fn search_minds_letter_case() {
    let contents = "Rust:\nsafe, fast, productive.\nTrust me.";
    assert_eq!(search("rust", contents), vec!["Trust me."]);
    assert_eq!(search("Rust", contents), vec!["Rust:"]);
}

#[test]
fn search_case_insensitive_sets_letter_case_aside() {
    let contents = "Rust:\nsafe, fast, productive.\nTrust me.";
    assert_eq!(
        search_case_insensitive("rUsT", contents),
        vec!["Rust:", "Trust me."]
    );
    assert_eq!(search_case_insensitive("RUST:", "rust:"), vec!["rust:"]);
}

#[test]
fn search_case_insensitive_folds_letters_beyond_ascii() {
    let contents = "ÄRGER\nruhe";
    assert_eq!(search_case_insensitive("ärger", contents), vec!["ÄRGER"]);
    assert_eq!(search("ärger", contents), Vec::<&str>::new());
}

#[test]
fn lines_end_at_line_feeds_with_or_without_carriage_return() {
    assert_eq!(search("", "a\r\nb\n\nc"), vec!["a", "b", "", "c"]);
    assert_eq!(search("", "a\n"), vec!["a"]);
    assert_eq!(search("", "\n"), vec![""]);
    assert_eq!(search("", ""), Vec::<&str>::new());
    assert_eq!(search("", "a\r\r\nb"), vec!["a\r", "b"]);
}

#[test]
fn a_carriage_return_alone_ends_no_line() {
    assert_eq!(search("b", "a\rb\nc"), vec!["a\rb"]);
    assert_eq!(search("baz", "foo\nbaz\r"), vec!["baz\r"]);
}

#[test]
fn query_longer_than_every_line_matches_nothing() {
    assert_eq!(search("abcd", "abc\nbcd\n"), Vec::<&str>::new());
}

#[test]
fn query_must_stand_within_one_line() {
    assert_eq!(search("ab", "a\nb"), Vec::<&str>::new());
    assert_eq!(search("a\nb", "a\nb"), Vec::<&str>::new());
}

#[test]
fn matches_come_in_the_order_of_the_text() {
    assert_eq!(search("x", "x1\ny\nx2\nx3"), vec!["x1", "x2", "x3"]);
}

#[test]
fn run_follows_the_configuration() {
    let contents = "Rust:\nsafe, fast, productive.\nTrust me.";
    let sensitive = Config {
        query: String::from("rust"),
        fname: String::from("poem.txt"),
        case_sensitive: true,
    };
    assert_eq!(run(sensitive, contents), vec!["Trust me."]);
    let insensitive = Config {
        query: String::from("rust"),
        fname: String::from("poem.txt"),
        case_sensitive: false,
    };
    assert_eq!(run(insensitive, contents), vec!["Rust:", "Trust me."]);
}

#[test]
fn keep_if_matching_goes_by_the_key() {
    let mut found = vec!["before"];
    keep_if_matching(&mut found, "Line", "line", "in");
    assert_eq!(found, vec!["before", "Line"]);
    keep_if_matching(&mut found, "Other", "other", "in");
    assert_eq!(found, vec!["before", "Line"]);
    keep_if_matching(&mut found, "in", "out", "in");
    assert_eq!(found, vec!["before", "Line"]);
}
