//! A line filter: the lines of a text that contain a query, with or
//! without regard to letter case.

use crate::text::contains;
use crate::text::lines;
use crate::text::lines_of;
use crate::text::occurs_at;
use crate::text::occurs_in;
use crate::text::texts;
use vstd::prelude::*;
use vstd::std_specs::iter::IteratorSpec;

verus! {

/// What to search for, where, and how.
pub struct Config {
    pub query: String,
    pub fname: String,
    pub case_sensitive: bool,
}

impl Config {
    /// Reads a configuration off the program's arguments: the program's
    /// own name, which is skipped, then the query, then the file name.
    /// Whether letter case counts is decided by the caller. The
    /// arguments come from an iterator that keeps to the laws of
    /// iterators: it yields what it has, then `None`, and `None` ever
    /// after.
    pub fn new<I: Iterator<Item = String>>(mut args: I, case_sensitive: bool) -> (config: Result<
        Config,
        &'static str,
    >)
        requires
            args.obeys_prophetic_iter_laws(),
        ensures
            config is Ok <==> args.remaining().len() >= 3,
            match config {
                Ok(c) => {
                    &&& c.query == args.remaining()[1]
                    &&& c.fname == args.remaining()[2]
                    &&& c.case_sensitive == case_sensitive
                },
                Err(message) => message@ == if args.remaining().len() < 2 {
                    "Didn't get a query"@
                } else {
                    "Didn't get a filename"@
                },
            },
    {
        args.next();
        let query = match args.next() {
            Some(arg) => arg,
            None => return Err("Didn't get a query"),
        };
        let fname = match args.next() {
            Some(arg) => arg,
            None => return Err("Didn't get a filename"),
        };
        Ok(Config { query, fname, case_sensitive })
    }
}

/// `text` with every letter put in lower case, as Unicode defines it.
pub uninterp spec fn lowercase(text: Seq<char>) -> Seq<char>;

/// The test for a line to contain `query`.
pub open spec fn containing(query: Seq<char>) -> spec_fn(Seq<char>) -> bool {
    |line: Seq<char>| occurs_in(query, line)
}

/// The test for a line to contain `query` when letter case is set aside:
/// both are compared in lower case.
pub open spec fn containing_ignoring_case(query: Seq<char>) -> spec_fn(Seq<char>) -> bool {
    |line: Seq<char>| occurs_in(lowercase(query), lowercase(line))
}

/// The lines of `contents` that contain `query`, in their order.
pub open spec fn matching(query: Seq<char>, contents: Seq<char>) -> Seq<Seq<char>> {
    lines_of(contents).filter(containing(query))
}

/// The lines of `contents` that contain `query` when letter case is set
/// aside, in their order and as they stand in `contents`.
pub open spec fn matching_ignoring_case(query: Seq<char>, contents: Seq<char>) -> Seq<Seq<char>> {
    lines_of(contents).filter(containing_ignoring_case(query))
}

/// Folds with `str::to_lowercase` of the standard library. Its result
/// depends on the text alone, not on a locale, and is known here only by
/// its name, [`lowercase`]. Nothing is proved of this function; it is
/// taken on trust.
#[verifier::external_body]
fn to_lowercase(text: &str) -> (lower: String)
    ensures
        lower@ == lowercase(text@),
{
    text.to_lowercase()
}

/// Appends `line` to `found` if `key` contains `query`. The key is the
/// line itself, or what stands for it in the comparison.
pub fn keep_if_matching<'a>(found: &mut Vec<&'a str>, line: &'a str, key: &str, query: &str)
    ensures
        final(found)@ == if occurs_in(query@, key@) {
            old(found)@.push(line)
        } else {
            old(found)@
        },
{
    if contains(key, query) {
        found.push(line);
    }
}

/// One more line has been looked at: the filter of the lines up to and
/// including `lines[i]` is that of the lines before it, with `lines[i]`
/// appended if it passes.
proof fn lemma_filter_step(lines: Seq<&str>, i: int, test: spec_fn(Seq<char>) -> bool)
    requires
        0 <= i < lines.len(),
    ensures
        texts(lines).take(i + 1).filter(test) == if test(lines[i]@) {
            texts(lines).take(i).filter(test).push(lines[i]@)
        } else {
            texts(lines).take(i).filter(test)
        },
{
    let all = texts(lines);
    assert(all.take(i + 1).drop_last() =~= all.take(i));
    assert(all.take(i + 1).last() == lines[i]@);
    reveal(Seq::filter);
}

/// `texts` of a sequence with one more line.
proof fn lemma_texts_push(lines: Seq<&str>, line: &str)
    ensures
        texts(lines.push(line)) == texts(lines).push(line@),
{
    assert(texts(lines.push(line)) =~= texts(lines).push(line@));
}

/// The lines of `contents` that contain `query`.
pub fn search<'a>(query: &str, contents: &'a str) -> (found: Vec<&'a str>)
    ensures
        texts(found@) == matching(query@, contents@),
{
    let all = lines(contents);
    let mut found: Vec<&'a str> = Vec::new();
    let mut i: usize = 0;
    assert(texts(all@).take(0).filter(containing(query@)) =~= texts(found@)) by {
        reveal(Seq::filter);
    }
    while i < all.len()
        invariant
            i <= all.len(),
            texts(found@) == texts(all@).take(i as int).filter(containing(query@)),
        decreases all.len() - i,
    {
        let line = all[i];
        let ghost before = found@;
        keep_if_matching(&mut found, line, line, query);
        proof {
            lemma_filter_step(all@, i as int, containing(query@));
            lemma_texts_push(before, line);
        }
        i += 1;
    }
    assert(texts(all@).take(all.len() as int) =~= texts(all@));
    found
}

/// The lines of `contents` that contain `query` when both are put in
/// lower case. The lines come back as they stand in `contents`.
pub fn search_case_insensitive<'a>(query: &str, contents: &'a str) -> (found: Vec<&'a str>)
    ensures
        texts(found@) == matching_ignoring_case(query@, contents@),
{
    let folded = to_lowercase(query);
    let all = lines(contents);
    let mut found: Vec<&'a str> = Vec::new();
    let ghost test = containing_ignoring_case(query@);
    let mut i: usize = 0;
    assert(texts(all@).take(0).filter(test) =~= texts(found@)) by {
        reveal(Seq::filter);
    }
    while i < all.len()
        invariant
            i <= all.len(),
            folded@ == lowercase(query@),
            test == containing_ignoring_case(query@),
            texts(found@) == texts(all@).take(i as int).filter(test),
        decreases all.len() - i,
    {
        let line = all[i];
        let key = to_lowercase(line);
        let ghost before = found@;
        keep_if_matching(&mut found, line, key.as_str(), folded.as_str());
        proof {
            lemma_filter_step(all@, i as int, test);
            lemma_texts_push(before, line);
        }
        i += 1;
    }
    assert(texts(all@).take(all.len() as int) =~= texts(all@));
    found
}

/// The lines of `contents` that `config` asks for: those that contain its
/// query, with regard to letter case or without.
pub fn run<'a>(config: Config, contents: &'a str) -> (found: Vec<&'a str>)
    ensures
        texts(found@) == if config.case_sensitive {
            matching(config.query@, contents@)
        } else {
            matching_ignoring_case(config.query@, contents@)
        },
{
    if config.case_sensitive {
        search(config.query.as_str(), contents)
    } else {
        search_case_insensitive(config.query.as_str(), contents)
    }
}

/// The exit status of a program that gave up.
pub const EXIT_FAILURE: i32 = 1;

/// How a program that gives up ends: with a message for the standard
/// error stream, and an exit status.
pub struct Failure {
    pub message: String,
    pub status: i32,
}

/// What the program does once it has seen its arguments.
pub enum Step {
    /// Read the file that the configuration names, and search it.
    Read(Config),
    /// Touch no file, and give up.
    Quit(Failure),
}

/// Decides the program's first step. With a query and a file name among
/// the arguments the file is to be read; with fewer than these two the
/// program gives up, with a message that says what is missing and a
/// status other than zero.
pub fn start<I: Iterator<Item = String>>(args: I, case_sensitive: bool) -> (step: Step)
    requires
        args.obeys_prophetic_iter_laws(),
    ensures
        step is Read <==> args.remaining().len() >= 3,
        match step {
            Step::Read(config) => {
                &&& config.query == args.remaining()[1]
                &&& config.fname == args.remaining()[2]
                &&& config.case_sensitive == case_sensitive
            },
            Step::Quit(failure) => {
                &&& failure.status == EXIT_FAILURE
                &&& failure.status != 0
                &&& failure.message@ == "Argument parsing problem: "@ + if args.remaining().len()
                    < 2 {
                    "Didn't get a query"@
                } else {
                    "Didn't get a filename"@
                }
            },
        },
{
    match Config::new(args, case_sensitive) {
        Ok(config) => Step::Read(config),
        Err(problem) => {
            let mut message = "Argument parsing problem: ".to_string();
            message.append(problem);
            Step::Quit(Failure { message, status: EXIT_FAILURE })
        },
    }
}

/// How the program ends when the file could not be read, for the
/// `reason` given.
pub fn read_failed(reason: &str) -> (failure: Failure)
    ensures
        failure.status == EXIT_FAILURE,
        failure.status != 0,
        failure.message@ == "Application error: "@ + reason@,
{
    let mut message = "Application error: ".to_string();
    message.append(reason);
    Failure { message, status: EXIT_FAILURE }
}

/// Where exactly one element passes a test, the filter holds that
/// element and nothing else.
proof fn lemma_filter_single<A>(s: Seq<A>, test: spec_fn(A) -> bool, hit: int)
    requires
        0 <= hit < s.len(),
        forall|i: int| 0 <= i < s.len() ==> (test(#[trigger] s[i]) <==> i == hit),
    ensures
        s.filter(test) == seq![s[hit]],
    decreases s.len(),
{
    reveal(Seq::filter);
    let front = s.drop_last();
    if hit == s.len() - 1 {
        lemma_filter_none(front, test);
        assert(s.filter(test) =~= seq![s[hit]]);
    } else {
        assert forall|i: int| 0 <= i < front.len() implies (test(#[trigger] front[i]) <==> i
            == hit) by {
            assert(front[i] == s[i]);
        }
        lemma_filter_single(front, test, hit);
        assert(!test(s.last()));
        assert(front[hit] == s[hit]);
    }
}

/// Where no element passes a test, the filter is empty.
proof fn lemma_filter_none<A>(s: Seq<A>, test: spec_fn(A) -> bool)
    requires
        forall|i: int| 0 <= i < s.len() ==> !test(#[trigger] s[i]),
    ensures
        s.filter(test) == Seq::<A>::empty(),
    decreases s.len(),
{
    reveal(Seq::filter);
    if s.len() > 0 {
        let front = s.drop_last();
        assert forall|i: int| 0 <= i < front.len() implies !test(#[trigger] front[i]) by {
            assert(front[i] == s[i]);
        }
        lemma_filter_none(front, test);
        assert(!test(s.last()));
    }
}

/// In a text of which exactly one line contains the query, be it of
/// three lines or of any other number, the search returns that line and
/// nothing else.
pub proof fn lemma_single_match(query: Seq<char>, contents: Seq<char>, hit: int)
    requires
        0 <= hit < lines_of(contents).len(),
        forall|i: int|
            0 <= i < lines_of(contents).len() ==> (occurs_in(query, #[trigger] lines_of(contents)[i])
                <==> i == hit),
    ensures
        matching(query, contents) == seq![lines_of(contents)[hit]],
{
    lemma_filter_single(lines_of(contents), containing(query), hit);
}

/// With letter case set aside, a line that differs from the query in
/// nothing but the case of its letters is among the results.
pub proof fn lemma_case_is_ignored(query: Seq<char>, contents: Seq<char>, i: int)
    requires
        0 <= i < lines_of(contents).len(),
        lowercase(lines_of(contents)[i]) == lowercase(query),
    ensures
        matching_ignoring_case(query, contents).contains(lines_of(contents)[i]),
{
    let line = lines_of(contents)[i];
    assert(lowercase(line).subrange(0, lowercase(query).len() as int) =~= lowercase(query));
    assert(occurs_at(lowercase(query), lowercase(line), 0));
    assert(containing_ignoring_case(query)(line));
    lines_of(contents).lemma_filter_contains(containing_ignoring_case(query), i);
}

} // verus!
