//! Code that is written once for many types: the greatest element of a
//! list, a point with coordinates of any type, and things that can be
//! summarized.

use std::cmp::Ordering;
use vstd::std_specs::cmp::PartialOrdSpec;
use vstd::prelude::*;

verus! {

/// The comparison operators of `T` agree with its specification.
pub open spec fn comparable<T: PartialOrd>() -> bool {
    T::obeys_partial_cmp_spec()
}

/// `a > b`.
pub open spec fn exceeds<T: PartialOrd>(a: T, b: T) -> bool {
    a.partial_cmp_spec(&b) == Some(Ordering::Greater)
}

/// `a >= b`.
pub open spec fn at_least<T: PartialOrd>(a: T, b: T) -> bool {
    a.partial_cmp_spec(&b) matches Some(Ordering::Greater | Ordering::Equal)
}

/// The champion of `list`: its first element, replaced in turn by every
/// later element that exceeds the champion so far.
pub open spec fn greatest<T: PartialOrd>(list: Seq<T>) -> T
    decreases list.len(),
{
    if list.len() <= 1 {
        list[0]
    } else {
        let champion = greatest(list.drop_last());
        if exceeds(list.last(), champion) {
            list.last()
        } else {
            champion
        }
    }
}

/// The champion of a list is one of its elements.
pub proof fn lemma_greatest_is_element<T: PartialOrd>(list: Seq<T>)
    requires
        list.len() > 0,
    ensures
        list.contains(greatest(list)),
    decreases list.len(),
{
    if list.len() > 1 {
        lemma_greatest_is_element(list.drop_last());
        let champion = greatest(list.drop_last());
        let at = choose|i: int| 0 <= i < list.drop_last().len() && list.drop_last()[i] == champion;
        assert(list[at] == champion);
        assert(list[list.len() - 1] == list.last());
    } else {
        assert(list[0] == greatest(list));
    }
}

/// The order of `T` is linear: of any two values one is at least the
/// other, and being at least another carries over from value to value.
pub open spec fn linear<T: PartialOrd>() -> bool {
    &&& forall|a: T, b: T| #[trigger] exceeds(a, b) || #[trigger] at_least(b, a)
    &&& forall|a: T, b: T| #[trigger] exceeds(a, b) ==> at_least(a, b)
    &&& forall|a: T, b: T, c: T|
        #[trigger] at_least(a, b) && #[trigger] at_least(b, c) ==> at_least(a, c)
}

/// In a linear order the champion of a list is at least every element of
/// the list: it is a greatest element.
pub proof fn lemma_greatest_is_greatest<T: PartialOrd>(list: Seq<T>, i: int)
    requires
        linear::<T>(),
        0 <= i < list.len(),
    ensures
        at_least(greatest(list), list[i]),
    decreases list.len(),
{
    if list.len() <= 1 {
        assert(exceeds(list[0], list[0]) || at_least(list[0], list[0]));
    } else {
        let front = list.drop_last();
        let champion = greatest(front);
        let last = list.last();
        assert(exceeds(last, champion) || at_least(champion, last));
        if i < front.len() {
            lemma_greatest_is_greatest(front, i);
            assert(front[i] == list[i]);
            if exceeds(last, champion) {
                assert(at_least(last, champion) && at_least(champion, list[i]));
            }
        } else {
            assert(list[i] == last);
            assert(exceeds(last, last) || at_least(last, last));
        }
    }
}

/// The champion of a list that is not empty: where the order is linear,
/// its greatest element.
pub fn find_max<T: PartialOrd + Copy>(list: &[T]) -> (max: T)
    requires
        comparable::<T>(),
        list@.len() > 0,
    ensures
        max == greatest(list@),
{
    let mut max = list[0];
    let mut i: usize = 1;
    assert(list@.take(1).len() == 1);
    while i < list.len()
        invariant
            1 <= i <= list@.len(),
            comparable::<T>(),
            max == greatest(list@.take(i as int)),
        decreases list@.len() - i,
    {
        let item = list[i];
        assert(list@.take(i + 1).drop_last() =~= list@.take(i as int));
        if item > max {
            max = item;
        }
        i += 1;
    }
    assert(list@.take(i as int) =~= list@);
    max
}

/// A point in the plane.
pub struct Point<T> {
    pub x: T,
    pub y: T,
}

impl<T> Point<T> {
    /// The first coordinate.
    pub fn x(&self) -> (x: &T)
        ensures
            *x == self.x,
    {
        &self.x
    }
}

impl<T: std::fmt::Display + PartialOrd> Point<T> {
    /// How the two coordinates compare, in words.
    pub fn cmp_display(&self) -> (words: &'static str)
        requires
            comparable::<T>(),
        ensures
            words@ == if at_least(self.x, self.y) {
                "x >+ y"@
            } else {
                "x < y"@
            },
    {
        if self.x >= self.y {
            "x >+ y"
        } else {
            "x < y"
        }
    }
}

/// The line that stands for a text of which only the author is known.
pub open spec fn teaser(author: Seq<char>) -> Seq<char> {
    "(Read more from "@ + author + "...)"@
}

/// Something that has an author and can be told in one line.
pub trait Summary {
    /// The author's name, as it is shown.
    spec fn author(&self) -> Seq<char>;

    /// The author's name, as it is shown.
    fn summarize_author(&self) -> (author: String)
        ensures
            author@ == self.author(),
    ;

    /// The one line. Unless a type says otherwise, it names the author
    /// and nothing more.
    fn summarize(&self) -> (summary: String)
        default_ensures
            summary@ == teaser(self.author()),
    {
        let mut summary = "(Read more from ".to_string();
        summary.append(self.summarize_author().as_str());
        summary.append("...)");
        summary
    }
}

pub struct Article {
    pub author: String,
    pub headline: String,
    pub content: String,
}

impl Summary for Article {
    open spec fn author(&self) -> Seq<char> {
        self.author@
    }

    fn summarize_author(&self) -> (author: String) {
        self.author.clone()
    }

    fn summarize(&self) -> (summary: String)
        ensures
            summary@ == self.headline@ + ", by "@ + self.author@,
    {
        let mut summary = self.headline.clone();
        summary.append(", by ");
        summary.append(self.author.as_str());
        summary
    }
}

pub struct Tweet {
    pub username: String,
    pub content: String,
}

impl Summary for Tweet {
    open spec fn author(&self) -> Seq<char> {
        "@"@ + self.username@
    }

    fn summarize_author(&self) -> (author: String) {
        let mut author = "@".to_string();
        author.append(self.username.as_str());
        author
    }
}

/// Some summarizable thing: as it happens, a tweet by `hunter2`.
pub fn returns_summarizable() -> (thing: impl Summary)
    ensures
        thing.author() == "@hunter2"@,
{
    proof {
        reveal_strlit("@");
        reveal_strlit("hunter2");
        reveal_strlit("@hunter2");
        assert("@"@ + "hunter2"@ =~= "@hunter2"@);
    }
    Tweet { username: "hunter2".to_string(), content: "Hello, world!".to_string() }
}

/// The longer of two texts, by their length in bytes; the second where
/// neither is longer.
pub fn longest<'a>(s1: &'a str, s2: &'a str) -> (longer: &'a str)
    ensures
        longer == if s1.len() > s2.len() {
            s1
        } else {
            s2
        },
{
    if s1.len() > s2.len() {
        s1
    } else {
        s2
    }
}

} // verus!
