//! Values behind pointers: a list whose tail lives on the heap, a box of
//! one's own, and a messenger that keeps what it was asked to send.

use std::ops::Deref;
use vstd::prelude::*;

verus! {

/// A list of numbers, each cell holding its number and the rest.
pub enum List {
    Cons(i32, Box<List>),
    Nil,
}

/// The numbers of a list, first cell first.
pub open spec fn elements(list: List) -> Seq<i32>
    decreases list,
{
    match list {
        List::Cons(head, tail) => seq![head] + elements(*tail),
        List::Nil => Seq::empty(),
    }
}

/// Builds the list 1, 2, 3, cell by cell.
pub fn learning_about_box() {
    let list = List::Cons(1, Box::new(List::Cons(2, Box::new(List::Cons(3, Box::new(List::Nil))))));
    assert(elements(list) =~= seq![1i32, 2i32, 3i32]) by {
        reveal_with_fuel(elements, 4);
    }
}

/// A box that holds its value in place.
pub struct MyBox<T>(pub T);

impl<T> MyBox<T> {
    /// Boxes `x`.
    pub fn new(x: T) -> (boxed: MyBox<T>)
        ensures
            boxed.0 == x,
    {
        MyBox(x)
    }
}

impl<T> Deref for MyBox<T> {
    type Target = T;

    /// The value in the box.
    fn deref(&self) -> (target: &T)
        ensures
            *target == self.0,
    {
        &self.0
    }
}

/// A value is the same whether it is read directly, through a reference,
/// through a box on the heap, or through a [`MyBox`].
pub fn learning_about_mybox() {
    let x: i32 = 5;
    let y = &x;
    let z = Box::new(x);
    let w = MyBox::new(x);
    assert(5 == x);
    assert(5 == *y);
    assert(5 == *z);
    let through_my_box = *w;
    assert(5 == through_my_box);
}

/// Something that delivers messages.
pub trait Messenger {
    fn send(&mut self, msg: &str);
}

/// A messenger that delivers nothing and keeps every message instead.
pub struct MockMessenger {
    sent_messages: Vec<String>,
}

impl View for MockMessenger {
    type V = Seq<Seq<char>>;

    /// The messages kept, oldest first.
    closed spec fn view(&self) -> Seq<Seq<char>> {
        self.sent_messages@.map_values(|message: String| message@)
    }
}

impl MockMessenger {
    /// A messenger that has kept nothing yet.
    pub fn new() -> (messenger: MockMessenger)
        ensures
            messenger@ == Seq::<Seq<char>>::empty(),
    {
        let messenger = MockMessenger { sent_messages: Vec::new() };
        assert(messenger@ =~= Seq::<Seq<char>>::empty());
        messenger
    }

    /// How many messages have been kept.
    pub fn sent(&self) -> (count: usize)
        ensures
            count == self@.len(),
    {
        self.sent_messages.len()
    }
}

impl Messenger for MockMessenger {
    /// Keeps `msg`.
    fn send(&mut self, msg: &str)
        ensures
            final(self)@ == old(self)@.push(msg@),
    {
        self.sent_messages.push(msg.to_string());
        assert(self@ =~= old(self)@.push(msg@));
    }
}

/// A fresh mock that is sent one message has kept one message.
pub fn learning_about_refcell() {
    let mut messenger = MockMessenger::new();
    messenger.send("Hello world!");
    assert(messenger@.len() == 1);
    assert(messenger@[0] == "Hello world!"@);
}

} // verus!
