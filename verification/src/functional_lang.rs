//! A memoizing wrapper around a unary function and a bounded counting
//! sequence.

use std::collections::HashMap;
use std::hash::Hash;
use vstd::prelude::*;
use vstd::seq_lib::lemma_seq_contains_after_push;
use vstd::seq_lib::to_multiset_contains;
use vstd::std_specs::hash::obeys_key_model;

verus! {

/// What a [`Cacher`] has done so far: the results it has stored, and the
/// arguments it has handed to the wrapped function, oldest first.
#[verifier::reject_recursive_types(U)]
pub struct Memo<U, V> {
    pub stored: Map<U, V>,
    pub calls: Seq<U>,
}

impl<U, V> Memo<U, V> {
    /// Every stored key was computed by exactly one call, and every call
    /// left its result stored.
    pub open spec fn consistent(self) -> bool {
        &&& self.calls.no_duplicates()
        &&& forall|k: U| self.stored.contains_key(k) <==> self.calls.contains(k)
    }

    /// `result` is an answer that a lookup of `arg` may give: the stored
    /// result where there is one, anything the function returns otherwise.
    pub open spec fn answers(self, arg: U, result: V) -> bool {
        self.stored.contains_key(arg) ==> result == self.stored[arg]
    }

    /// The memo after a lookup of `arg` that answered `result`: unchanged
    /// for a key seen before, else one more call and one more stored result.
    pub open spec fn lookup(self, arg: U, result: V) -> Memo<U, V> {
        if self.stored.contains_key(arg) {
            self
        } else {
            Memo { stored: self.stored.insert(arg, result), calls: self.calls.push(arg) }
        }
    }

    /// How often the function has been called with `arg`.
    pub open spec fn times_called(self, arg: U) -> nat {
        self.calls.to_multiset().count(arg)
    }

    /// In a consistent memo the function has been called once for each
    /// stored key and never for any other argument.
    pub proof fn lemma_called_once_per_key(self, arg: U)
        requires
            self.consistent(),
        ensures
            self.times_called(arg) == if self.stored.contains_key(arg) {
                1nat
            } else {
                0nat
            },
    {
        to_multiset_contains(self.calls, arg);
        self.calls.lemma_multiset_has_no_duplicates();
    }

    /// A lookup changes no stored result: what a key was answered with
    /// once, it is answered with ever after.
    pub proof fn lemma_stored_results_stay(self, arg: U, result: V, key: U)
        requires
            self.stored.contains_key(key),
        ensures
            self.lookup(arg, result).stored.contains_key(key),
            self.lookup(arg, result).stored[key] == self.stored[key],
    {
    }

    /// A lookup keeps a consistent memo consistent.
    pub proof fn lemma_lookup_consistent(self, arg: U, result: V)
        requires
            self.consistent(),
        ensures
            self.lookup(arg, result).consistent(),
    {
        let after = self.lookup(arg, result);
        if !self.stored.contains_key(arg) {
            assert(!self.calls.contains(arg));
            assert forall|k: U| after.stored.contains_key(k) <==> after.calls.contains(k) by {
                lemma_seq_contains_after_push(self.calls, arg, k);
            }
            assert forall|i: int, j: int|
                0 <= i < after.calls.len() && 0 <= j < after.calls.len() && i != j implies after.calls[i]
                != after.calls[j] by {
                if i < self.calls.len() {
                    assert(self.calls.contains(self.calls[i]));
                }
                if j < self.calls.len() {
                    assert(self.calls.contains(self.calls[j]));
                }
            }
        }
    }
}

/// Looking up `k1`, then `k2`, then `k1` again answers `k1` the same both
/// times, the third lookup calls nothing, and in the end the function has
/// been called exactly once with `k1` and exactly once with `k2`.
pub proof fn lemma_repeated_lookup<U, V>(memo: Memo<U, V>, k1: U, k2: U, r1: V, r2: V, r3: V)
    requires
        memo.consistent(),
        k1 != k2,
        memo.answers(k1, r1),
        memo.lookup(k1, r1).answers(k2, r2),
        memo.lookup(k1, r1).lookup(k2, r2).answers(k1, r3),
    ensures
        r3 == r1,
        memo.lookup(k1, r1).lookup(k2, r2).lookup(k1, r3) == memo.lookup(k1, r1).lookup(k2, r2),
        memo.lookup(k1, r1).lookup(k2, r2).lookup(k1, r3).times_called(k1) == 1,
        memo.lookup(k1, r1).lookup(k2, r2).lookup(k1, r3).times_called(k2) == 1,
{
    let first = memo.lookup(k1, r1);
    let second = first.lookup(k2, r2);
    memo.lemma_lookup_consistent(k1, r1);
    first.lemma_lookup_consistent(k2, r2);
    assert(first.stored.contains_key(k1) && first.stored[k1] == r1);
    assert(second.stored.contains_key(k1) && second.stored[k1] == r1);
    assert(second.stored.contains_key(k2));
    second.lemma_called_once_per_key(k1);
    second.lemma_called_once_per_key(k2);
}

/// A unary function together with the results it has already computed.
#[verifier::reject_recursive_types(U)]
#[verifier::reject_recursive_types(V)]
pub struct Cacher<T, U, V> where U: Hash + Eq, T: Fn(U) -> V {
    calculation: T,
    value_map: HashMap<U, V>,
    calls: Ghost<Seq<U>>,
}

impl<T, U, V> View for Cacher<T, U, V> where U: Hash + Eq, T: Fn(U) -> V {
    type V = Memo<U, V>;

    closed spec fn view(&self) -> Memo<U, V> {
        Memo { stored: self.value_map@, calls: self.calls@ }
    }
}

impl<T, U, V> Cacher<T, U, V> where U: Hash + Eq + Copy, V: Copy, T: Fn(U) -> V {
    /// The wrapped function.
    pub closed spec fn calculation(&self) -> T {
        self.calculation
    }

    /// The memo is consistent and holds nothing but results of the
    /// wrapped function.
    pub closed spec fn wf(&self) -> bool {
        &&& obeys_key_model::<U>()
        &&& self@.consistent()
        &&& forall|k: U| #[trigger]
            self.value_map@.contains_key(k) ==> call_ensures(
                self.calculation,
                (k,),
                self.value_map@[k],
            )
    }

    /// Wraps `calculation` with an empty memo.
    pub fn new(calculation: T) -> (cacher: Cacher<T, U, V>)
        requires
            obeys_key_model::<U>(),
        ensures
            cacher.wf(),
            cacher.calculation() == calculation,
            cacher@.stored == Map::<U, V>::empty(),
            cacher@.calls == Seq::<U>::empty(),
    {
        Cacher { calculation, value_map: HashMap::new(), calls: Ghost(Seq::empty()) }
    }

    /// Looks `arg` up, calling the wrapped function only if `arg` has not
    /// been seen before, and storing what it returns. Either way the
    /// result is one that the function gives for `arg`: the one it gave
    /// the first time.
    pub fn value(&mut self, arg: U) -> (result: V)
        requires
            old(self).wf(),
            old(self)@.stored.contains_key(arg) || call_requires(old(self).calculation(), (arg,)),
        ensures
            final(self).wf(),
            final(self).calculation() == old(self).calculation(),
            call_ensures(old(self).calculation(), (arg,), result),
            old(self)@.answers(arg, result),
            final(self)@ == old(self)@.lookup(arg, result),
    {
        match self.value_map.get(&arg) {
            Some(v) => *v,
            None => {
                let v = (self.calculation)(arg);
                self.value_map.insert(arg, v);
                self.calls = Ghost(self.calls@.push(arg));
                proof {
                    old(self)@.lemma_lookup_consistent(arg, v);
                }
                v
            },
        }
    }
}

/// A day's session.
#[derive(Clone, Copy, Debug, PartialEq, Eq, Structural)]
pub enum Workout {
    /// Low intensity: sets of both exercises, of the same computed size.
    Strength { pushups: u32, situps: u32 },
    /// High intensity on a lucky day: no exercise.
    Rest,
    /// High intensity otherwise: a run of the computed length.
    Run { minutes: u32 },
}

/// The draw on which a high-intensity day turns into a day of rest.
pub const LUCKY_NUMBER: u32 = 3;

/// The intensity from which on a session is a run.
pub const RUN_THRESHOLD: u32 = 25;

/// Plans a session. `calculation` is the costly step that sizes it: it is
/// memoized, so that it runs once for the two exercises of a strength
/// session, and not at all on a rest day.
pub fn generate_workout<F: Fn(u32) -> u32>(intensity: u32, random_number: u32, calculation: F) -> (plan:
    Workout)
    requires
        intensity < RUN_THRESHOLD || random_number != LUCKY_NUMBER ==> call_requires(
            calculation,
            (intensity,),
        ),
    ensures
        match plan {
            Workout::Strength { pushups, situps } => {
                &&& intensity < RUN_THRESHOLD
                &&& situps == pushups
                &&& call_ensures(calculation, (intensity,), pushups)
            },
            Workout::Rest => intensity >= RUN_THRESHOLD && random_number == LUCKY_NUMBER,
            Workout::Run { minutes } => {
                &&& intensity >= RUN_THRESHOLD
                &&& random_number != LUCKY_NUMBER
                &&& call_ensures(calculation, (intensity,), minutes)
            },
        },
{
    let mut expensive_closure = Cacher::new(calculation);
    if intensity < RUN_THRESHOLD {
        let pushups = expensive_closure.value(intensity);
        let situps = expensive_closure.value(intensity);
        Workout::Strength { pushups, situps }
    } else if random_number == LUCKY_NUMBER {
        Workout::Rest
    } else {
        Workout::Run { minutes: expensive_closure.value(intensity) }
    }
}

/// The last value a [`Counter`] produces.
pub const LIMIT: u32 = 5;

/// The numbers `first, first + 1, ..., last` in ascending order; none
/// where `first > last`.
pub open spec fn count_up(first: int, last: int) -> Seq<u32> {
    Seq::new((last + 1 - first) as nat, |i: int| (first + i) as u32)
}

/// One production step on the values still to come: the head is handed
/// out and dropped; an empty sequence yields the exhaustion signal and
/// stays empty.
pub open spec fn produce(upcoming: Seq<u32>) -> (Option<u32>, Seq<u32>) {
    if upcoming.len() > 0 {
        (Some(upcoming[0]), upcoming.drop_first())
    } else {
        (None, upcoming)
    }
}

/// What `n` production steps in a row hand out, first step first.
pub open spec fn productions(upcoming: Seq<u32>, n: nat) -> Seq<Option<u32>>
    decreases n,
{
    if n == 0 {
        Seq::empty()
    } else {
        seq![produce(upcoming).0] + productions(produce(upcoming).1, (n - 1) as nat)
    }
}

/// Repeated production hands out the upcoming values in order, one per
/// step, and signals exhaustion at every step after the last of them.
pub proof fn lemma_productions(upcoming: Seq<u32>, n: nat)
    ensures
        productions(upcoming, n).len() == n,
        forall|i: int|
            0 <= i < n ==> #[trigger] productions(upcoming, n)[i] == if i < upcoming.len() {
                Some(upcoming[i])
            } else {
                None::<u32>
            },
    decreases n,
{
    if n > 0 {
        lemma_productions(produce(upcoming).1, (n - 1) as nat);
    }
}

/// Producing more than `limit` times from `1, 2, ..., limit` yields
/// exactly `1, 2, ..., limit`, each once and in order, then exhaustion at
/// every further step.
pub proof fn lemma_counts_then_exhausts(limit: u32, extra: nat)
    ensures
        productions(count_up(1, limit as int), limit as nat + 1 + extra) == Seq::new(
            limit as nat + 1 + extra,
            |i: int|
                if i < limit {
                    Some((i + 1) as u32)
                } else {
                    None
                },
        ),
{
    lemma_productions(count_up(1, limit as int), limit as nat + 1 + extra);
    assert(productions(count_up(1, limit as int), limit as nat + 1 + extra) =~= Seq::new(
        limit as nat + 1 + extra,
        |i: int|
            if i < limit {
                Some((i + 1) as u32)
            } else {
                None
            },
    ));
}

/// A lazy, finite, non-restartable sequence `1, 2, ..., LIMIT`.
pub struct Counter {
    count: u32,
}

impl View for Counter {
    type V = Seq<u32>;

    /// The values still to be produced, in order.
    closed spec fn view(&self) -> Seq<u32> {
        count_up(self.count + 1, LIMIT as int)
    }
}

impl Counter {
    #[verifier::type_invariant]
    spec fn bounded(&self) -> bool {
        self.count <= LIMIT
    }

    /// A fresh sequence, with all of `1..=LIMIT` still to come.
    pub fn new() -> (counter: Counter)
        ensures
            counter@ == count_up(1, LIMIT as int),
    {
        Counter { count: 0 }
    }

    /// Advances by one and yields the new value, or signals exhaustion
    /// once `LIMIT` has been reached.
    pub fn next(&mut self) -> (item: Option<u32>)
        ensures
            (item, final(self)@) == produce(old(self)@),
    {
        proof {
            use_type_invariant(&*self);
        }
        if self.count < LIMIT {
            self.count += 1;
            assert(self@ =~= old(self)@.drop_first());
            Some(self.count)
        } else {
            None
        }
    }
}

} // verus!
