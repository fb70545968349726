//! The data that is counted: issues as they arrive, and the opened and closed
//! tallies of one period.

use crate::sums::{
    lemma_sum_bounds_element, lemma_sum_non_negative, lemma_sum_positive, lemma_sum_push,
    lemma_sum_update, non_negative, sum_of,
};
use crate::text::{
    first_index, lemma_first_index, lemma_first_index_is, lemma_first_index_push, position, texts,
};
use crate::timestamp::Timestamp;
use vstd::prelude::*;

verus! {

/// Which of the two events of an issue's life is counted.
#[derive(Debug, Hash, PartialEq, Eq, Copy, Clone, Structural)]
pub enum Counter {
    Opened,
    Closed,
}

/// How many issues were opened and how many were closed.
#[derive(Debug, Copy, Clone, PartialEq, Eq, Structural)]
pub struct Counters {
    opened: i64,
    closed: i64,
}

impl Counters {
    pub closed spec fn spec_get(&self, counter: Counter) -> i64 {
        match counter {
            Counter::Opened => self.opened,
            Counter::Closed => self.closed,
        }
    }

    /// The number of events counted: openings and closings together.
    pub open spec fn events(&self) -> int {
        self.get(Counter::Opened) + self.get(Counter::Closed)
    }

    /// The value of `counter`.
    #[verifier::when_used_as_spec(spec_get)]
    pub fn get(&self, counter: Counter) -> (n: i64)
        ensures
            n == self.get(counter),
    {
        match counter {
            Counter::Opened => self.opened,
            Counter::Closed => self.closed,
        }
    }

    /// Adds one to `counter` and leaves the other as it is.
    pub fn increment(&mut self, counter: Counter)
        requires
            old(self).get(counter) < i64::MAX,
        ensures
            final(self).get(counter) == old(self).get(counter) + 1,
            forall|other: Counter| other != counter ==> final(self).get(other) == old(self).get(other),
    {
        match counter {
            Counter::Opened => {
                self.opened = self.opened + 1;
            },
            Counter::Closed => {
                self.closed = self.closed + 1;
            },
        }
    }
}

impl Default for Counters {
    /// Both counters at zero.
    fn default() -> (counters: Self)
        ensures
            forall|counter: Counter| counters.get(counter) == 0,
    {
        Counters { opened: 0, closed: 0 }
    }
}

/// The tallies of one period, by category. A category that was never counted
/// has both counters at zero.
#[derive(Debug)]
pub struct PeriodData {
    categories: Vec<String>,
    counters: Vec<Counters>,
}

/// The number of events that a pair of counters holds, as a function.
pub open spec fn events_of() -> spec_fn(Counters) -> int {
    |counters: Counters| counters.events()
}

impl PeriodData {
    /// Every category is held once and has its counters, and no counter is
    /// negative.
    pub closed spec fn wf(&self) -> bool {
        &&& self.categories.len() == self.counters.len()
        &&& texts(self.categories@).no_duplicates()
        &&& forall|i: int, counter: Counter|
            0 <= i < self.counters.len() ==> 0 <= #[trigger] self.counters[i].get(counter)
    }

    /// The value of `counter` for `category`.
    pub closed spec fn count(&self, category: Seq<char>, counter: Counter) -> int {
        let i = first_index(texts(self.categories@), category);
        if i < self.counters.len() {
            self.counters[i].get(counter) as int
        } else {
            0
        }
    }

    /// The number of events counted, over all categories.
    pub closed spec fn events(&self) -> int {
        sum_of(self.counters@, events_of())
    }

    /// What `increment` adds to the count of `category` and `counter` when it
    /// is called for `to` and `which`.
    pub open spec fn one_if(category: Seq<char>, counter: Counter, to: Seq<char>, which: Counter) -> int {
        if category == to && counter == which {
            1
        } else {
            0
        }
    }

    proof fn lemma_events_non_negative(&self)
        requires
            self.wf(),
        ensures
            non_negative(self.counters@, events_of()),
    {
        assert forall|i: int| 0 <= i < self.counters@.len() implies 0 <= #[trigger] events_of()(
            self.counters@[i],
        ) by {
            assert(0 <= self.counters[i].get(Counter::Opened));
            assert(0 <= self.counters[i].get(Counter::Closed));
        }
    }

    /// No count is negative, and the two counts of a category together do not
    /// exceed the number of events.
    pub proof fn lemma_count(&self, category: Seq<char>)
        requires
            self.wf(),
        ensures
            0 <= self.count(category, Counter::Opened),
            0 <= self.count(category, Counter::Closed),
            self.count(category, Counter::Opened) + self.count(category, Counter::Closed)
                <= self.events(),
    {
        let names = texts(self.categories@);
        lemma_first_index(names, category);
        self.lemma_events_non_negative();
        lemma_sum_non_negative(self.counters@, events_of());
        let i = first_index(names, category);
        if i < names.len() {
            assert(0 <= self.counters[i].get(Counter::Opened));
            assert(0 <= self.counters[i].get(Counter::Closed));
            lemma_sum_bounds_element(self.counters@, i, events_of());
        }
    }

    /// Where events were counted, some category has a count above zero.
    pub proof fn lemma_events(&self)
        requires
            self.wf(),
            0 < self.events(),
        ensures
            exists|category: Seq<char>, counter: Counter| 0 < self.count(category, counter),
    {
        let names = texts(self.categories@);
        lemma_sum_positive(self.counters@, events_of());
        let i = choose|i: int|
            0 <= i < self.counters@.len() && 0 < #[trigger] events_of()(self.counters@[i]);
        assert forall|j: int| 0 <= j < i implies names[j] != names[i] by {}
        lemma_first_index_is(names, names[i], i);
        if 0 < self.counters[i].get(Counter::Opened) {
            assert(0 < self.count(names[i], Counter::Opened));
        } else {
            assert(0 < self.count(names[i], Counter::Closed));
        }
    }

    /// The value of `counter` for `category`: zero where the category was
    /// never counted.
    pub fn get(&self, category: &String, counter: Counter) -> (n: i64)
        requires
            self.wf(),
        ensures
            n == self.count(category@, counter),
    {
        let i = position(&self.categories, category);
        if i < self.counters.len() {
            self.counters[i].get(counter)
        } else {
            0
        }
    }

    /// Adds one to `counter` of `category` and leaves every other count as
    /// it is.
    pub fn increment(&mut self, category: String, counter: Counter)
        requires
            old(self).wf(),
            old(self).count(category@, counter) < i64::MAX,
        ensures
            final(self).wf(),
            final(self).events() == old(self).events() + 1,
            forall|c: Seq<char>, n: Counter| #[trigger]
                final(self).count(c, n) == old(self).count(c, n) + Self::one_if(
                    c,
                    n,
                    category@,
                    counter,
                ),
    {
        let ghost names = texts(self.categories@);
        let i = position(&self.categories, &category);
        proof {
            lemma_first_index(names, category@);
        }
        if i < self.counters.len() {
            let ghost before = self.counters[i as int];
            let mut counters = self.counters[i];
            counters.increment(counter);
            self.counters.set(i, counters);
            proof {
                assert(texts(self.categories@) =~= names);
                lemma_sum_update(old(self).counters@, i as int, counters, events_of());
                assert(counters.events() == before.events() + 1) by {
                    match counter {
                        Counter::Opened => {
                            assert(counters.get(Counter::Closed) == before.get(Counter::Closed));
                        },
                        Counter::Closed => {
                            assert(counters.get(Counter::Opened) == before.get(Counter::Opened));
                        },
                    }
                }
                assert forall|j: int, n: Counter| 0 <= j < self.counters.len() implies 0
                    <= #[trigger] self.counters[j].get(n) by {
                    if j == i {
                        assert(0 <= before.get(n));
                        if n != counter {
                            assert(counters.get(n) == before.get(n));
                        }
                    } else {
                        assert(self.counters[j] == old(self).counters[j]);
                    }
                }
                assert forall|c: Seq<char>, n: Counter| #[trigger]
                    self.count(c, n) == old(self).count(c, n) + Self::one_if(
                        c,
                        n,
                        category@,
                        counter,
                    ) by {
                    lemma_first_index(names, c);
                    if c == category@ && n != counter {
                        assert(counters.get(n) == before.get(n));
                    }
                }
            }
        } else {
            let mut counters = Counters::default();
            counters.increment(counter);
            self.categories.push(category);
            self.counters.push(counters);
            proof {
                let after = texts(self.categories@);
                assert(after =~= names.push(category@));
                lemma_sum_push(old(self).counters@, counters, events_of());
                assert(counters.events() == 1) by {
                    match counter {
                        Counter::Opened => {
                            assert(counters.get(Counter::Closed) == 0);
                        },
                        Counter::Closed => {
                            assert(counters.get(Counter::Opened) == 0);
                        },
                    }
                }
                assert forall|j: int, n: Counter| 0 <= j < self.counters.len() implies 0
                    <= #[trigger] self.counters[j].get(n) by {
                    if j < names.len() {
                        assert(self.counters[j] == old(self).counters[j]);
                    } else if n != counter {
                        assert(counters.get(n) == 0);
                    }
                }
                assert forall|c: Seq<char>, n: Counter| #[trigger]
                    self.count(c, n) == old(self).count(c, n) + Self::one_if(
                        c,
                        n,
                        category@,
                        counter,
                    ) by {
                    lemma_first_index(names, c);
                    lemma_first_index_push(names, category@, c);
                    if c == category@ && n != counter {
                        assert(counters.get(n) == 0);
                    }
                }
            }
        }
    }
}

impl Default for PeriodData {
    /// Nothing counted.
    fn default() -> (data: Self)
        ensures
            data.wf(),
            data.events() == 0,
            forall|c: Seq<char>, n: Counter| #[trigger] data.count(c, n) == 0,
    {
        let data = PeriodData { categories: Vec::new(), counters: Vec::new() };
        proof {
            assert(texts(data.categories@) =~= Seq::<Seq<char>>::empty());
        }
        data
    }
}

/// The lifecycle state that an issue is reported in.
#[derive(Debug, Clone)]
pub enum IssueState {
    Open,
    Closed,
    /// A state that this library does not know.
    Other(String),
}

/// An issue as the source reports it.
#[derive(Debug, Clone)]
pub struct Issue {
    pub created_at: Timestamp,
    pub closed_at: Option<Timestamp>,
    pub state: IssueState,
    /// The labels in the order in which the source lists them.
    pub labels: Vec<String>,
    /// Where the issue can be read; it only serves messages about the issue.
    pub url: String,
}

impl Issue {
    /// The instants of the issue are well-formed.
    pub open spec fn wf(&self) -> bool {
        &&& self.created_at.wf()
        &&& self.closed_at matches Some(closed) ==> closed.wf()
    }

    /// The issue says when it was closed, or is in a state that tells whether
    /// it is closed.
    pub open spec fn has_known_close(&self) -> bool {
        self.closed_at is Some || !(self.state is Other)
    }

    /// The issue is reported closed, but not when it was closed.
    pub open spec fn closed_without_timestamp(&self) -> bool {
        self.closed_at is None && self.state is Closed
    }

    /// The instant at which the issue counts as closed: the recorded one; for
    /// an issue that is closed without one, the instant of its creation; none
    /// for an open issue.
    pub open spec fn effective_close(&self) -> Option<Timestamp> {
        match self.closed_at {
            Some(closed) => Some(closed),
            None => if self.state is Closed {
                Some(self.created_at)
            } else {
                None
            },
        }
    }

    /// Whether `has_known_close` holds.
    pub fn knows_close(&self) -> (known: bool)
        ensures
            known == self.has_known_close(),
    {
        match (&self.closed_at, &self.state) {
            (None, IssueState::Other(_)) => false,
            _ => true,
        }
    }

    /// Whether the issue is reported closed without the instant of its closing.
    pub fn lacks_close_time(&self) -> (lacking: bool)
        ensures
            lacking == self.closed_without_timestamp(),
    {
        match (&self.closed_at, &self.state) {
            (None, IssueState::Closed) => true,
            _ => false,
        }
    }

    /// The instant at which the issue counts as closed.
    pub fn closed_at(&self) -> (closed: Option<Timestamp>)
        requires
            self.has_known_close(),
        ensures
            closed == self.effective_close(),
    {
        match self.closed_at {
            Some(closed) => Some(closed),
            None => match &self.state {
                IssueState::Closed => Some(self.created_at),
                _ => None,
            },
        }
    }
}

} // verus!
