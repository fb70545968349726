//! The tallies of a run: for every period with any activity, how many issues
//! of each category were opened and closed in it.

use crate::args::Args;
use crate::classifier::{category_of, first_match, Classifier, ConfigError};
use crate::models::{Counter, Issue, PeriodData};
use crate::period::{
    lemma_precedes_is_strict_total_order, lies_before, precedes, same_period, Period,
};
use crate::sums::{
    lemma_sum_bounds_element, lemma_sum_insert, lemma_sum_update, non_negative, sum_of,
};
use crate::text::{first_index, lemma_first_index, lemma_first_index_unique, texts};
use vstd::prelude::*;

verus! {

/// The number of events that the tallies of a period hold, as a function.
pub open spec fn events_in() -> spec_fn(PeriodData) -> int {
    |data: PeriodData| data.events()
}

/// Each period lies before those that follow it.
pub open spec fn ascending<P: Period>(periods: Seq<P>) -> bool {
    forall|i: int, j: int| 0 <= i < j < periods.len() ==> precedes(periods[i], periods[j])
}

/// What one counted event adds to the count of `period`, `category` and
/// `counter`: one where it is the event of that very period, category and
/// counter, else nothing.
pub open spec fn hit<P: Period>(
    period: P,
    category: Seq<char>,
    counter: Counter,
    at: P,
    of: Seq<char>,
    which: Counter,
) -> int {
    if period == at && category == of && counter == which {
        1
    } else {
        0
    }
}

/// What `issue` adds to the count of `period`, `category` and `counter`, where
/// `table` places the labels: an issue counts under its own category only;
/// as opened in the period of its creation, and as closed in the period of
/// its effective closing, if it has one.
pub open spec fn contribution<P: Period>(
    table: Map<Seq<char>, Seq<char>>,
    issue: Issue,
    period: P,
    category: Seq<char>,
    counter: Counter,
) -> int {
    if category != category_of(table, texts(issue.labels@)) {
        0
    } else {
        match counter {
            Counter::Opened => if P::at(issue.created_at) == period {
                1
            } else {
                0
            },
            Counter::Closed => match issue.effective_close() {
                Some(closed) => if P::at(closed) == period {
                    1
                } else {
                    0
                },
                None => 0,
            },
        }
    }
}

/// What `issues` add together to the count of `period`, `category` and
/// `counter`.
pub open spec fn tally<P: Period>(
    table: Map<Seq<char>, Seq<char>>,
    issues: Seq<Issue>,
    period: P,
    category: Seq<char>,
    counter: Counter,
) -> int
    decreases issues.len(),
{
    if issues.len() == 0 {
        0
    } else {
        tally(table, issues.drop_last(), period, category, counter) + contribution(
            table,
            issues.last(),
            period,
            category,
            counter,
        )
    }
}

/// How many events `issue` is counted as: its opening, and its closing if it
/// has an effective one.
pub open spec fn events_of_issue(issue: Issue) -> int {
    if issue.effective_close() is Some {
        2
    } else {
        1
    }
}

/// How many events `issues` are counted as.
pub open spec fn events_of_issues(issues: Seq<Issue>) -> int
    decreases issues.len(),
{
    if issues.len() == 0 {
        0
    } else {
        events_of_issues(issues.drop_last()) + events_of_issue(issues.last())
    }
}

/// What is worth a message about an issue that was counted.
#[derive(Debug, Clone, Copy, PartialEq, Eq, Structural)]
pub struct Diagnostics {
    /// None of the issue's labels has a category: it went to the default one.
    pub uncategorized: bool,
    /// The issue is closed but does not say when: it was counted as closed at
    /// the instant of its creation.
    pub closed_without_timestamp: bool,
}

/// The diagnostics of `issue` where `table` places the labels.
pub open spec fn diagnostics_of(table: Map<Seq<char>, Seq<char>>, issue: Issue) -> Diagnostics {
    Diagnostics {
        uncategorized: first_match(table, texts(issue.labels@)) == issue.labels@.len(),
        closed_without_timestamp: issue.closed_without_timestamp(),
    }
}

/// The tallies of a run, with the table that places the issues.
#[derive(Debug)]
pub struct PlotData<P: Period> {
    periods: Vec<P>,
    data: Vec<PeriodData>,
    classifier: Classifier,
    events: i64,
}

impl<P: Period> PlotData<P> {
    /// The periods are in ascending order, each with its tallies and at
    /// least one event, and the number of events is kept.
    pub closed spec fn wf(&self) -> bool {
        &&& self.classifier.wf()
        &&& self.periods.len() == self.data.len()
        &&& forall|i: int|
            0 <= i < self.periods.len() ==> (#[trigger] self.periods[i]).wf()
        &&& forall|i: int|
            0 <= i < self.data.len() ==> (#[trigger] self.data[i]).wf() && 0 < self.data[i].events()
        &&& ascending(self.periods@)
        &&& self.events == sum_of(self.data@, events_in())
    }

    /// The periods with any activity, in ascending order.
    pub closed spec fn periods(&self) -> Seq<P> {
        self.periods@
    }

    /// The tallies of the periods, in the order of `periods`.
    pub closed spec fn data(&self) -> Seq<PeriodData> {
        self.data@
    }

    /// The table that places the issues.
    pub closed spec fn spec_classifier(&self) -> &Classifier {
        &self.classifier
    }

    /// The number of events counted so far.
    pub closed spec fn spec_events(&self) -> i64 {
        self.events
    }

    /// The value of `counter` for `category` in `period`: zero where nothing
    /// was counted.
    pub closed spec fn count(&self, period: P, category: Seq<char>, counter: Counter) -> int {
        let i = first_index(self.periods@, period);
        if i < self.data.len() {
            self.data[i].count(category, counter)
        } else {
            0
        }
    }

    /// Some event was counted in `period`.
    pub open spec fn active(&self, period: P) -> bool {
        exists|category: Seq<char>, counter: Counter| 0 < self.count(period, category, counter)
    }

    proof fn lemma_events_non_negative(&self)
        requires
            self.wf(),
        ensures
            non_negative(self.data@, events_in()),
    {
        assert forall|i: int| 0 <= i < self.data@.len() implies 0 <= #[trigger] events_in()(
            self.data@[i],
        ) by {
            assert(self.data[i].wf());
        }
    }

    /// The periods are in ascending order, none twice, each with its
    /// tallies; a period is among them exactly if an event was counted in it.
    pub proof fn lemma_periods(&self)
        requires
            self.wf(),
        ensures
            ascending(self.periods()),
            self.periods().no_duplicates(),
            self.periods().len() == self.data().len(),
            forall|i: int| 0 <= i < self.periods().len() ==> (#[trigger] self.periods()[i]).wf(),
            forall|i: int| 0 <= i < self.data().len() ==> (#[trigger] self.data()[i]).wf(),
            forall|i: int, category: Seq<char>, counter: Counter|
                0 <= i < self.periods().len() ==> #[trigger] self.count(
                    self.periods()[i],
                    category,
                    counter,
                ) == self.data()[i].count(category, counter),
            forall|period: P| self.periods().contains(period) <==> #[trigger] self.active(period),
            self.events() == sum_of(self.data(), events_in()),
    {
        let periods = self.periods@;
        lemma_ascending_no_duplicates(periods);
        assert forall|i: int, category: Seq<char>, counter: Counter|
            0 <= i < periods.len() implies #[trigger] self.count(periods[i], category, counter)
            == self.data@[i].count(category, counter) by {
            lemma_first_index_unique(periods, periods[i], i);
        }
        assert forall|period: P| periods.contains(period) <==> #[trigger] self.active(period) by {
            lemma_first_index(periods, period);
            if periods.contains(period) {
                let i = first_index(periods, period);
                assert(self.data[i].wf());
                self.data[i].lemma_events();
                let (category, counter) = choose|category: Seq<char>, counter: Counter|
                    0 < self.data[i].count(category, counter);
                assert(0 < self.count(period, category, counter));
            }
        }
    }

    /// Empty tallies for the configuration in `args`. A configuration
    /// without a category for the wildcard label is refused.
    pub fn new(args: &Args) -> (r: Result<Self, ConfigError>)
        ensures
            r is Ok <==> Classifier::new_ok(args.label_category@),
            r matches Ok(plot_data) ==> {
                &&& plot_data.wf()
                &&& Classifier::new_post(args.label_category@, *plot_data.classifier())
                &&& plot_data.periods() == Seq::<P>::empty()
                &&& plot_data.events() == 0
                &&& forall|period: P, category: Seq<char>, counter: Counter| #[trigger]
                    plot_data.count(period, category, counter) == 0
            },
            r matches Err(e) ==> e == ConfigError::MissingDefaultCategory,
    {
        match Classifier::new(&args.label_category) {
            Ok(classifier) => Ok(Self::with_classifier(classifier)),
            Err(e) => Err(e),
        }
    }

    /// Empty tallies for issues that `classifier` places.
    pub fn with_classifier(classifier: Classifier) -> (plot_data: Self)
        requires
            classifier.wf(),
        ensures
            plot_data.wf(),
            plot_data.classifier() == classifier,
            plot_data.periods() == Seq::<P>::empty(),
            plot_data.events() == 0,
            forall|period: P, category: Seq<char>, counter: Counter| #[trigger]
                plot_data.count(period, category, counter) == 0,
    {
        PlotData { periods: Vec::new(), data: Vec::new(), classifier, events: 0 }
    }

    /// The table that places the issues.
    #[verifier::when_used_as_spec(spec_classifier)]
    pub fn classifier(&self) -> (classifier: &Classifier)
        ensures
            classifier == self.classifier(),
            self.wf() ==> classifier.wf(),
    {
        &self.classifier
    }

    /// The number of events counted so far: every opening and every closing.
    #[verifier::when_used_as_spec(spec_events)]
    pub fn events(&self) -> (events: i64)
        ensures
            events == self.events(),
    {
        self.events
    }

    /// The position of the first period that does not lie before `period`.
    fn locate(&self, period: &P) -> (i: usize)
        requires
            self.wf(),
        ensures
            i <= self.periods@.len(),
            forall|j: int| 0 <= j < i ==> precedes(self.periods@[j], *period),
            i < self.periods@.len() ==> !precedes(self.periods@[i as int], *period),
    {
        let mut i: usize = 0;
        while i < self.periods.len()
            invariant
                0 <= i <= self.periods@.len(),
                forall|j: int| 0 <= j < i ==> precedes(self.periods@[j], *period),
            decreases self.periods@.len() - i,
        {
            if !lies_before(&self.periods[i], period) {
                return i;
            }
            i += 1;
        }
        i
    }

    /// Counts one event: adds one to `counter` of `category` in `period`, and
    /// leaves every other count as it is.
    pub fn increment(&mut self, period: P, category: String, counter: Counter)
        requires
            old(self).wf(),
            period.wf(),
            old(self).events() < i64::MAX,
        ensures
            final(self).wf(),
            final(self).classifier() == old(self).classifier(),
            final(self).events() == old(self).events() + 1,
            forall|p: P, c: Seq<char>, n: Counter| #[trigger]
                final(self).count(p, c, n) == old(self).count(p, c, n) + hit(
                    p,
                    c,
                    n,
                    period,
                    category@,
                    counter,
                ),
    {
        let i = self.locate(&period);
        let ghost periods = self.periods@;
        let ghost data = self.data@;
        proof {
            self.lemma_events_non_negative();
            lemma_located(periods, period, i as int);
        }
        let found = i < self.periods.len() && same_period(&self.periods[i], &period);
        if found {
            proof {
                assert(data[i as int].wf());
                data[i as int].lemma_count(category@);
                lemma_sum_bounds_element(data, i as int, events_in());
            }
            self.data[i].increment(category, counter);
            self.events = self.events + 1;
            proof {
                assert(self.data@ =~= data.update(i as int, self.data@[i as int]));
                lemma_sum_update(data, i as int, self.data@[i as int], events_in());
                assert forall|j: int| 0 <= j < self.data.len() implies (#[trigger] self.data[j]).wf()
                    && 0 < self.data[j].events() by {
                    if j != i {
                        assert(self.data[j] == data[j]);
                        assert(data[j].wf());
                    } else {
                        assert(data[j].wf());
                    }
                }
                assert forall|p: P, c: Seq<char>, n: Counter| #[trigger]
                    self.count(p, c, n) == old(self).count(p, c, n) + hit(
                        p,
                        c,
                        n,
                        period,
                        category@,
                        counter,
                    ) by {
                    lemma_first_index(periods, p);
                    let f = first_index(periods, p);
                    if f < periods.len() && f != i {
                        assert(self.data[f] == data[f]);
                    }
                }
            }
        } else {
            let mut fresh = PeriodData::default();
            fresh.increment(category, counter);
            self.periods.insert(i, period);
            self.data.insert(i, fresh);
            self.events = self.events + 1;
            proof {
                let after = self.periods@;
                lemma_sum_insert(data, i as int, fresh, events_in());
                lemma_ascending_no_duplicates(after);
                assert forall|j: int| 0 <= j < self.periods.len() implies (
                #[trigger] self.periods[j]).wf() by {
                    if j < i {
                        assert(self.periods[j] == periods[j]);
                        assert(periods[j].wf());
                    } else if j > i {
                        assert(self.periods[j] == periods[j - 1]);
                        assert(periods[j - 1].wf());
                    }
                }
                assert forall|j: int| 0 <= j < self.data.len() implies (#[trigger] self.data[j]).wf()
                    && 0 < self.data[j].events() by {
                    if j < i {
                        assert(self.data[j] == data[j]);
                        assert(data[j].wf());
                    } else if j > i {
                        assert(self.data[j] == data[j - 1]);
                        assert(data[j - 1].wf());
                    }
                }
                assert forall|p: P, c: Seq<char>, n: Counter| #[trigger]
                    self.count(p, c, n) == old(self).count(p, c, n) + hit(
                        p,
                        c,
                        n,
                        period,
                        category@,
                        counter,
                    ) by {
                    lemma_first_index(periods, p);
                    lemma_first_index(after, p);
                    let f = first_index(periods, p);
                    if p == period {
                        lemma_first_index_unique(after, p, i as int);
                    } else if f < periods.len() {
                        if f < i {
                            assert(after[f] == p);
                            lemma_first_index_unique(after, p, f);
                            assert(self.data[f] == data[f]);
                        } else {
                            assert(after[f + 1] == p);
                            lemma_first_index_unique(after, p, f + 1);
                            assert(self.data[f + 1] == data[f]);
                        }
                    } else {
                        let g = first_index(after, p);
                        if g < after.len() {
                            if g < i {
                                assert(periods[g] == p);
                            } else {
                                assert(periods[g - 1] == p);
                            }
                        }
                    }
                }
            }
        }
    }

    /// The category of `issue`: that of the first of its labels that has
    /// one, else the default category.
    pub fn categorize_issue(&self, issue: &Issue) -> (category: String)
        requires
            self.wf(),
        ensures
            category@ == self.classifier().category(texts(issue.labels@)),
    {
        self.classifier.categorize(&issue.labels)
    }

    /// Counts `issue`: as opened in the period of its creation and, where it
    /// has an effective closing, as closed in the period of that, both under
    /// its category. A closed issue that does not say when it was closed
    /// counts as closed at its creation. Says what is worth a message.
    pub fn analyze_issue(&mut self, issue: &Issue) -> (diagnostics: Diagnostics)
        requires
            old(self).wf(),
            issue.wf(),
            issue.has_known_close(),
            old(self).events() + 2 <= i64::MAX,
        ensures
            final(self).wf(),
            final(self).classifier() == old(self).classifier(),
            final(self).events() == old(self).events() + events_of_issue(*issue),
            diagnostics == diagnostics_of(old(self).classifier().table(), *issue),
            forall|p: P, c: Seq<char>, n: Counter| #[trigger]
                final(self).count(p, c, n) == old(self).count(p, c, n) + contribution(
                    old(self).classifier().table(),
                    *issue,
                    p,
                    c,
                    n,
                ),
    {
        let uncategorized = self.classifier.matching_label(&issue.labels).is_none();
        let closed_without_timestamp = issue.lacks_close_time();
        let category = self.categorize_issue(issue);
        let opened = P::from_timestamp(&issue.created_at);
        proof {
            P::lemma_at(issue.created_at);
        }
        self.increment(opened, category.clone(), Counter::Opened);
        match issue.closed_at() {
            Some(closed_at) => {
                let closed = P::from_timestamp(&closed_at);
                proof {
                    P::lemma_at(closed_at);
                }
                self.increment(closed, category, Counter::Closed);
            },
            None => {},
        }
        Diagnostics { uncategorized, closed_without_timestamp }
    }

    /// Counts every issue of `issues`, in their order, and gives the
    /// diagnostics of each.
    pub fn analyze_issues(&mut self, issues: &Vec<Issue>) -> (diagnostics: Vec<Diagnostics>)
        requires
            old(self).wf(),
            forall|i: int| 0 <= i < issues.len() ==> (#[trigger] issues[i]).wf() && issues[i].has_known_close(),
            old(self).events() + 2 * issues.len() <= i64::MAX,
        ensures
            final(self).wf(),
            final(self).classifier() == old(self).classifier(),
            final(self).events() == old(self).events() + events_of_issues(issues@),
            diagnostics@.len() == issues.len(),
            forall|i: int|
                0 <= i < issues.len() ==> #[trigger] diagnostics[i] == diagnostics_of(
                    old(self).classifier().table(),
                    issues[i],
                ),
            forall|p: P, c: Seq<char>, n: Counter| #[trigger]
                final(self).count(p, c, n) == old(self).count(p, c, n) + tally(
                    old(self).classifier().table(),
                    issues@,
                    p,
                    c,
                    n,
                ),
    {
        let ghost table = self.classifier().table();
        let mut diagnostics: Vec<Diagnostics> = Vec::new();
        let mut i: usize = 0;
        proof {
            assert(issues@.take(0) =~= Seq::<Issue>::empty());
        }
        while i < issues.len()
            invariant
                0 <= i <= issues.len(),
                self.wf(),
                self.classifier() == old(self).classifier(),
                table == old(self).classifier().table(),
                forall|k: int| 0 <= k < issues.len() ==> (#[trigger] issues[k]).wf() && issues[k].has_known_close(),
                old(self).events() + 2 * issues.len() <= i64::MAX,
                self.events() == old(self).events() + events_of_issues(issues@.take(i as int)),
                events_of_issues(issues@.take(i as int)) <= 2 * i,
                diagnostics@.len() == i,
                forall|k: int| 0 <= k < i ==> #[trigger] diagnostics[k] == diagnostics_of(table, issues[k]),
                forall|p: P, c: Seq<char>, n: Counter| #[trigger]
                    self.count(p, c, n) == old(self).count(p, c, n) + tally(
                        table,
                        issues@.take(i as int),
                        p,
                        c,
                        n,
                    ),
            decreases issues.len() - i,
        {
            let ghost before = *self;
            proof {
                assert(issues@.take(i + 1).drop_last() =~= issues@.take(i as int));
                assert(issues@.take(i + 1).last() == issues[i as int]);
            }
            let diagnostic = self.analyze_issue(&issues[i]);
            diagnostics.push(diagnostic);
            proof {
                assert forall|p: P, c: Seq<char>, n: Counter| #[trigger]
                    self.count(p, c, n) == old(self).count(p, c, n) + tally(
                        table,
                        issues@.take(i + 1),
                        p,
                        c,
                        n,
                    ) by {
                    assert(self.count(p, c, n) == before.count(p, c, n) + contribution(
                        table,
                        issues[i as int],
                        p,
                        c,
                        n,
                    ));
                }
            }
            i += 1;
        }
        proof {
            assert(issues@.take(i as int) =~= issues@);
        }
        diagnostics
    }

    /// The periods with any activity, in ascending order.
    pub fn sorted_periods(&self) -> (periods: Vec<P>)
        ensures
            periods@ == self.periods(),
    {
        let mut periods: Vec<P> = Vec::new();
        let mut i: usize = 0;
        while i < self.periods.len()
            invariant
                0 <= i <= self.periods@.len(),
                periods@ == self.periods@.take(i as int),
            decreases self.periods@.len() - i,
        {
            periods.push(self.periods[i]);
            proof {
                assert(periods@ =~= self.periods@.take(i + 1));
            }
            i += 1;
        }
        proof {
            assert(self.periods@.take(i as int) =~= self.periods@);
        }
        periods
    }

    /// The tallies of the periods, in the order of `sorted_periods`.
    pub fn period_data(&self) -> (data: &Vec<PeriodData>)
        ensures
            data@ == self.data(),
    {
        &self.data
    }

    /// The value of `counter` for `category` in `period`: zero where nothing
    /// was counted.
    pub fn get(&self, period: &P, category: &String, counter: Counter) -> (n: i64)
        requires
            self.wf(),
        ensures
            n == self.count(*period, category@, counter),
    {
        let i = self.locate(period);
        proof {
            lemma_located(self.periods@, *period, i as int);
        }
        if i < self.periods.len() && same_period(&self.periods[i], period) {
            proof {
                assert(self.data[i as int].wf());
            }
            self.data[i].get(category, counter)
        } else {
            0
        }
    }
}

/// A sequence in ascending order holds no period twice.
pub proof fn lemma_ascending_no_duplicates<P: Period>(periods: Seq<P>)
    requires
        ascending(periods),
    ensures
        periods.no_duplicates(),
{
    assert forall|i: int, j: int| 0 <= i < periods.len() && 0 <= j < periods.len() && i
        != j implies periods[i] != periods[j] by {
        if i < j {
            assert(precedes(periods[i], periods[j]));
        } else {
            assert(precedes(periods[j], periods[i]));
        }
    }
}

/// The periods with activity come in one order only: two ascending sequences
/// that hold the same periods are the same sequence.
pub proof fn lemma_ascending_unique<P: Period>(a: Seq<P>, b: Seq<P>)
    requires
        ascending(a),
        ascending(b),
        forall|period: P| a.contains(period) <==> b.contains(period),
    ensures
        a == b,
    decreases a.len(),
{
    if a.len() == 0 {
        if b.len() > 0 {
            assert(b.contains(b[0]));
        }
        assert(a =~= b);
    } else {
        let top = a.last();
        assert(a.contains(top));
        assert(b.contains(top));
        let j = choose|j: int| 0 <= j < b.len() && b[j] == top;
        let other = b.last();
        assert(b.contains(other));
        let i = choose|i: int| 0 <= i < a.len() && a[i] == other;
        if j < b.len() - 1 {
            assert(precedes(b[j], b[b.len() - 1]));
            if i < a.len() - 1 {
                assert(precedes(a[i], a[a.len() - 1]));
            }
            lemma_precedes_is_strict_total_order(top, other, top);
        }
        assert(top == other);
        lemma_ascending_no_duplicates(a);
        lemma_ascending_no_duplicates(b);
        let a0 = a.drop_last();
        let b0 = b.drop_last();
        assert forall|period: P| a0.contains(period) <==> b0.contains(period) by {
            if a0.contains(period) {
                let k = choose|k: int| 0 <= k < a0.len() && a0[k] == period;
                assert(a[k] == period);
                assert(a.contains(period));
                let m = choose|m: int| 0 <= m < b.len() && b[m] == period;
                assert(b0[m] == period);
            }
            if b0.contains(period) {
                let k = choose|k: int| 0 <= k < b0.len() && b0[k] == period;
                assert(b[k] == period);
                assert(b.contains(period));
                let m = choose|m: int| 0 <= m < a.len() && a[m] == period;
                assert(a0[m] == period);
            }
        }
        lemma_ascending_unique(a0, b0);
        assert(a =~= a0.push(top));
        assert(b =~= b0.push(other));
    }
}

/// Where `i` is the position of the first of the ascending `periods` that
/// does not lie before `period`: either `period` stands there, at its only
/// place, or it is not among them and can be put there.
proof fn lemma_located<P: Period>(periods: Seq<P>, period: P, i: int)
    requires
        ascending(periods),
        0 <= i <= periods.len(),
        forall|j: int| 0 <= j < i ==> precedes(periods[j], period),
        i < periods.len() ==> !precedes(periods[i], period),
    ensures
        i < periods.len() && periods[i] == period ==> first_index(periods, period) == i,
        !(i < periods.len() && periods[i] == period) ==> {
            &&& first_index(periods, period) == periods.len()
            &&& ascending(periods.insert(i, period))
        },
{
    lemma_ascending_no_duplicates(periods);
    if i < periods.len() && periods[i] == period {
        lemma_first_index_unique(periods, period, i);
    } else {
        if i < periods.len() {
            lemma_precedes_is_strict_total_order(periods[i], period, period);
        }
        assert forall|j: int| i <= j < periods.len() implies precedes(period, #[trigger] periods[j]) by {
            if j > i {
                assert(precedes(periods[i], periods[j]));
            }
        }
        assert forall|j: int| 0 <= j < periods.len() implies periods[j] != period by {
            if j < i {
                assert(precedes(periods[j], period));
            } else {
                assert(precedes(period, periods[j]));
            }
        }
        lemma_first_index(periods, period);
        let after = periods.insert(i, period);
        assert forall|a: int, b: int| 0 <= a < b < after.len() implies precedes(
            after[a],
            after[b],
        ) by {
            if b < i {
                assert(precedes(periods[a], periods[b]));
            } else if b == i {
                assert(precedes(periods[a], period));
            } else if a < i {
                assert(precedes(periods[a], periods[b - 1]));
            } else if a == i {
                assert(precedes(period, periods[b - 1]));
            } else {
                assert(precedes(periods[a - 1], periods[b - 1]));
            }
        }
    }
}

/// The counts of two batches of issues add up: what the issues of `first`
/// and then those of `second` add to a count is the sum of what each batch
/// adds.
pub proof fn lemma_tally_concat<P: Period>(
    table: Map<Seq<char>, Seq<char>>,
    first: Seq<Issue>,
    second: Seq<Issue>,
    period: P,
    category: Seq<char>,
    counter: Counter,
)
    ensures
        tally(table, first + second, period, category, counter) == tally(
            table,
            first,
            period,
            category,
            counter,
        ) + tally(table, second, period, category, counter),
    decreases second.len(),
{
    if second.len() == 0 {
        assert(first + second =~= first);
    } else {
        assert((first + second).drop_last() =~= first + second.drop_last());
        assert((first + second).last() == second.last());
        lemma_tally_concat(table, first, second.drop_last(), period, category, counter);
    }
}

/// Counting does not depend on the order of the issues: two batches add the
/// same to every count in either order. With one issue in each batch, the
/// issues `[a, b]` count as `[b, a]` do.
pub proof fn lemma_tally_commutes<P: Period>(
    table: Map<Seq<char>, Seq<char>>,
    first: Seq<Issue>,
    second: Seq<Issue>,
    period: P,
    category: Seq<char>,
    counter: Counter,
)
    ensures
        tally(table, first + second, period, category, counter) == tally(
            table,
            second + first,
            period,
            category,
            counter,
        ),
{
    lemma_tally_concat(table, first, second, period, category, counter);
    lemma_tally_concat(table, second, first, period, category, counter);
}

/// An issue that is closed without saying when counts as opened and as
/// closed in the period of its creation.
pub proof fn lemma_closed_without_timestamp<P: Period>(
    table: Map<Seq<char>, Seq<char>>,
    issue: Issue,
)
    requires
        issue.closed_without_timestamp(),
    ensures
        contribution(
            table,
            issue,
            P::at(issue.created_at),
            category_of(table, texts(issue.labels@)),
            Counter::Opened,
        ) == 1,
        contribution(
            table,
            issue,
            P::at(issue.created_at),
            category_of(table, texts(issue.labels@)),
            Counter::Closed,
        ) == 1,
{
}

} // verus!
