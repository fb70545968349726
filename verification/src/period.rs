//! Reporting periods: the calendar buckets (month, pair of months, quarter,
//! year) that instants are sorted into, ordered by time and shown as text.

use crate::text::{decimal, push_decimal};
use crate::timestamp::Timestamp;
use std::cmp::Ordering;
use vstd::prelude::*;
use vstd::string::*;

verus! {

/// A granularity of reporting periods. A value identifies one bucket of the
/// calendar by its year and by the bucket's index within the year (its key).
pub trait Period: Sized + Copy {
    /// The calendar year of the period.
    spec fn spec_year(&self) -> int;

    /// The index of the period within its year.
    spec fn spec_index(&self) -> int;

    /// The index is one that a month of the year maps to.
    spec fn wf(&self) -> bool;

    /// The index of the period that holds `month` (1 to 12) of any year.
    spec fn index_of_month(month: int) -> int;

    /// The period that holds `instant`.
    spec fn at(instant: Timestamp) -> Self;

    /// The text a period is shown as.
    spec fn text(&self) -> Seq<char>;

    /// The heading of a table's period column.
    spec fn heading_text() -> Seq<char>;

    /// The period that holds `instant`: a function of its year and month.
    fn from_timestamp(instant: &Timestamp) -> (period: Self)
        requires
            instant.wf(),
        ensures
            period == Self::at(*instant),
    ;

    fn year(&self) -> (y: i32)
        ensures
            y == self.spec_year(),
    ;

    fn index(&self) -> (i: u32)
        ensures
            i == self.spec_index(),
    ;

    /// The period as text: the year, then what names the bucket.
    fn display(&self) -> (s: String)
        requires
            self.wf(),
        ensures
            s@ == self.text(),
    ;

    fn heading() -> (s: String)
        ensures
            s@ == Self::heading_text(),
    ;

    /// `at` yields a well-formed period with the instant's year and the index
    /// of the instant's month.
    proof fn lemma_at(instant: Timestamp)
        requires
            instant.wf(),
        ensures
            Self::at(instant).wf(),
            Self::at(instant).spec_year() == instant.year(),
            Self::at(instant).spec_index() == Self::index_of_month(instant.month() as int),
    ;

    /// Months map to indices in calendar order.
    proof fn lemma_index_of_month_monotonic(m1: int, m2: int)
        requires
            1 <= m1 <= m2 <= 12,
        ensures
            Self::index_of_month(m1) <= Self::index_of_month(m2),
    ;

    /// Two periods are equal iff all their fields match.
    proof fn lemma_key_determines(a: Self, b: Self)
        requires
            a.spec_year() == b.spec_year(),
            a.spec_index() == b.spec_index(),
        ensures
            a == b,
    ;
}

/// `a` lies before `b`: its year is earlier, or the years are the same and
/// its index is lower.
pub open spec fn precedes<P: Period>(a: P, b: P) -> bool {
    a.spec_year() < b.spec_year() || (a.spec_year() == b.spec_year() && a.spec_index()
        < b.spec_index())
}

/// The order of two periods of one granularity, year-major and index-minor.
pub fn compare<P: Period>(a: &P, b: &P) -> (o: Ordering)
    ensures
        o == Ordering::Less <==> precedes(*a, *b),
        o == Ordering::Equal <==> *a == *b,
        o == Ordering::Greater <==> precedes(*b, *a),
{
    let (year_a, year_b) = (a.year(), b.year());
    let (index_a, index_b) = (a.index(), b.index());
    if year_a < year_b {
        Ordering::Less
    } else if year_a > year_b {
        Ordering::Greater
    } else if index_a < index_b {
        Ordering::Less
    } else if index_a > index_b {
        Ordering::Greater
    } else {
        proof {
            P::lemma_key_determines(*a, *b);
        }
        Ordering::Equal
    }
}

/// Whether `a` lies before `b`.
pub fn lies_before<P: Period>(a: &P, b: &P) -> (before: bool)
    ensures
        before == precedes(*a, *b),
{
    let (year_a, year_b) = (a.year(), b.year());
    year_a < year_b || (year_a == year_b && a.index() < b.index())
}

/// Whether `a` and `b` are the same period.
pub fn same_period<P: Period>(a: &P, b: &P) -> (same: bool)
    ensures
        same == (*a == *b),
{
    let same = a.year() == b.year() && a.index() == b.index();
    proof {
        if same {
            P::lemma_key_determines(*a, *b);
        }
    }
    same
}

/// `precedes` is a strict total order: no period precedes itself, the
/// relation is transitive, and of two different periods exactly one precedes
/// the other.
pub proof fn lemma_precedes_is_strict_total_order<P: Period>(a: P, b: P, c: P)
    ensures
        !precedes(a, a),
        precedes(a, b) && precedes(b, c) ==> precedes(a, c),
        precedes(a, b) ==> !precedes(b, a),
        a != b ==> precedes(a, b) || precedes(b, a),
{
    if !precedes(a, b) && !precedes(b, a) {
        P::lemma_key_determines(a, b);
    }
}

/// Two instants of the same calendar month fall into the same period, at
/// every granularity.
pub proof fn lemma_same_month_same_period<P: Period>(a: Timestamp, b: Timestamp)
    requires
        a.wf(),
        b.wf(),
        a.year() == b.year(),
        a.month() == b.month(),
    ensures
        P::at(a) == P::at(b),
{
    P::lemma_at(a);
    P::lemma_at(b);
    P::lemma_key_determines(P::at(a), P::at(b));
}

/// The order of periods follows the calendar: an instant of an earlier or
/// the same month never falls into a later period.
pub proof fn lemma_periods_follow_calendar<P: Period>(a: Timestamp, b: Timestamp)
    requires
        a.wf(),
        b.wf(),
        a.year() < b.year() || (a.year() == b.year() && a.month() <= b.month()),
    ensures
        !precedes(P::at(b), P::at(a)),
{
    P::lemma_at(a);
    P::lemma_at(b);
    if a.year() == b.year() {
        P::lemma_index_of_month_monotonic(a.month() as int, b.month() as int);
    }
}

/// The three-letter name of `month` (1 to 12).
pub open spec fn month_name(month: int) -> Seq<char> {
    if month == 1 {
        "Jan"@
    } else if month == 2 {
        "Feb"@
    } else if month == 3 {
        "Mar"@
    } else if month == 4 {
        "Apr"@
    } else if month == 5 {
        "May"@
    } else if month == 6 {
        "Jun"@
    } else if month == 7 {
        "Jul"@
    } else if month == 8 {
        "Aug"@
    } else if month == 9 {
        "Sep"@
    } else if month == 10 {
        "Oct"@
    } else if month == 11 {
        "Nov"@
    } else {
        "Dec"@
    }
}

/// The name of pair `pair` (0 to 5) of the year's months.
pub open spec fn month_pair_name(pair: int) -> Seq<char> {
    if pair == 0 {
        "Jan-Feb"@
    } else if pair == 1 {
        "Mar-Apr"@
    } else if pair == 2 {
        "May-Jun"@
    } else if pair == 3 {
        "Jul-Aug"@
    } else if pair == 4 {
        "Sep-Oct"@
    } else {
        "Nov-Dec"@
    }
}

/// The name of quarter `quarter` (0 to 3) of the year.
pub open spec fn quarter_name(quarter: int) -> Seq<char> {
    if quarter == 0 {
        "Q1"@
    } else if quarter == 1 {
        "Q2"@
    } else if quarter == 2 {
        "Q3"@
    } else {
        "Q4"@
    }
}

/// The year in decimal, a space, and `name`.
pub open spec fn year_and_name(year: int, name: Seq<char>) -> Seq<char> {
    decimal(year) + seq![' '] + name
}

fn render_year_and_name(year: i32, name: &str) -> (s: String)
    ensures
        s@ == year_and_name(year as int, name@),
{
    let mut s = String::new();
    push_decimal(&mut s, year as i64);
    proof {
        reveal_strlit(" ");
    }
    s.append(" ");
    s.append(name);
    assert(s@ =~= year_and_name(year as int, name@));
    s
}

/// A calendar month.
#[derive(Debug, Hash, Eq, PartialEq, PartialOrd, Ord, Copy, Clone, Structural)]
pub struct Month {
    year: i32,
    month: u32,
}

impl Period for Month {
    closed spec fn spec_year(&self) -> int {
        self.year as int
    }

    closed spec fn spec_index(&self) -> int {
        self.month as int
    }

    open spec fn wf(&self) -> bool {
        1 <= self.spec_index() <= 12
    }

    open spec fn index_of_month(month: int) -> int {
        month
    }

    closed spec fn at(instant: Timestamp) -> Self {
        Month { year: instant.year(), month: instant.month() }
    }

    open spec fn text(&self) -> Seq<char> {
        year_and_name(self.spec_year(), month_name(self.spec_index()))
    }

    open spec fn heading_text() -> Seq<char> {
        "Month"@
    }

    fn from_timestamp(instant: &Timestamp) -> (period: Self) {
        Month { year: instant.year(), month: instant.month() }
    }

    fn year(&self) -> (y: i32) {
        self.year
    }

    fn index(&self) -> (i: u32) {
        self.month
    }

    fn display(&self) -> (s: String) {
        let name = match self.month {
            1 => "Jan",
            2 => "Feb",
            3 => "Mar",
            4 => "Apr",
            5 => "May",
            6 => "Jun",
            7 => "Jul",
            8 => "Aug",
            9 => "Sep",
            10 => "Oct",
            11 => "Nov",
            _ => "Dec",
        };
        render_year_and_name(self.year, name)
    }

    fn heading() -> (s: String) {
        String::from_str("Month")
    }

    proof fn lemma_at(instant: Timestamp) {
    }

    proof fn lemma_index_of_month_monotonic(m1: int, m2: int) {
    }

    proof fn lemma_key_determines(a: Self, b: Self) {
    }
}

/// Two consecutive calendar months: January and February, March and April,
/// and so on.
#[derive(Debug, Hash, Eq, PartialEq, PartialOrd, Ord, Copy, Clone, Structural)]
pub struct TwoMonths {
    year: i32,
    month_pair: u32,
}

impl Period for TwoMonths {
    closed spec fn spec_year(&self) -> int {
        self.year as int
    }

    closed spec fn spec_index(&self) -> int {
        self.month_pair as int
    }

    open spec fn wf(&self) -> bool {
        0 <= self.spec_index() <= 5
    }

    open spec fn index_of_month(month: int) -> int {
        (month - 1) / 2
    }

    closed spec fn at(instant: Timestamp) -> Self {
        TwoMonths { year: instant.year(), month_pair: ((instant.month() - 1) / 2) as u32 }
    }

    open spec fn text(&self) -> Seq<char> {
        year_and_name(self.spec_year(), month_pair_name(self.spec_index()))
    }

    open spec fn heading_text() -> Seq<char> {
        "Two months"@
    }

    fn from_timestamp(instant: &Timestamp) -> (period: Self) {
        TwoMonths { year: instant.year(), month_pair: (instant.month() - 1) / 2 }
    }

    fn year(&self) -> (y: i32) {
        self.year
    }

    fn index(&self) -> (i: u32) {
        self.month_pair
    }

    fn display(&self) -> (s: String) {
        let name = match self.month_pair {
            0 => "Jan-Feb",
            1 => "Mar-Apr",
            2 => "May-Jun",
            3 => "Jul-Aug",
            4 => "Sep-Oct",
            _ => "Nov-Dec",
        };
        render_year_and_name(self.year, name)
    }

    fn heading() -> (s: String) {
        String::from_str("Two months")
    }

    proof fn lemma_at(instant: Timestamp) {
    }

    proof fn lemma_index_of_month_monotonic(m1: int, m2: int) {
    }

    proof fn lemma_key_determines(a: Self, b: Self) {
    }
}

/// A quarter of a calendar year.
#[derive(Debug, Hash, Eq, PartialEq, PartialOrd, Ord, Copy, Clone, Structural)]
pub struct Quarter {
    year: i32,
    quarter: u32,
}

impl Period for Quarter {
    closed spec fn spec_year(&self) -> int {
        self.year as int
    }

    closed spec fn spec_index(&self) -> int {
        self.quarter as int
    }

    open spec fn wf(&self) -> bool {
        0 <= self.spec_index() <= 3
    }

    open spec fn index_of_month(month: int) -> int {
        (month - 1) / 3
    }

    closed spec fn at(instant: Timestamp) -> Self {
        Quarter { year: instant.year(), quarter: ((instant.month() - 1) / 3) as u32 }
    }

    open spec fn text(&self) -> Seq<char> {
        year_and_name(self.spec_year(), quarter_name(self.spec_index()))
    }

    open spec fn heading_text() -> Seq<char> {
        "Quarter"@
    }

    fn from_timestamp(instant: &Timestamp) -> (period: Self) {
        Quarter { year: instant.year(), quarter: (instant.month() - 1) / 3 }
    }

    fn year(&self) -> (y: i32) {
        self.year
    }

    fn index(&self) -> (i: u32) {
        self.quarter
    }

    fn display(&self) -> (s: String) {
        let name = match self.quarter {
            0 => "Q1",
            1 => "Q2",
            2 => "Q3",
            _ => "Q4",
        };
        render_year_and_name(self.year, name)
    }

    fn heading() -> (s: String) {
        String::from_str("Quarter")
    }

    proof fn lemma_at(instant: Timestamp) {
    }

    proof fn lemma_index_of_month_monotonic(m1: int, m2: int) {
    }

    proof fn lemma_key_determines(a: Self, b: Self) {
    }
}

/// A calendar year.
#[derive(Debug, Hash, Eq, PartialEq, PartialOrd, Ord, Copy, Clone, Structural)]
pub struct Year {
    year: i32,
}

impl Period for Year {
    closed spec fn spec_year(&self) -> int {
        self.year as int
    }

    open spec fn spec_index(&self) -> int {
        0
    }

    open spec fn wf(&self) -> bool {
        true
    }

    open spec fn index_of_month(month: int) -> int {
        0
    }

    closed spec fn at(instant: Timestamp) -> Self {
        Year { year: instant.year() }
    }

    open spec fn text(&self) -> Seq<char> {
        decimal(self.spec_year())
    }

    open spec fn heading_text() -> Seq<char> {
        "Year"@
    }

    fn from_timestamp(instant: &Timestamp) -> (period: Self) {
        Year { year: instant.year() }
    }

    fn year(&self) -> (y: i32) {
        self.year
    }

    fn index(&self) -> (i: u32) {
        0
    }

    fn display(&self) -> (s: String) {
        let mut s = String::new();
        push_decimal(&mut s, self.year as i64);
        s
    }

    fn heading() -> (s: String) {
        String::from_str("Year")
    }

    proof fn lemma_at(instant: Timestamp) {
    }

    proof fn lemma_index_of_month_monotonic(m1: int, m2: int) {
    }

    proof fn lemma_key_determines(a: Self, b: Self) {
    }
}

} // verus!
