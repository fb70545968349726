use issue_stats::period::{compare, Month, Period, Quarter, TwoMonths, Year};
use issue_stats::timestamp::Timestamp;
use std::cmp::Ordering;

/// 2023-05-15T00:00:00Z
const MAY_15_2023: i64 = 1_684_108_800;

fn at(seconds: i64) -> Timestamp {
    Timestamp::from_unix_seconds(seconds).unwrap()
}

/// Noon (UTC) of the given day.
fn day(year: i64, month: i64, day: i64) -> Timestamp {
    // Days from 1970-01-01 to the given civil date.
    let y = if month <= 2 { year - 1 } else { year };
    let era = if y >= 0 { y } else { y - 399 } / 400;
    let yoe = y - era * 400;
    let mp = (month + 9) % 12;
    let doy = (153 * mp + 2) / 5 + day - 1;
    let doe = yoe * 365 + yoe / 4 - yoe / 100 + doy;
    let days = era * 146_097 + doe - 719_468;
    at(days * 86_400 + 43_200)
}

#[test]
fn timestamp_reads_the_calendar() {
    let t = at(MAY_15_2023);
    assert_eq!(t.seconds(), MAY_15_2023);
    assert_eq!(t.year(), 2023);
    assert_eq!(t.month(), 5);
    let epoch = at(0);
    assert_eq!((epoch.year(), epoch.month()), (1970, 1));
    let before_epoch = at(-1);
    assert_eq!((before_epoch.year(), before_epoch.month()), (1969, 12));
}

#[test]
fn timestamp_outside_the_calendar_is_refused() {
    assert!(Timestamp::from_unix_seconds(i64::MAX).is_none());
    assert!(Timestamp::from_unix_seconds(i64::MIN).is_none());
}

#[test]
fn month_displays_each_of_the_twelve() {
    let names = [
        "Jan", "Feb", "Mar", "Apr", "May", "Jun", "Jul", "Aug", "Sep", "Oct", "Nov", "Dec",
    ];
    for (i, name) in names.iter().enumerate() {
        let period = Month::from_timestamp(&day(2023, i as i64 + 1, 10));
        assert_eq!(period.display(), format!("2023 {}", name));
    }
}

#[test]
fn two_months_displays_each_of_the_six() {
    let names = ["Jan-Feb", "Mar-Apr", "May-Jun", "Jul-Aug", "Sep-Oct", "Nov-Dec"];
    for month in 1..=12i64 {
        let period = TwoMonths::from_timestamp(&day(2023, month, 28));
        let bucket = ((month - 1) / 2) as usize;
        assert_eq!(period.index(), bucket as u32);
        assert_eq!(period.display(), format!("2023 {}", names[bucket]));
    }
}

#[test]
fn quarter_displays_each_of_the_four() {
    let names = ["Q1", "Q2", "Q3", "Q4"];
    for month in 1..=12i64 {
        let period = Quarter::from_timestamp(&day(2023, month, 1));
        let bucket = ((month - 1) / 3) as usize;
        assert_eq!(period.index(), bucket as u32);
        assert_eq!(period.display(), format!("2023 {}", names[bucket]));
    }
}

#[test]
fn display_examples() {
    assert_eq!(Month::from_timestamp(&day(2023, 5, 15)).display(), "2023 May");
    assert_eq!(TwoMonths::from_timestamp(&day(2023, 3, 15)).display(), "2023 Mar-Apr");
    assert_eq!(Quarter::from_timestamp(&day(2023, 8, 15)).display(), "2023 Q3");
    assert_eq!(Year::from_timestamp(&day(2023, 8, 15)).display(), "2023");
}

#[test]
fn display_of_years_far_from_now() {
    assert_eq!(Month::from_timestamp(&day(-44, 3, 15)).display(), "-44 Mar");
    assert_eq!(Quarter::from_timestamp(&day(10000, 1, 1)).display(), "10000 Q1");
    assert_eq!(Year::from_timestamp(&day(0, 6, 1)).display(), "0");
}

#[test]
fn headings() {
    assert_eq!(Month::heading(), "Month");
    assert_eq!(TwoMonths::heading(), "Two months");
    assert_eq!(Quarter::heading(), "Quarter");
    assert_eq!(Year::heading(), "Year");
}

#[test]
fn instants_of_one_month_share_their_period() {
    let first = day(2024, 2, 1);
    let last = day(2024, 2, 29);
    assert_ne!(first.seconds(), last.seconds());
    assert_eq!(Month::from_timestamp(&first), Month::from_timestamp(&last));
    assert_eq!(TwoMonths::from_timestamp(&first), TwoMonths::from_timestamp(&last));
    assert_eq!(Quarter::from_timestamp(&first), Quarter::from_timestamp(&last));
    assert_eq!(Year::from_timestamp(&first), Year::from_timestamp(&last));
    assert_ne!(Month::from_timestamp(&first), Month::from_timestamp(&day(2024, 3, 1)));
    assert_ne!(Month::from_timestamp(&first), Month::from_timestamp(&day(2023, 2, 1)));
}

#[test]
fn month_boundaries() {
    // 2023-05-31T23:59:59Z and the second after it.
    let end_of_may = at(1_685_577_599);
    let start_of_june = at(1_685_577_600);
    assert_eq!(Month::from_timestamp(&end_of_may).display(), "2023 May");
    assert_eq!(Month::from_timestamp(&start_of_june).display(), "2023 Jun");
    assert_eq!(
        TwoMonths::from_timestamp(&end_of_may),
        TwoMonths::from_timestamp(&start_of_june)
    );
    assert_eq!(Quarter::from_timestamp(&end_of_may), Quarter::from_timestamp(&start_of_june));
}

#[test]
fn compare_is_year_major_and_index_minor() {
    let a = Month::from_timestamp(&day(2022, 12, 1));
    let b = Month::from_timestamp(&day(2023, 1, 1));
    let c = Month::from_timestamp(&day(2023, 2, 1));
    assert_eq!(compare(&a, &b), Ordering::Less);
    assert_eq!(compare(&b, &a), Ordering::Greater);
    assert_eq!(compare(&b, &c), Ordering::Less);
    assert_eq!(compare(&a, &c), Ordering::Less);
    assert_eq!(compare(&c, &c), Ordering::Equal);
    assert_eq!(compare(&b, &Month::from_timestamp(&day(2023, 1, 31))), Ordering::Equal);
}

#[test]
fn compare_agrees_with_the_derived_order() {
    let mut periods = Vec::new();
    for year in [1999i64, 2023, 2024] {
        for month in 1..=12i64 {
            periods.push(Quarter::from_timestamp(&day(year, month, 5)));
        }
    }
    for a in &periods {
        for b in &periods {
            assert_eq!(compare(a, b), a.cmp(b));
            assert_eq!(
                compare(a, b),
                (a.year(), a.index()).cmp(&(b.year(), b.index()))
            );
        }
    }
}

#[test]
fn compare_follows_time() {
    let mut instants = Vec::new();
    for year in [2021i64, 2022] {
        for month in 1..=12i64 {
            instants.push(day(year, month, 15));
        }
    }
    for (i, a) in instants.iter().enumerate() {
        for b in &instants[i..] {
            assert_ne!(
                compare(&TwoMonths::from_timestamp(a), &TwoMonths::from_timestamp(b)),
                Ordering::Greater
            );
            assert_ne!(
                compare(&Year::from_timestamp(a), &Year::from_timestamp(b)),
                Ordering::Greater
            );
        }
    }
}
