use issue_stats::args::{Args, PeriodEnum};
use issue_stats::classifier::{Classifier, ConfigError};
use issue_stats::models::{Counter, Issue, IssueState};
use issue_stats::period::{Month, Period, Quarter, Year};
use issue_stats::plot_data::{Diagnostics, PlotData};
use issue_stats::timestamp::Timestamp;

/// 2023-05-15T00:00:00Z
const MAY_2023: i64 = 1_684_108_800;
/// 2023-06-15T00:00:00Z
const JUNE_2023: i64 = 1_686_787_200;
/// 2023-01-15T00:00:00Z
const JANUARY_2023: i64 = 1_673_740_800;

fn at(seconds: i64) -> Timestamp {
    Timestamp::from_unix_seconds(seconds).unwrap()
}

fn args(label_category: &[(&str, &str)]) -> Args {
    Args {
        repo: "rust-lang/rust".to_string(),
        period: PeriodEnum::Month,
        page_size: 10,
        pages: 2,
        label_category: label_category
            .iter()
            .map(|(l, c)| (l.to_string(), c.to_string()))
            .collect(),
        tsv_output: "issues.tsv".to_string(),
        cached_responses_dir: None,
    }
}

fn issue(created: i64, closed: Option<i64>, state: IssueState, labels: &[&str]) -> Issue {
    Issue {
        created_at: at(created),
        closed_at: closed.map(at),
        state,
        labels: labels.iter().map(|l| l.to_string()).collect(),
        url: "https://example.org/issues/1".to_string(),
    }
}

fn month(seconds: i64) -> Month {
    Month::from_timestamp(&at(seconds))
}

fn counts<P: Period>(data: &PlotData<P>, periods: &[P], categories: &[&str]) -> Vec<i64> {
    let mut all = Vec::new();
    for period in periods {
        for category in categories {
            all.push(data.get(period, &category.to_string(), Counter::Opened));
            all.push(data.get(period, &category.to_string(), Counter::Closed));
        }
    }
    all
}

#[test]
fn new_refuses_a_configuration_without_default() {
    let refused = PlotData::<Month>::new(&args(&[("C-bug", "bugs")]));
    assert_eq!(refused.err(), Some(ConfigError::MissingDefaultCategory));
}

#[test]
fn new_starts_empty() {
    let data = PlotData::<Month>::new(&args(&[("C-bug", "bugs"), ("*", "other")])).unwrap();
    assert!(data.sorted_periods().is_empty());
    assert!(data.period_data().is_empty());
    assert_eq!(data.events(), 0);
    assert_eq!(data.get(&month(MAY_2023), &"bugs".to_string(), Counter::Opened), 0);
    assert_eq!(
        data.classifier().categories(),
        &vec!["bugs".to_string(), "other".to_string()]
    );
}

#[test]
fn increment_counts_one_event() {
    let mut data = PlotData::<Month>::new(&args(&[("*", "all")])).unwrap();
    data.increment(month(MAY_2023), "all".to_string(), Counter::Opened);
    data.increment(month(MAY_2023), "all".to_string(), Counter::Opened);
    data.increment(month(JANUARY_2023), "all".to_string(), Counter::Closed);
    assert_eq!(data.events(), 3);
    assert_eq!(data.get(&month(MAY_2023), &"all".to_string(), Counter::Opened), 2);
    assert_eq!(data.get(&month(MAY_2023), &"all".to_string(), Counter::Closed), 0);
    assert_eq!(data.get(&month(JANUARY_2023), &"all".to_string(), Counter::Closed), 1);
    assert_eq!(data.get(&month(JUNE_2023), &"all".to_string(), Counter::Opened), 0);
    assert_eq!(data.get(&month(MAY_2023), &"none".to_string(), Counter::Opened), 0);
}

#[test]
fn periods_are_sorted_whatever_the_order_of_arrival() {
    let mut data = PlotData::<Month>::new(&args(&[("*", "all")])).unwrap();
    for seconds in [JUNE_2023, JANUARY_2023, MAY_2023, JANUARY_2023, JUNE_2023 - 366 * 86_400] {
        data.increment(month(seconds), "all".to_string(), Counter::Opened);
    }
    let shown: Vec<String> = data.sorted_periods().iter().map(|p| p.display()).collect();
    assert_eq!(shown, ["2022 Jun", "2023 Jan", "2023 May", "2023 Jun"]);
    assert_eq!(data.period_data().len(), 4);
    assert_eq!(data.period_data()[1].get(&"all".to_string(), Counter::Opened), 2);
}

#[test]
fn an_issue_counts_under_the_category_of_its_first_known_label() {
    let mut data = PlotData::<Month>::new(&args(&[("C-bug", "bugs"), ("*", "other")])).unwrap();
    let bug = issue(MAY_2023, None, IssueState::Open, &["unrelated", "C-bug"]);
    assert_eq!(data.categorize_issue(&bug), "bugs");
    let diagnostics = data.analyze_issue(&bug);
    assert_eq!(
        diagnostics,
        Diagnostics { uncategorized: false, closed_without_timestamp: false }
    );
    let plain = issue(MAY_2023, None, IssueState::Open, &["unrelated"]);
    assert_eq!(data.categorize_issue(&plain), "other");
    let diagnostics = data.analyze_issue(&plain);
    assert_eq!(
        diagnostics,
        Diagnostics { uncategorized: true, closed_without_timestamp: false }
    );
    assert_eq!(
        counts(&data, &[month(MAY_2023)], &["bugs", "other"]),
        [1, 0, 1, 0]
    );
}

#[test]
fn a_closed_issue_counts_in_the_period_of_its_closing() {
    let mut data = PlotData::<Month>::new(&args(&[("*", "all")])).unwrap();
    data.analyze_issue(&issue(MAY_2023, Some(JUNE_2023), IssueState::Closed, &[]));
    assert_eq!(
        counts(&data, &[month(MAY_2023), month(JUNE_2023)], &["all"]),
        [1, 0, 0, 1]
    );
    assert_eq!(data.events(), 2);
}

#[test]
fn closed_without_timestamp_counts_as_closed_at_creation() {
    let mut data = PlotData::<Month>::new(&args(&[("*", "all")])).unwrap();
    let diagnostics = data.analyze_issue(&issue(MAY_2023, None, IssueState::Closed, &[]));
    assert_eq!(
        diagnostics,
        Diagnostics { uncategorized: true, closed_without_timestamp: true }
    );
    assert_eq!(counts(&data, &[month(MAY_2023)], &["all"]), [1, 1]);
    assert_eq!(data.sorted_periods(), [month(MAY_2023)]);
}

#[test]
fn an_open_issue_counts_as_opened_only() {
    let mut data = PlotData::<Month>::new(&args(&[("*", "all")])).unwrap();
    data.analyze_issue(&issue(MAY_2023, None, IssueState::Open, &[]));
    assert_eq!(counts(&data, &[month(MAY_2023)], &["all"]), [1, 0]);
    assert_eq!(data.events(), 1);
}

#[test]
fn the_order_of_the_issues_does_not_change_the_counts() {
    let a = issue(MAY_2023, Some(JUNE_2023), IssueState::Closed, &["C-bug"]);
    let b = issue(JANUARY_2023, None, IssueState::Closed, &["x"]);
    let config = args(&[("C-bug", "bugs"), ("*", "other")]);
    let mut forward = PlotData::<Month>::new(&config).unwrap();
    forward.analyze_issues(&vec![a.clone(), b.clone()]);
    let mut backward = PlotData::<Month>::new(&config).unwrap();
    backward.analyze_issues(&vec![b, a]);
    let periods = [month(JANUARY_2023), month(MAY_2023), month(JUNE_2023)];
    assert_eq!(forward.sorted_periods(), periods);
    assert_eq!(backward.sorted_periods(), periods);
    assert_eq!(
        counts(&forward, &periods, &["bugs", "other"]),
        counts(&backward, &periods, &["bugs", "other"])
    );
    assert_eq!(
        counts(&forward, &periods, &["bugs", "other"]),
        [0, 0, 1, 1, 1, 0, 0, 0, 0, 1, 0, 0]
    );
}

#[test]
fn diagnostics_come_in_the_order_of_the_issues() {
    let mut data = PlotData::<Month>::new(&args(&[("C-bug", "bugs"), ("*", "other")])).unwrap();
    let diagnostics = data.analyze_issues(&vec![
        issue(MAY_2023, None, IssueState::Open, &["C-bug"]),
        issue(MAY_2023, None, IssueState::Closed, &["C-bug"]),
        issue(MAY_2023, None, IssueState::Open, &[]),
        issue(MAY_2023, None, IssueState::Closed, &["*"]),
    ]);
    assert_eq!(
        diagnostics,
        [
            Diagnostics { uncategorized: false, closed_without_timestamp: false },
            Diagnostics { uncategorized: false, closed_without_timestamp: true },
            Diagnostics { uncategorized: true, closed_without_timestamp: false },
            Diagnostics { uncategorized: false, closed_without_timestamp: true },
        ]
    );
    assert_eq!(data.events(), 6);
}

#[test]
fn three_issues_in_two_periods() {
    // X is May 2023, Y is June 2023.
    let mut data = PlotData::<Month>::new(&args(&[("*", "all")])).unwrap();
    data.analyze_issues(&vec![
        issue(MAY_2023, None, IssueState::Open, &[]),
        issue(MAY_2023, Some(JUNE_2023), IssueState::Closed, &[]),
        issue(MAY_2023 + 86_400, Some(MAY_2023 + 2 * 86_400), IssueState::Closed, &[]),
    ]);
    let x = month(MAY_2023);
    let y = month(JUNE_2023);
    let all = "all".to_string();
    assert_eq!(data.sorted_periods(), [x, y]);
    assert_eq!(data.get(&x, &all, Counter::Opened), 3);
    assert_eq!(data.get(&x, &all, Counter::Closed), 1);
    assert_eq!(data.get(&y, &all, Counter::Opened), 0);
    assert_eq!(data.get(&y, &all, Counter::Closed), 1);
}

#[test]
fn coarser_periods_gather_more() {
    let issues = vec![
        issue(JANUARY_2023, Some(MAY_2023), IssueState::Closed, &[]),
        issue(MAY_2023, Some(JUNE_2023), IssueState::Closed, &[]),
    ];
    let classifier = || Classifier::new(&args(&[("*", "all")]).label_category).unwrap();
    let all = "all".to_string();

    let mut quarters = PlotData::<Quarter>::with_classifier(classifier());
    quarters.analyze_issues(&issues);
    let shown: Vec<String> = quarters.sorted_periods().iter().map(|p| p.display()).collect();
    assert_eq!(shown, ["2023 Q1", "2023 Q2"]);
    let q2 = Quarter::from_timestamp(&at(MAY_2023));
    assert_eq!(quarters.get(&q2, &all, Counter::Opened), 1);
    assert_eq!(quarters.get(&q2, &all, Counter::Closed), 2);

    let mut years = PlotData::<Year>::with_classifier(classifier());
    years.analyze_issues(&issues);
    let y = Year::from_timestamp(&at(MAY_2023));
    assert_eq!(years.sorted_periods(), [y]);
    assert_eq!(years.get(&y, &all, Counter::Opened), 2);
    assert_eq!(years.get(&y, &all, Counter::Closed), 2);
}
