use issue_stats::models::{Counter, PeriodData};
use issue_stats::text_map::TextMap;
use issue_stats::tsv_output_file::{
    AccumulatedPeriodStatsFile, Column, ColumnValue, PeriodColumns, TsvColumns,
};

fn names(list: &[&str]) -> Vec<String> {
    list.iter().map(|n| n.to_string()).collect()
}

fn data(counts: &[(&str, i64, i64)]) -> PeriodData {
    let mut data = PeriodData::default();
    for (category, opened, closed) in counts {
        for _ in 0..*opened {
            data.increment(category.to_string(), Counter::Opened);
        }
        for _ in 0..*closed {
            data.increment(category.to_string(), Counter::Closed);
        }
    }
    data
}

fn row<C: TsvColumns>(columns: &mut C, data: &PeriodData, categories: &[&str]) -> String {
    let mut out = String::new();
    columns.add_row(&mut out, data, &names(categories));
    out
}

#[test]
fn headers_hold_prefix_category_and_labels() {
    let mut labels = TextMap::new();
    labels.insert("bugs".to_string(), "C-bug,C-crash".to_string());
    labels.insert("other".to_string(), "*".to_string());
    let mut columns = PeriodColumns::new("Opened ".to_string(), ColumnValue::Count(Counter::Opened));
    let mut out = String::from("Month");
    columns.add_headers(&mut out, &names(&["bugs", "other", "rest"]), &labels);
    assert_eq!(out, "Month\tOpened bugs (C-bug,C-crash)\tOpened other (*)\tOpened rest");
}

#[test]
fn headers_of_no_category_are_empty() {
    let mut columns = PeriodColumns::new("Opened ".to_string(), ColumnValue::Difference);
    let mut out = String::new();
    columns.add_headers(&mut out, &names(&[]), &TextMap::new());
    assert_eq!(out, "");
}

#[test]
fn accumulated_headers_start_with_open() {
    let mut labels = TextMap::new();
    labels.insert("bugs".to_string(), "C-bug".to_string());
    let mut columns = AccumulatedPeriodStatsFile::new();
    let mut out = String::new();
    columns.add_headers(&mut out, &names(&["bugs", "other"]), &labels);
    assert_eq!(out, "\tOpen bugs (C-bug)\tOpen other");
}

#[test]
fn count_columns_show_the_chosen_counter() {
    let period = data(&[("bugs", 5, 2), ("other", 0, 1)]);
    let mut opened = PeriodColumns::new("Opened ".to_string(), ColumnValue::Count(Counter::Opened));
    let mut closed = PeriodColumns::new("Closed ".to_string(), ColumnValue::Count(Counter::Closed));
    assert_eq!(row(&mut opened, &period, &["bugs", "other", "none"]), "\t5\t0\t0");
    assert_eq!(row(&mut closed, &period, &["bugs", "other", "none"]), "\t2\t1\t0");
    assert_eq!(row(&mut closed, &period, &["other", "bugs"]), "\t1\t2");
}

#[test]
fn difference_columns_show_opened_less_closed() {
    let period = data(&[("bugs", 5, 2), ("other", 0, 1), ("even", 2, 2)]);
    let mut columns = PeriodColumns::new("Opened - Closed".to_string(), ColumnValue::Difference);
    assert_eq!(row(&mut columns, &period, &["bugs", "other", "even", "none"]), "\t3\t-1\t0\t0");
    assert_eq!(row(&mut columns, &period, &["bugs", "other", "even", "none"]), "\t3\t-1\t0\t0");
}

#[test]
fn cumulative_columns_carry_the_total_on() {
    let mut columns = AccumulatedPeriodStatsFile::new();
    assert_eq!(row(&mut columns, &data(&[("bugs", 5, 2)]), &["bugs"]), "\t3");
    assert_eq!(columns.get(&"bugs".to_string()), 3);
    assert_eq!(row(&mut columns, &data(&[("bugs", 1, 4)]), &["bugs"]), "\t0");
    assert_eq!(columns.get(&"bugs".to_string()), 0);
}

#[test]
fn cumulative_columns_keep_a_total_per_category() {
    let mut columns = AccumulatedPeriodStatsFile::new();
    let categories = ["bugs", "other"];
    assert_eq!(row(&mut columns, &data(&[("bugs", 2, 0)]), &categories), "\t2\t0");
    assert_eq!(row(&mut columns, &data(&[("other", 1, 3)]), &categories), "\t2\t-2");
    assert_eq!(
        row(&mut columns, &data(&[("bugs", 0, 1), ("other", 4, 0)]), &categories),
        "\t1\t2"
    );
    assert_eq!(columns.get(&"bugs".to_string()), 1);
    assert_eq!(columns.get(&"other".to_string()), 2);
    assert_eq!(columns.get(&"none".to_string()), 0);
}

#[test]
fn a_row_is_appended_to_what_is_there() {
    let mut columns = Column::Period(PeriodColumns::new(
        "Opened ".to_string(),
        ColumnValue::Count(Counter::Opened),
    ));
    let mut out = String::from("2023 May");
    columns.add_row(&mut out, &data(&[("bugs", 12, 0)]), &names(&["bugs"]));
    let mut total = Column::Accumulated(AccumulatedPeriodStatsFile::new());
    total.add_row(&mut out, &data(&[("bugs", 12, 20)]), &names(&["bugs"]));
    assert_eq!(out, "2023 May\t12\t-8");
}
