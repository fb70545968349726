//! The table of a run: a line of headings, then one line per period in
//! ascending order, each with the period and the fields of every group of
//! columns, separated by tabs.

use crate::models::PeriodData;
use crate::period::Period;
use crate::plot_data::{events_in, PlotData};
use crate::sums::{lemma_sum_take, non_negative, sum_of};
use crate::text::{tabbed, texts};
use crate::models::Counter;
use crate::tsv_output_file::{
    cell, decimal_fields, header_fields, net, AccumulatedPeriodStatsFile, Column, ColumnKind,
    ColumnValue, PeriodColumns, TsvColumns,
};
use vstd::prelude::*;
use vstd::string::*;

verus! {

/// The running total of `category` over the first `k` periods: the sum of
/// the differences between its opened and its closed counts.
pub open spec fn net_through(data: Seq<PeriodData>, k: int, category: Seq<char>) -> int
    decreases k,
{
    if k <= 0 {
        0
    } else {
        net_through(data, k - 1, category) + net(data[k - 1], category)
    }
}

/// What columns of `kind` show of `category` in the row of period `k`.
pub open spec fn table_cell(
    kind: ColumnKind,
    data: Seq<PeriodData>,
    k: int,
    category: Seq<char>,
) -> int {
    cell(kind, net_through(data, k, category), data[k], category)
}

/// The values that columns of `kind` show in the row of period `k`.
pub open spec fn table_cells(
    kind: ColumnKind,
    data: Seq<PeriodData>,
    k: int,
    categories: Seq<Seq<char>>,
) -> Seq<int> {
    Seq::new(categories.len(), |i: int| table_cell(kind, data, k, categories[i]))
}

/// The prefix and the kind of each group of columns.
pub open spec fn described(columns: Seq<Column>) -> Seq<(Seq<char>, ColumnKind)> {
    Seq::new(columns.len(), |j: int| (columns[j].prefix(), columns[j].kind()))
}

/// The headings of all groups of columns.
pub open spec fn header_segments(
    columns: Seq<(Seq<char>, ColumnKind)>,
    categories: Seq<Seq<char>>,
    labels: Map<Seq<char>, Seq<char>>,
) -> Seq<char>
    decreases columns.len(),
{
    if columns.len() == 0 {
        Seq::empty()
    } else {
        header_segments(columns.drop_last(), categories, labels) + tabbed(
            header_fields(columns.last().0, categories, labels),
        )
    }
}

/// The fields of all groups of columns in the row of period `k`.
pub open spec fn row_segments(
    columns: Seq<(Seq<char>, ColumnKind)>,
    data: Seq<PeriodData>,
    k: int,
    categories: Seq<Seq<char>>,
) -> Seq<char>
    decreases columns.len(),
{
    if columns.len() == 0 {
        Seq::empty()
    } else {
        row_segments(columns.drop_last(), data, k, categories) + tabbed(
            decimal_fields(table_cells(columns.last().1, data, k, categories)),
        )
    }
}

/// The lines of the first `n` periods.
pub open spec fn rows<P: Period>(
    periods: Seq<P>,
    columns: Seq<(Seq<char>, ColumnKind)>,
    data: Seq<PeriodData>,
    n: int,
    categories: Seq<Seq<char>>,
) -> Seq<char>
    decreases n,
{
    if n <= 0 {
        Seq::empty()
    } else {
        rows(periods, columns, data, n - 1, categories) + periods[n - 1].text() + row_segments(
            columns,
            data,
            n - 1,
            categories,
        ) + seq!['\n']
    }
}

/// The whole table: the line of headings, then the lines of all periods.
pub open spec fn report_text<P: Period>(
    periods: Seq<P>,
    data: Seq<PeriodData>,
    categories: Seq<Seq<char>>,
    labels: Map<Seq<char>, Seq<char>>,
    columns: Seq<(Seq<char>, ColumnKind)>,
) -> Seq<char> {
    P::heading_text() + header_segments(columns, categories, labels) + seq!['\n'] + rows(
        periods,
        columns,
        data,
        periods.len() as int,
        categories,
    )
}

/// A running total never exceeds the number of events counted in the
/// periods it runs over, in either direction.
pub proof fn lemma_net_through_bounded(data: Seq<PeriodData>, k: int, category: Seq<char>)
    requires
        forall|i: int| 0 <= i < data.len() ==> (#[trigger] data[i]).wf(),
        0 <= k <= data.len(),
    ensures
        non_negative(data, events_in()),
        -sum_of(data, events_in()) <= -sum_of(data.take(k), events_in()) <= net_through(
            data,
            k,
            category,
        ) <= sum_of(data.take(k), events_in()) <= sum_of(data, events_in()),
    decreases k,
{
    assert forall|i: int| 0 <= i < data.len() implies 0 <= #[trigger] events_in()(data[i]) by {
        assert(data[i].wf());
        data[i].lemma_count(category);
    }
    lemma_sum_take(data, k, events_in());
    if k > 0 {
        lemma_net_through_bounded(data, k - 1, category);
        lemma_sum_take(data, k - 1, events_in());
        assert(data[k - 1].wf());
        data[k - 1].lemma_count(category);
    }
}

/// The groups of columns `after` are what `before` become by a row for
/// `data`.
pub open spec fn all_follow(
    after: Seq<Column>,
    before: Seq<Column>,
    data: PeriodData,
    categories: Seq<Seq<char>>,
) -> bool {
    &&& after.len() == before.len()
    &&& forall|j: int|
        0 <= j < after.len() ==> (#[trigger] after[j]).wf() && after[j].follows(
            &before[j],
            data,
            categories,
        )
}

/// The groups of columns `after` are as `before` in all that can be seen of
/// them.
pub open spec fn all_same(after: Seq<Column>, before: Seq<Column>) -> bool {
    &&& after.len() == before.len()
    &&& forall|j: int|
        0 <= j < after.len() ==> {
            &&& (#[trigger] after[j]).wf()
            &&& after[j].prefix() == before[j].prefix()
            &&& after[j].kind() == before[j].kind()
            &&& forall|category: Seq<char>| #[trigger]
                after[j].total(category) == before[j].total(category)
        }
}

/// The fields that the groups of columns show next for `data`.
pub open spec fn next_segments(
    columns: Seq<Column>,
    data: PeriodData,
    categories: Seq<Seq<char>>,
) -> Seq<char>
    decreases columns.len(),
{
    if columns.len() == 0 {
        Seq::empty()
    } else {
        next_segments(columns.drop_last(), data, categories) + tabbed(
            decimal_fields(columns.last().values(data, categories)),
        )
    }
}

/// Appends the headings of every group of columns.
pub fn add_headers_of_all(
    out: &mut String,
    columns: &mut Vec<Column>,
    categories: &Vec<String>,
    category_to_labels: &crate::text_map::TextMap,
)
    requires
        forall|j: int| 0 <= j < old(columns).len() ==> (#[trigger] old(columns)[j]).wf(),
        category_to_labels.wf(),
    ensures
        all_same(final(columns)@, old(columns)@),
        final(out)@ == old(out)@ + header_segments(
            described(old(columns)@),
            texts(categories@),
            category_to_labels@,
        ),
{
    let ghost all = described(columns@);
    let mut j: usize = 0;
    proof {
        assert(all.take(0) =~= Seq::<(Seq<char>, ColumnKind)>::empty());
        assert(out@ =~= old(out)@ + header_segments(
            all.take(0),
            texts(categories@),
            category_to_labels@,
        ));
    }
    while j < columns.len()
        invariant
            0 <= j <= columns.len(),
            category_to_labels.wf(),
            all == described(old(columns)@),
            all_same(columns@, old(columns)@),
            out@ == old(out)@ + header_segments(
                all.take(j as int),
                texts(categories@),
                category_to_labels@,
            ),
        decreases columns.len() - j,
    {
        let ghost entry = columns@;
        columns[j].add_headers(out, categories, category_to_labels);
        proof {
            assert(all.take(j + 1).drop_last() =~= all.take(j as int));
            assert(all.take(j + 1).last() == all[j as int]);
            assert(entry[j as int].prefix() == old(columns)[j as int].prefix());
            assert forall|k: int| 0 <= k < columns.len() implies {
                &&& (#[trigger] columns@[k]).wf()
                &&& columns@[k].prefix() == old(columns)@[k].prefix()
                &&& columns@[k].kind() == old(columns)@[k].kind()
                &&& forall|category: Seq<char>| #[trigger]
                    columns@[k].total(category) == old(columns)@[k].total(category)
            } by {
                assert(entry[k].wf());
                if k != j {
                    assert(columns@[k] == entry[k]);
                }
            }
            assert(out@ =~= old(out)@ + header_segments(
                all.take(j + 1),
                texts(categories@),
                category_to_labels@,
            ));
        }
        j += 1;
    }
    proof {
        assert(all.take(j as int) =~= all);
    }
}

/// Appends the fields of every group of columns for the period with the
/// tallies `period_data`.
pub fn add_row_of_all(
    out: &mut String,
    columns: &mut Vec<Column>,
    period_data: &PeriodData,
    categories: &Vec<String>,
)
    requires
        period_data.wf(),
        forall|j: int|
            0 <= j < old(columns).len() ==> (#[trigger] old(columns)[j]).wf() && old(
                columns,
            )[j].can_add_row(*period_data, texts(categories@)),
    ensures
        all_follow(final(columns)@, old(columns)@, *period_data, texts(categories@)),
        final(out)@ == old(out)@ + next_segments(
            old(columns)@,
            *period_data,
            texts(categories@),
        ),
{
    let ghost listed = texts(categories@);
    let mut j: usize = 0;
    proof {
        assert(columns@.take(0) =~= Seq::<Column>::empty());
        assert(out@ =~= old(out)@ + next_segments(columns@.take(0), *period_data, listed));
    }
    while j < columns.len()
        invariant
            0 <= j <= columns.len(),
            period_data.wf(),
            listed == texts(categories@),
            columns.len() == old(columns).len(),
            forall|k: int|
                0 <= k < j ==> (#[trigger] columns@[k]).wf() && columns@[k].follows(
                    &old(columns)@[k],
                    *period_data,
                    listed,
                ),
            forall|k: int| j <= k < columns.len() ==> #[trigger] columns@[k] == old(columns)@[k],
            forall|k: int|
                0 <= k < old(columns).len() ==> (#[trigger] old(columns)[k]).wf() && old(
                    columns,
                )[k].can_add_row(*period_data, listed),
            out@ == old(out)@ + next_segments(old(columns)@.take(j as int), *period_data, listed),
        decreases columns.len() - j,
    {
        let ghost entry = columns@;
        proof {
            assert(entry[j as int] == old(columns)@[j as int]);
            assert(old(columns)[j as int].wf());
        }
        columns[j].add_row(out, period_data, categories);
        proof {
            let done = old(columns)@.take(j + 1);
            assert(done.drop_last() =~= old(columns)@.take(j as int));
            assert(done.last() == old(columns)@[j as int]);
            assert forall|k: int| 0 <= k < j + 1 implies (#[trigger] columns@[k]).wf()
                && columns@[k].follows(&old(columns)@[k], *period_data, listed) by {
                if k < j {
                    assert(columns@[k] == entry[k]);
                    assert(entry[k].wf());
                }
            }
            assert forall|k: int| j + 1 <= k < columns.len() implies #[trigger] columns@[k] == old(
                columns,
            )@[k] by {
                assert(columns@[k] == entry[k]);
            }
            assert(out@ =~= old(out)@ + next_segments(done, *period_data, listed));
        }
        j += 1;
    }
    proof {
        assert(old(columns)@.take(j as int) =~= old(columns)@);
    }
}

/// The running total that columns of `kind` hold for `category` after the
/// rows of the first `k` periods: totals are kept for the listed categories.
pub open spec fn carried(
    kind: ColumnKind,
    categories: Seq<Seq<char>>,
    data: Seq<PeriodData>,
    k: int,
    category: Seq<char>,
) -> int {
    if kind is Accumulated && categories.contains(category) {
        net_through(data, k, category)
    } else {
        0
    }
}

/// The groups of columns hold what they carry after the rows of the first
/// `k` periods.
pub open spec fn all_carry(
    columns: Seq<Column>,
    categories: Seq<Seq<char>>,
    data: Seq<PeriodData>,
    k: int,
) -> bool {
    forall|j: int, category: Seq<char>|
        0 <= j < columns.len() ==> #[trigger] columns[j].total(category) == carried(
            columns[j].kind(),
            categories,
            data,
            k,
            category,
        )
}

/// The groups of columns `after` are those of `before`, whatever their
/// running totals.
pub open spec fn all_same_but_totals(after: Seq<Column>, before: Seq<Column>) -> bool {
    &&& after.len() == before.len()
    &&& forall|j: int|
        0 <= j < after.len() ==> {
            &&& (#[trigger] after[j]).wf()
            &&& after[j].prefix() == before[j].prefix()
            &&& after[j].kind() == before[j].kind()
        }
}

/// Groups of columns that were given the rows of the first `k` periods show
/// for period `k` what the table holds there.
proof fn lemma_next_segments(
    columns: Seq<Column>,
    categories: Seq<Seq<char>>,
    data: Seq<PeriodData>,
    k: int,
)
    requires
        0 <= k < data.len(),
        all_carry(columns, categories, data, k),
    ensures
        next_segments(columns, data[k], categories) == row_segments(
            described(columns),
            data,
            k,
            categories,
        ),
    decreases columns.len(),
{
    if columns.len() > 0 {
        let rest = columns.drop_last();
        let last = columns.last();
        assert(described(columns).drop_last() =~= described(rest));
        assert(described(columns).last() == (last.prefix(), last.kind()));
        assert forall|j: int, category: Seq<char>| 0 <= j < rest.len() implies #[trigger] rest[j].total(
            category,
        ) == carried(rest[j].kind(), categories, data, k, category) by {
            assert(rest[j] == columns[j]);
        }
        lemma_next_segments(rest, categories, data, k);
        assert(last.values(data[k], categories) =~= table_cells(last.kind(), data, k, categories)) by {
            assert forall|i: int| 0 <= i < categories.len() implies last.values(
                data[k],
                categories,
            )[i] == table_cells(last.kind(), data, k, categories)[i] by {
                assert(categories.contains(categories[i]));
                assert(columns[columns.len() - 1].total(categories[i]) == carried(
                    last.kind(),
                    categories,
                    data,
                    k,
                    categories[i],
                ));
            }
        }
    }
}

/// Appends the table of `plot_data` with the groups of columns `columns`,
/// which have seen no row yet: the line of headings, then one line per
/// period in ascending order. A line starts with the period (the first with
/// the heading of the period column), holds the fields of every group in
/// their order, each after a tab, and ends with a line feed.
pub fn write_report<P: Period>(
    out: &mut String,
    plot_data: &PlotData<P>,
    columns: &mut Vec<Column>,
)
    requires
        plot_data.wf(),
        forall|j: int| 0 <= j < old(columns).len() ==> (#[trigger] old(columns)[j]).wf(),
        forall|j: int, category: Seq<char>|
            0 <= j < old(columns).len() ==> #[trigger] old(columns)[j].total(category) == 0,
    ensures
        final(out)@ == old(out)@ + report_text(
            plot_data.periods(),
            plot_data.data(),
            plot_data.classifier().category_list(),
            plot_data.classifier().labels(),
            described(old(columns)@),
        ),
        all_same_but_totals(final(columns)@, old(columns)@),
        all_carry(
            final(columns)@,
            plot_data.classifier().category_list(),
            plot_data.data(),
            plot_data.data().len() as int,
        ),
{
    let classifier = plot_data.classifier();
    let categories = classifier.categories();
    let category_to_labels = classifier.category_to_labels();
    let periods = plot_data.sorted_periods();
    let data = plot_data.period_data();
    let ghost listed = texts(categories@);
    let ghost all = described(columns@);
    proof {
        plot_data.lemma_periods();
        classifier.lemma_categories();
        reveal_strlit("\n");
    }
    let heading = P::heading();
    out.append(heading.as_str());
    add_headers_of_all(out, columns, categories, category_to_labels);
    out.append("\n");
    proof {
        assert(described(columns@) =~= all);
    }
    let ghost head = out@;
    let mut k: usize = 0;
    while k < periods.len()
        invariant
            0 <= k <= periods.len(),
            periods@ == plot_data.periods(),
            data@ == plot_data.data(),
            periods.len() == data.len(),
            listed == texts(categories@),
            listed.no_duplicates(),
            forall|i: int| 0 <= i < periods.len() ==> (#[trigger] periods[i]).wf(),
            forall|i: int| 0 <= i < data.len() ==> (#[trigger] data[i]).wf(),
            sum_of(data@, events_in()) <= i64::MAX,
            all == described(old(columns)@),
            all == described(columns@),
            all_same_but_totals(columns@, old(columns)@),
            all_carry(columns@, listed, data@, k as int),
            out@ == head + rows(periods@, all, data@, k as int, listed),
            "\n"@ == seq!['\n'],
        decreases periods.len() - k,
    {
        let ghost entry = columns@;
        let period = periods[k].display();
        out.append(period.as_str());
        proof {
            assert(data[k as int].wf());
            assert forall|j: int| 0 <= j < columns.len() implies (#[trigger] columns[j]).wf()
                && columns[j].can_add_row(data@[k as int], listed) by {
                if columns[j].kind() is Accumulated {
                    assert forall|i: int| 0 <= i < listed.len() implies i64::MIN
                        <= #[trigger] columns[j].total(listed[i]) + net(data@[k as int], listed[i])
                        <= i64::MAX by {
                        assert(listed.contains(listed[i]));
                        lemma_net_through_bounded(data@, k + 1, listed[i]);
                    }
                }
            }
            lemma_next_segments(entry, listed, data@, k as int);
        }
        add_row_of_all(out, columns, &data[k], categories);
        out.append("\n");
        proof {
            assert(described(columns@) =~= all);
            assert forall|j: int, category: Seq<char>| 0 <= j < columns.len() implies #[trigger] columns[j].total(
                category,
            ) == carried(columns[j].kind(), listed, data@, k + 1, category) by {
                assert(columns@[j].follows(&entry[j], data@[k as int], listed));
                assert(entry[j].total(category) == carried(
                    entry[j].kind(),
                    listed,
                    data@,
                    k as int,
                    category,
                ));
            }
            assert(out@ =~= head + rows(periods@, all, data@, k + 1, listed));
        }
        k += 1;
    }
}

/// The prefixes and kinds of the groups of columns of the usual table: the
/// opened count, the closed count, their difference, and the running total
/// of the differences.
pub open spec fn usual_columns() -> Seq<(Seq<char>, ColumnKind)> {
    seq![
        ("Opened "@, ColumnKind::Period(ColumnValue::Count(Counter::Opened))),
        ("Closed "@, ColumnKind::Period(ColumnValue::Count(Counter::Closed))),
        ("Opened - Closed"@, ColumnKind::Period(ColumnValue::Difference)),
        ("Open "@, ColumnKind::Accumulated),
    ]
}

/// The groups of columns of the usual table, none of which has seen a row.
pub fn tsv_columns() -> (columns: Vec<Column>)
    ensures
        described(columns@) == usual_columns(),
        forall|j: int| 0 <= j < columns.len() ==> (#[trigger] columns[j]).wf(),
        forall|j: int, category: Seq<char>|
            0 <= j < columns.len() ==> #[trigger] columns[j].total(category) == 0,
{
    let mut columns: Vec<Column> = Vec::new();
    columns.push(
        Column::Period(
            PeriodColumns::new(String::from_str("Opened "), ColumnValue::Count(Counter::Opened)),
        ),
    );
    columns.push(
        Column::Period(
            PeriodColumns::new(String::from_str("Closed "), ColumnValue::Count(Counter::Closed)),
        ),
    );
    columns.push(
        Column::Period(
            PeriodColumns::new(String::from_str("Opened - Closed"), ColumnValue::Difference),
        ),
    );
    columns.push(Column::Accumulated(AccumulatedPeriodStatsFile::new()));
    proof {
        assert(described(columns@) =~= usual_columns());
    }
    columns
}

/// The usual table of `plot_data`, as tab-separated text.
pub fn tsv_report<P: Period>(plot_data: &PlotData<P>) -> (report: String)
    requires
        plot_data.wf(),
    ensures
        report@ == report_text(
            plot_data.periods(),
            plot_data.data(),
            plot_data.classifier().category_list(),
            plot_data.classifier().labels(),
            usual_columns(),
        ),
{
    let mut columns = tsv_columns();
    let mut report = String::new();
    write_report(&mut report, plot_data, &mut columns);
    report
}

} // verus!
