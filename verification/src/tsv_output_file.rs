//! The columns of a table: groups of one field per category, which show for
//! each period its counts, their difference, or the running total of the
//! differences.

use crate::models::{Counter, PeriodData};
use crate::text::{
    decimal, first_index, lemma_first_index, lemma_first_index_push, lemma_tabbed_step, position,
    push_decimal, tabbed, texts,
};
use crate::text_map::TextMap;
use vstd::prelude::*;
use vstd::string::*;

verus! {

/// What a group of columns shows of a period, per category.
#[derive(Debug, Clone, Copy, PartialEq, Eq, Structural)]
pub enum ColumnValue {
    /// One of the two counts.
    Count(Counter),
    /// The opened count less the closed count.
    Difference,
}

/// The opened count of `category` less its closed count.
pub open spec fn net(data: PeriodData, category: Seq<char>) -> int {
    data.count(category, Counter::Opened) - data.count(category, Counter::Closed)
}

/// What `value` shows of `category` in a period with the tallies `data`.
pub open spec fn shown(value: ColumnValue, data: PeriodData, category: Seq<char>) -> int {
    match value {
        ColumnValue::Count(counter) => data.count(category, counter),
        ColumnValue::Difference => net(data, category),
    }
}

/// The heading of the column of `category`: the prefix, the category and,
/// where `labels` knows the category, its labels in parentheses.
pub open spec fn header_field(
    prefix: Seq<char>,
    category: Seq<char>,
    labels: Map<Seq<char>, Seq<char>>,
) -> Seq<char> {
    if labels.dom().contains(category) {
        prefix + category + seq![' ', '('] + labels[category] + seq![')']
    } else {
        prefix + category
    }
}

/// The headings of the columns of `categories`, in their order.
pub open spec fn header_fields(
    prefix: Seq<char>,
    categories: Seq<Seq<char>>,
    labels: Map<Seq<char>, Seq<char>>,
) -> Seq<Seq<char>> {
    Seq::new(categories.len(), |i: int| header_field(prefix, categories[i], labels))
}

/// Appends the headings of the columns of `categories`, each after a tab.
pub fn push_header_fields(
    out: &mut String,
    prefix: &str,
    categories: &Vec<String>,
    category_to_labels: &TextMap,
)
    requires
        category_to_labels.wf(),
    ensures
        final(out)@ == old(out)@ + tabbed(
            header_fields(prefix@, texts(categories@), category_to_labels@),
        ),
{
    let ghost fields = header_fields(prefix@, texts(categories@), category_to_labels@);
    let mut i: usize = 0;
    proof {
        assert(fields.take(0) =~= Seq::<Seq<char>>::empty());
        assert(out@ =~= old(out)@ + tabbed(fields.take(0)));
        reveal_strlit("\t");
        reveal_strlit(" (");
        reveal_strlit(")");
    }
    while i < categories.len()
        invariant
            0 <= i <= categories.len(),
            category_to_labels.wf(),
            fields == header_fields(prefix@, texts(categories@), category_to_labels@),
            out@ == old(out)@ + tabbed(fields.take(i as int)),
            "\t"@ == seq!['\t'],
            " ("@ == seq![' ', '('],
            ")"@ == seq![')'],
        decreases categories.len() - i,
    {
        let ghost before = out@;
        out.append("\t");
        out.append(prefix);
        out.append(categories[i].as_str());
        match category_to_labels.get(&categories[i]) {
            Some(labels) => {
                out.append(" (");
                out.append(labels.as_str());
                out.append(")");
            },
            None => {},
        }
        proof {
            lemma_tabbed_step(fields, i as int);
            assert(out@ =~= before + seq!['\t'] + fields[i as int]);
            assert(out@ =~= old(out)@ + tabbed(fields.take(i + 1)));
        }
        i += 1;
    }
    proof {
        assert(fields.take(i as int) =~= fields);
    }
}

/// The values as decimal fields.
pub open spec fn decimal_fields(values: Seq<int>) -> Seq<Seq<char>> {
    Seq::new(values.len(), |i: int| decimal(values[i]))
}

/// What a group of columns shows.
#[derive(Debug, Clone, Copy, PartialEq, Eq, Structural)]
pub enum ColumnKind {
    /// A value of the period alone.
    Period(ColumnValue),
    /// The running total of the differences of all periods so far.
    Accumulated,
}

/// What a group of columns of `kind` shows of `category` in a period with
/// the tallies `data`, where `total` is the running total before the period.
pub open spec fn cell(kind: ColumnKind, total: int, data: PeriodData, category: Seq<char>) -> int {
    match kind {
        ColumnKind::Period(value) => shown(value, data, category),
        ColumnKind::Accumulated => total + net(data, category),
    }
}

/// A group of columns, one per category, in a table with one row per period.
/// The rows are added in ascending order of their periods, each once.
pub trait TsvColumns: Sized {
    spec fn wf(&self) -> bool;

    /// What the headings of the columns begin with.
    spec fn prefix(&self) -> Seq<char>;

    /// What the columns show.
    spec fn kind(&self) -> ColumnKind;

    /// The running total of `category` over the rows added so far; zero for
    /// columns that keep none.
    spec fn total(&self, category: Seq<char>) -> int;

    /// The values of the next row, one per category.
    open spec fn values(&self, data: PeriodData, categories: Seq<Seq<char>>) -> Seq<int> {
        Seq::new(
            categories.len(),
            |i: int| cell(self.kind(), self.total(categories[i]), data, categories[i]),
        )
    }

    /// A row can be added for `data`: running totals are kept per category,
    /// so no category is listed twice, and stay within the machine's range.
    open spec fn can_add_row(&self, data: PeriodData, categories: Seq<Seq<char>>) -> bool {
        self.kind() is Accumulated ==> {
            &&& categories.no_duplicates()
            &&& forall|i: int|
                0 <= i < categories.len() ==> i64::MIN <= #[trigger] self.total(categories[i]) + net(
                    data,
                    categories[i],
                ) <= i64::MAX
        }
    }

    /// `self` is what `before` becomes by a row for `data`: running totals
    /// take in the differences of the listed categories, nothing else changes.
    open spec fn follows(&self, before: &Self, data: PeriodData, categories: Seq<Seq<char>>) -> bool {
        &&& self.prefix() == before.prefix()
        &&& self.kind() == before.kind()
        &&& forall|category: Seq<char>| #[trigger]
            self.total(category) == if before.kind() is Accumulated && categories.contains(
                category,
            ) {
                before.total(category) + net(data, category)
            } else {
                before.total(category)
            }
    }

    /// Appends the headings of the columns: for each category, after a tab,
    /// the prefix, the category and the labels that stand for it.
    fn add_headers(
        &mut self,
        out: &mut String,
        categories: &Vec<String>,
        category_to_labels: &TextMap,
    )
        requires
            old(self).wf(),
            category_to_labels.wf(),
        ensures
            final(self).wf(),
            final(self).prefix() == old(self).prefix(),
            final(self).kind() == old(self).kind(),
            forall|category: Seq<char>| #[trigger]
                final(self).total(category) == old(self).total(category),
            final(out)@ == old(out)@ + tabbed(
                header_fields(old(self).prefix(), texts(categories@), category_to_labels@),
            ),
    ;

    /// Appends the values of the period with the tallies `period_data`: for
    /// each category, after a tab, its value in decimal.
    fn add_row(&mut self, out: &mut String, period_data: &PeriodData, categories: &Vec<String>)
        requires
            old(self).wf(),
            period_data.wf(),
            old(self).can_add_row(*period_data, texts(categories@)),
        ensures
            final(self).wf(),
            final(self).follows(old(self), *period_data, texts(categories@)),
            final(out)@ == old(out)@ + tabbed(
                decimal_fields(old(self).values(*period_data, texts(categories@))),
            ),
    ;
}

/// Columns that show a value of each period alone: one of its counts, or
/// their difference.
#[derive(Debug)]
pub struct PeriodColumns {
    header_prefix: String,
    value: ColumnValue,
}

impl PeriodColumns {
    /// Columns that show `value` under headings that begin with
    /// `header_prefix`.
    pub fn new(header_prefix: String, value: ColumnValue) -> (columns: Self)
        ensures
            columns.wf(),
            columns.prefix() == header_prefix@,
            columns.kind() == ColumnKind::Period(value),
    {
        PeriodColumns { header_prefix, value }
    }
}

impl TsvColumns for PeriodColumns {
    open spec fn wf(&self) -> bool {
        true
    }

    closed spec fn prefix(&self) -> Seq<char> {
        self.header_prefix@
    }

    closed spec fn kind(&self) -> ColumnKind {
        ColumnKind::Period(self.value)
    }

    open spec fn total(&self, category: Seq<char>) -> int {
        0
    }

    fn add_headers(
        &mut self,
        out: &mut String,
        categories: &Vec<String>,
        category_to_labels: &TextMap,
    ) {
        push_header_fields(out, self.header_prefix.as_str(), categories, category_to_labels);
    }

    fn add_row(&mut self, out: &mut String, period_data: &PeriodData, categories: &Vec<String>) {
        let ghost fields = decimal_fields(self.values(*period_data, texts(categories@)));
        let mut i: usize = 0;
        proof {
            assert(fields.take(0) =~= Seq::<Seq<char>>::empty());
            assert(out@ =~= old(out)@ + tabbed(fields.take(0)));
            reveal_strlit("\t");
        }
        while i < categories.len()
            invariant
                0 <= i <= categories.len(),
                period_data.wf(),
                fields == decimal_fields(self.values(*period_data, texts(categories@))),
                out@ == old(out)@ + tabbed(fields.take(i as int)),
                "\t"@ == seq!['\t'],
            decreases categories.len() - i,
        {
            let ghost before = out@;
            let value = match self.value {
                ColumnValue::Count(counter) => period_data.get(&categories[i], counter),
                ColumnValue::Difference => {
                    proof {
                        period_data.lemma_count(categories[i as int]@);
                    }
                    period_data.get(&categories[i], Counter::Opened) - period_data.get(
                        &categories[i],
                        Counter::Closed,
                    )
                },
            };
            out.append("\t");
            push_decimal(out, value);
            proof {
                lemma_tabbed_step(fields, i as int);
                assert(out@ =~= before + seq!['\t'] + fields[i as int]);
                assert(out@ =~= old(out)@ + tabbed(fields.take(i + 1)));
            }
            i += 1;
        }
        proof {
            assert(fields.take(i as int) =~= fields);
        }
    }
}

/// Columns that show, per category, the running total of the differences
/// between opened and closed issues over all periods so far: how many issues
/// are open at the end of the period.
#[derive(Debug)]
pub struct AccumulatedPeriodStatsFile {
    categories: Vec<String>,
    totals: Vec<i64>,
}

impl AccumulatedPeriodStatsFile {
    /// Columns with every running total at zero.
    pub fn new() -> (columns: Self)
        ensures
            columns.wf(),
            columns.prefix() == "Open "@,
            columns.kind() == ColumnKind::Accumulated,
            forall|category: Seq<char>| #[trigger] columns.total(category) == 0,
    {
        AccumulatedPeriodStatsFile { categories: Vec::new(), totals: Vec::new() }
    }

    /// The running total of `category`.
    pub fn get(&self, category: &String) -> (total: i64)
        requires
            self.wf(),
        ensures
            total == self.total(category@),
    {
        let i = position(&self.categories, category);
        if i < self.totals.len() {
            self.totals[i]
        } else {
            0
        }
    }
}

impl TsvColumns for AccumulatedPeriodStatsFile {
    closed spec fn wf(&self) -> bool {
        self.categories.len() == self.totals.len()
    }

    open spec fn prefix(&self) -> Seq<char> {
        "Open "@
    }

    open spec fn kind(&self) -> ColumnKind {
        ColumnKind::Accumulated
    }

    closed spec fn total(&self, category: Seq<char>) -> int {
        let i = first_index(texts(self.categories@), category);
        if i < self.totals.len() {
            self.totals[i] as int
        } else {
            0
        }
    }

    fn add_headers(
        &mut self,
        out: &mut String,
        categories: &Vec<String>,
        category_to_labels: &TextMap,
    ) {
        push_header_fields(out, "Open ", categories, category_to_labels);
    }

    fn add_row(&mut self, out: &mut String, period_data: &PeriodData, categories: &Vec<String>) {
        let ghost listed = texts(categories@);
        let ghost fields = decimal_fields(self.values(*period_data, listed));
        let mut i: usize = 0;
        proof {
            assert(fields.take(0) =~= Seq::<Seq<char>>::empty());
            assert(out@ =~= old(out)@ + tabbed(fields.take(0)));
            reveal_strlit("\t");
        }
        while i < categories.len()
            invariant
                0 <= i <= categories.len(),
                period_data.wf(),
                self.wf(),
                listed == texts(categories@),
                old(self).can_add_row(*period_data, listed),
                fields == decimal_fields(old(self).values(*period_data, listed)),
                out@ == old(out)@ + tabbed(fields.take(i as int)),
                forall|category: Seq<char>| #[trigger]
                    self.total(category) == if listed.take(i as int).contains(category) {
                        old(self).total(category) + net(*period_data, category)
                    } else {
                        old(self).total(category)
                    },
                "\t"@ == seq!['\t'],
            decreases categories.len() - i,
        {
            let ghost before = out@;
            let ghost entry = *self;
            let ghost names = texts(self.categories@);
            let category = &categories[i];
            proof {
                period_data.lemma_count(category@);
                assert(listed[i as int] == category@);
                assert(!listed.take(i as int).contains(category@)) by {
                    if listed.take(i as int).contains(category@) {
                        let j = choose|j: int|
                            0 <= j < listed.take(i as int).len() && listed.take(i as int)[j]
                                == category@;
                        assert(listed[j] == listed[i as int]);
                    }
                }
                assert(self.total(category@) == old(self).total(category@));
                assert(i64::MIN <= old(self).total(listed[i as int]) + net(
                    *period_data,
                    listed[i as int],
                ) <= i64::MAX);
                lemma_first_index(names, category@);
            }
            let delta = period_data.get(category, Counter::Opened) - period_data.get(
                category,
                Counter::Closed,
            );
            let at = position(&self.categories, category);
            let total = if at < self.totals.len() {
                let total = self.totals[at] + delta;
                self.totals.set(at, total);
                total
            } else {
                self.categories.push(category.clone());
                self.totals.push(delta);
                delta
            };
            out.append("\t");
            push_decimal(out, total);
            proof {
                lemma_tabbed_step(fields, i as int);
                assert(out@ =~= before + seq!['\t'] + fields[i as int]);
                assert(out@ =~= old(out)@ + tabbed(fields.take(i + 1)));
                let done = listed.take(i as int);
                let next = listed.take(i + 1);
                assert forall|c: Seq<char>| #[trigger]
                    self.total(c) == if next.contains(c) {
                        old(self).total(c) + net(*period_data, c)
                    } else {
                        old(self).total(c)
                    } by {
                    assert(next.contains(c) <==> (done.contains(c) || c == category@)) by {
                        if done.contains(c) {
                            let j = choose|j: int| 0 <= j < done.len() && done[j] == c;
                            assert(next[j] == c);
                        }
                        if c == category@ {
                            assert(next[i as int] == c);
                        }
                        if next.contains(c) {
                            let j = choose|j: int| 0 <= j < next.len() && next[j] == c;
                            if j < i {
                                assert(done[j] == c);
                            }
                        }
                    }
                    lemma_first_index(names, c);
                    if at < names.len() {
                        assert(texts(self.categories@) =~= names);
                    } else {
                        assert(texts(self.categories@) =~= names.push(category@));
                        lemma_first_index_push(names, category@, c);
                    }
                    assert(entry.total(c) == if done.contains(c) {
                        old(self).total(c) + net(*period_data, c)
                    } else {
                        old(self).total(c)
                    });
                }
            }
            i += 1;
        }
        proof {
            assert(fields.take(i as int) =~= fields);
            assert(listed.take(i as int) =~= listed);
        }
    }
}

/// Any of the groups of columns that a table can hold.
#[derive(Debug)]
pub enum Column {
    Period(PeriodColumns),
    Accumulated(AccumulatedPeriodStatsFile),
}

impl TsvColumns for Column {
    open spec fn wf(&self) -> bool {
        match self {
            Column::Period(columns) => columns.wf(),
            Column::Accumulated(columns) => columns.wf(),
        }
    }

    open spec fn prefix(&self) -> Seq<char> {
        match self {
            Column::Period(columns) => columns.prefix(),
            Column::Accumulated(columns) => columns.prefix(),
        }
    }

    open spec fn kind(&self) -> ColumnKind {
        match self {
            Column::Period(columns) => columns.kind(),
            Column::Accumulated(columns) => columns.kind(),
        }
    }

    open spec fn total(&self, category: Seq<char>) -> int {
        match self {
            Column::Period(columns) => columns.total(category),
            Column::Accumulated(columns) => columns.total(category),
        }
    }

    fn add_headers(
        &mut self,
        out: &mut String,
        categories: &Vec<String>,
        category_to_labels: &TextMap,
    ) {
        match self {
            Column::Period(columns) => columns.add_headers(out, categories, category_to_labels),
            Column::Accumulated(columns) => columns.add_headers(
                out,
                categories,
                category_to_labels,
            ),
        }
    }

    fn add_row(&mut self, out: &mut String, period_data: &PeriodData, categories: &Vec<String>) {
        match self {
            Column::Period(columns) => {
                assert(old(self).values(*period_data, texts(categories@)) =~= columns.values(
                    *period_data,
                    texts(categories@),
                ));
                columns.add_row(out, period_data, categories)
            },
            Column::Accumulated(columns) => {
                assert(old(self).values(*period_data, texts(categories@)) =~= columns.values(
                    *period_data,
                    texts(categories@),
                ));
                assert forall|i: int| 0 <= i < categories.len() implies i64::MIN
                    <= #[trigger] columns.total(texts(categories@)[i]) + net(
                    *period_data,
                    texts(categories@)[i],
                ) <= i64::MAX by {
                    assert(old(self).total(texts(categories@)[i]) == columns.total(
                        texts(categories@)[i],
                    ));
                }
                columns.add_row(out, period_data, categories)
            },
        }
    }
}

} // verus!
