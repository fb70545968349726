//! What a run is asked to do.

use crate::text::{after_first, before_first, decimal, decimal_nat, push_decimal, push_decimal_nat, split_at_first};
use vstd::prelude::*;
use vstd::string::*;

verus! {

/// The granularity of the periods of a report.
#[derive(Debug, Clone, Copy, PartialEq, Eq, Structural)]
pub enum PeriodEnum {
    Month,
    TwoMonths,
    Quarter,
    Year,
}

/// The settings of a run.
#[derive(Debug, Clone)]
pub struct Args {
    /// The repository, as owner and name with a slash between them.
    pub repo: String,
    /// The granularity of the periods.
    pub period: PeriodEnum,
    /// How many issues to ask for per page.
    pub page_size: i64,
    /// How many pages to ask for.
    pub pages: usize,
    /// Pairs of a label and the category it stands for; the label `*` gives
    /// the category of issues that no other label places.
    pub label_category: Vec<(String, String)>,
    /// Where the table is written to.
    pub tsv_output: String,
    /// Where responses are kept between runs, if not in the default place.
    pub cached_responses_dir: Option<String>,
}

impl PeriodEnum {
    /// The name by which the granularity is chosen.
    pub open spec fn name_text(&self) -> Seq<char> {
        match self {
            PeriodEnum::Month => "month"@,
            PeriodEnum::TwoMonths => "months"@,
            PeriodEnum::Quarter => "quarter"@,
            PeriodEnum::Year => "year"@,
        }
    }

    /// The name by which the granularity is chosen.
    pub fn name(&self) -> (name: String)
        ensures
            name@ == self.name_text(),
    {
        match self {
            PeriodEnum::Month => String::from_str("month"),
            PeriodEnum::TwoMonths => String::from_str("months"),
            PeriodEnum::Quarter => String::from_str("quarter"),
            PeriodEnum::Year => String::from_str("year"),
        }
    }
}

/// The name of the directory of a page size.
pub open spec fn page_size_directory(page_size: int) -> Seq<char> {
    "page-size-"@ + decimal(page_size)
}

/// The name of the file of a page.
pub open spec fn page_file(page: nat) -> Seq<char> {
    "page-"@ + decimal_nat(page) + ".json"@
}

impl Args {
    /// The repository names an owner and a name: it holds a slash.
    pub open spec fn names_repo(&self) -> bool {
        self.repo@.contains('/')
    }

    /// The owner of the repository: what stands before the first slash.
    pub fn repo_owner(&self) -> (owner: String)
        ensures
            owner@ == before_first(self.repo@, '/'),
    {
        split_at_first(self.repo.as_str(), '/').0
    }

    /// The name of the repository: what stands between the first slash and
    /// the second, or the end.
    pub fn repo_name(&self) -> (name: String)
        requires
            self.names_repo(),
        ensures
            name@ == before_first(after_first(self.repo@, '/'), '/'),
    {
        match split_at_first(self.repo.as_str(), '/').1 {
            Some(rest) => split_at_first(rest.as_str(), '/').0,
            None => String::new(),
        }
    }

    /// Where the response to the request for page `page` is kept, as the
    /// names that lead there from the directory of cached responses: the
    /// owner, the repository, the page size and the page. Responses are
    /// asked for from page 1 on, so that the path tells what a response
    /// holds.
    pub fn cached_page_response_path(&self, page: usize) -> (path: Vec<String>)
        requires
            self.names_repo(),
        ensures
            path@.len() == 4,
            path[0]@ == before_first(self.repo@, '/'),
            path[1]@ == before_first(after_first(self.repo@, '/'), '/'),
            path[2]@ == page_size_directory(self.page_size as int),
            path[3]@ == page_file(page as nat),
    {
        let mut size = String::from_str("page-size-");
        push_decimal(&mut size, self.page_size);
        let mut file = String::from_str("page-");
        push_decimal_nat(&mut file, page as u64);
        file.append(".json");
        let mut path: Vec<String> = Vec::new();
        path.push(self.repo_owner());
        path.push(self.repo_name());
        path.push(size);
        path.push(file);
        path
    }
}

/// A pair of a label and its category is written with a colon between them.
pub open spec fn is_label_category(value: Seq<char>) -> bool {
    value.contains(':')
}

/// The label and the category of `value`, which holds them with a colon
/// between: the label ends at the first colon, the category is all that
/// follows it.
pub fn parse_label_category(value: &str) -> (pair: (String, String))
    requires
        is_label_category(value@),
    ensures
        pair.0@ == before_first(value@, ':'),
        pair.1@ == after_first(value@, ':'),
{
    let (label, rest) = split_at_first(value, ':');
    match rest {
        Some(category) => (label, category),
        None => (label, String::new()),
    }
}

} // verus!
