use issue_stats::args::{parse_label_category, Args, PeriodEnum};
use issue_stats::paging::{first_request, next_request, PageRequest};

fn args(repo: &str) -> Args {
    Args {
        repo: repo.to_string(),
        period: PeriodEnum::Month,
        page_size: 10,
        pages: 2,
        label_category: Vec::new(),
        tsv_output: "issues.tsv".to_string(),
        cached_responses_dir: None,
    }
}

#[test]
fn repo_owner_stands_before_the_slash() {
    assert_eq!(args("rust-lang/rust").repo_owner(), "rust-lang");
    assert_eq!(args("/rust").repo_owner(), "");
    assert_eq!(args("a/b/c").repo_owner(), "a");
    assert_eq!(args("no-slash").repo_owner(), "no-slash");
}

#[test]
fn repo_name_stands_after_the_slash() {
    assert_eq!(args("rust-lang/rust").repo_name(), "rust");
    assert_eq!(args("rust-lang/").repo_name(), "");
    assert_eq!(args("a/b/c").repo_name(), "b");
    assert_eq!(args("a//c").repo_name(), "");
}

#[test]
fn cached_page_response_path_names_owner_repo_size_and_page() {
    let path = args("rust-lang/rust").cached_page_response_path(1);
    assert_eq!(path, ["rust-lang", "rust", "page-size-10", "page-1.json"]);
    let mut other = args("enselic/cargo-public-api");
    other.page_size = 100;
    assert_eq!(
        other.cached_page_response_path(37),
        ["enselic", "cargo-public-api", "page-size-100", "page-37.json"]
    );
    other.page_size = -1;
    assert_eq!(other.cached_page_response_path(0)[2..], ["page-size--1", "page-0.json"]);
}

#[test]
fn parse_label_category_splits_at_the_first_colon() {
    assert_eq!(
        parse_label_category("C-bug:bugs"),
        ("C-bug".to_string(), "bugs".to_string())
    );
    assert_eq!(
        parse_label_category("*:uncategorized"),
        ("*".to_string(), "uncategorized".to_string())
    );
    assert_eq!(parse_label_category("a:b:c"), ("a".to_string(), "b:c".to_string()));
    assert_eq!(parse_label_category(":"), (String::new(), String::new()));
}

#[test]
fn period_names() {
    assert_eq!(PeriodEnum::Month.name(), "month");
    assert_eq!(PeriodEnum::TwoMonths.name(), "months");
    assert_eq!(PeriodEnum::Quarter.name(), "quarter");
    assert_eq!(PeriodEnum::Year.name(), "year");
}

#[test]
fn the_first_request_is_for_page_one() {
    assert!(first_request(0).is_none());
    let first = first_request(2).unwrap();
    assert_eq!(first.page, 1);
    assert_eq!(first.after, None);
}

#[test]
fn requests_follow_while_pages_follow_and_are_allowed() {
    let first = first_request(2).unwrap();
    let second = next_request(2, &first, true, Some("cursor-1".to_string())).unwrap();
    assert_eq!(second.page, 2);
    assert_eq!(second.after, Some("cursor-1".to_string()));
    assert!(next_request(2, &second, true, Some("cursor-2".to_string())).is_none());
    assert!(next_request(2, &first, false, Some("cursor-1".to_string())).is_none());
    let odd = next_request(5, &PageRequest { page: 3, after: None }, true, None).unwrap();
    assert_eq!(odd.page, 4);
    assert_eq!(odd.after, None);
}
