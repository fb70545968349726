use issue_stats::text::{find_char, position, push_decimal, push_decimal_nat, split_at_first};

fn decimal(n: i64) -> String {
    let mut out = String::new();
    push_decimal(&mut out, n);
    out
}

#[test]
fn decimal_of_small_numbers() {
    assert_eq!(decimal(0), "0");
    assert_eq!(decimal(7), "7");
    assert_eq!(decimal(10), "10");
    assert_eq!(decimal(2023), "2023");
    assert_eq!(decimal(-1), "-1");
    assert_eq!(decimal(-305), "-305");
}

#[test]
fn decimal_of_the_extremes() {
    assert_eq!(decimal(i64::MAX), "9223372036854775807");
    assert_eq!(decimal(i64::MIN), "-9223372036854775808");
    assert_eq!(decimal(i64::MIN + 1), "-9223372036854775807");
}

#[test]
fn decimal_agrees_with_std() {
    for n in [-100_000i64, -99, -10, -9, 9, 11, 99, 100, 101, 1_000_000, 4_294_967_296] {
        assert_eq!(decimal(n), n.to_string());
    }
}

#[test]
fn decimal_is_appended() {
    let mut out = String::from("page-");
    push_decimal_nat(&mut out, 42);
    assert_eq!(out, "page-42");
    push_decimal_nat(&mut out, u64::MAX);
    assert_eq!(out, "page-4218446744073709551615");
}

#[test]
fn find_char_gives_the_first_position() {
    assert_eq!(find_char("rust-lang/rust", '/'), 9);
    assert_eq!(find_char("a/b/c", '/'), 1);
    assert_eq!(find_char("/", '/'), 0);
    assert_eq!(find_char("none", '/'), 4);
    assert_eq!(find_char("", '/'), 0);
}

#[test]
fn find_char_counts_characters() {
    assert_eq!(find_char("żółw:x", ':'), 4);
}

#[test]
fn split_at_first_separator() {
    assert_eq!(
        split_at_first("C-bug:bugs", ':'),
        ("C-bug".to_string(), Some("bugs".to_string()))
    );
    assert_eq!(
        split_at_first("a:b:c", ':'),
        ("a".to_string(), Some("b:c".to_string()))
    );
    assert_eq!(split_at_first(":", ':'), (String::new(), Some(String::new())));
    assert_eq!(split_at_first("abc", ':'), ("abc".to_string(), None));
    assert_eq!(split_at_first("", ':'), (String::new(), None));
    assert_eq!(
        split_at_first("größe:maß", ':'),
        ("größe".to_string(), Some("maß".to_string()))
    );
}

#[test]
fn position_of_a_name() {
    let names = vec!["a".to_string(), "b".to_string(), "a".to_string()];
    assert_eq!(position(&names, &"a".to_string()), 0);
    assert_eq!(position(&names, &"b".to_string()), 1);
    assert_eq!(position(&names, &"c".to_string()), 3);
    assert_eq!(position(&Vec::new(), &"c".to_string()), 0);
}
