use issue_stats::classifier::{Classifier, ConfigError};
use issue_stats::text_map::TextMap;

fn pairs(list: &[(&str, &str)]) -> Vec<(String, String)> {
    list.iter().map(|(l, c)| (l.to_string(), c.to_string())).collect()
}

fn labels(list: &[&str]) -> Vec<String> {
    list.iter().map(|l| l.to_string()).collect()
}

#[test]
fn first_matching_label_of_the_issue_decides() {
    let classifier = Classifier::new(&pairs(&[("C-bug", "bugs"), ("*", "other")])).unwrap();
    assert_eq!(classifier.categorize(&labels(&["unrelated", "C-bug"])), "bugs");
    assert_eq!(classifier.categorize(&labels(&["unrelated"])), "other");
    assert_eq!(classifier.categorize(&labels(&[])), "other");
}

#[test]
fn issue_label_order_breaks_ties_not_table_order() {
    let classifier = Classifier::new(&pairs(&[
        ("C-bug", "bugs"),
        ("C-feature", "features"),
        ("*", "other"),
    ]))
    .unwrap();
    assert_eq!(classifier.categorize(&labels(&["C-feature", "C-bug"])), "features");
    assert_eq!(classifier.categorize(&labels(&["C-bug", "C-feature"])), "bugs");
    assert_eq!(classifier.categorize(&labels(&["x", "C-feature", "y", "C-bug"])), "features");
}

#[test]
fn matching_label_gives_the_position() {
    let classifier = Classifier::new(&pairs(&[("C-bug", "bugs"), ("*", "other")])).unwrap();
    assert_eq!(classifier.matching_label(&labels(&["unrelated", "C-bug", "C-bug"])), Some(1));
    assert_eq!(classifier.matching_label(&labels(&["C-bug"])), Some(0));
    assert_eq!(classifier.matching_label(&labels(&["unrelated"])), None);
    assert_eq!(classifier.matching_label(&labels(&[])), None);
}

#[test]
fn the_wildcard_is_a_label_like_any_other() {
    let classifier = Classifier::new(&pairs(&[("C-bug", "bugs"), ("*", "other")])).unwrap();
    assert_eq!(classifier.matching_label(&labels(&["*", "C-bug"])), Some(0));
    assert_eq!(classifier.categorize(&labels(&["*", "C-bug"])), "other");
}

#[test]
fn labels_are_compared_exactly() {
    let classifier = Classifier::new(&pairs(&[("C-bug", "bugs"), ("*", "other")])).unwrap();
    assert_eq!(classifier.categorize(&labels(&["c-bug"])), "other");
    assert_eq!(classifier.categorize(&labels(&["C-bug "])), "other");
    assert_eq!(classifier.categorize(&labels(&["C-bu"])), "other");
}

#[test]
fn a_table_without_wildcard_is_refused() {
    assert_eq!(
        Classifier::new(&pairs(&[("C-bug", "bugs")])).err(),
        Some(ConfigError::MissingDefaultCategory)
    );
    assert_eq!(Classifier::new(&pairs(&[])).err(), Some(ConfigError::MissingDefaultCategory));
    assert_eq!(
        Classifier::new(&pairs(&[("**", "x"), ("", "y")])).err(),
        Some(ConfigError::MissingDefaultCategory)
    );
    assert!(Classifier::new(&pairs(&[("*", "all")])).is_ok());
}

#[test]
fn the_last_pair_of_a_label_decides() {
    let classifier =
        Classifier::new(&pairs(&[("a", "first"), ("*", "other"), ("a", "second")])).unwrap();
    assert_eq!(classifier.categorize(&labels(&["a"])), "second");
}

#[test]
fn categories_come_in_the_order_of_their_first_mention() {
    let classifier = Classifier::new(&pairs(&[
        ("C-bug", "bugs"),
        ("*", "other"),
        ("C-crash", "bugs"),
        ("C-feature", "features"),
        ("C-docs", "other"),
    ]))
    .unwrap();
    assert_eq!(classifier.categories(), &labels(&["bugs", "other", "features"]));
}

#[test]
fn the_labels_of_a_category_are_joined_by_commas() {
    let classifier = Classifier::new(&pairs(&[
        ("C-bug", "bugs"),
        ("*", "other"),
        ("C-crash", "bugs"),
        ("I-ICE", "bugs"),
    ]))
    .unwrap();
    let by_category = classifier.category_to_labels();
    assert_eq!(by_category.get(&"bugs".to_string()), Some(&"C-bug,C-crash,I-ICE".to_string()));
    assert_eq!(by_category.get(&"other".to_string()), Some(&"*".to_string()));
    assert_eq!(by_category.get(&"features".to_string()), None);
    assert_eq!(by_category.keys(), &labels(&["bugs", "other"]));
}

#[test]
fn text_map_keeps_the_first_place_of_a_key() {
    let mut map = TextMap::new();
    assert_eq!(map.get(&"a".to_string()), None);
    map.insert("a".to_string(), "1".to_string());
    map.insert("b".to_string(), "2".to_string());
    map.insert("a".to_string(), "3".to_string());
    assert_eq!(map.get(&"a".to_string()), Some(&"3".to_string()));
    assert_eq!(map.get(&"b".to_string()), Some(&"2".to_string()));
    assert_eq!(map.get(&"c".to_string()), None);
    assert_eq!(map.keys(), &labels(&["a", "b"]));
}
