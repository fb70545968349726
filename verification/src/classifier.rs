//! From an issue's labels to its category.

use crate::text::texts;
use crate::text_map::TextMap;
use vstd::prelude::*;
use vstd::string::*;

verus! {

/// The label whose category is given to issues that no other label places.
pub open spec fn wildcard() -> Seq<char> {
    "*"@
}

/// The texts of a list of label and category pairs.
pub open spec fn pair_texts(pairs: Seq<(String, String)>) -> Seq<(Seq<char>, Seq<char>)> {
    Seq::new(pairs.len(), |i: int| (pairs[i].0@, pairs[i].1@))
}

/// The category of each label: of the last pair that names the label.
pub open spec fn label_categories(pairs: Seq<(Seq<char>, Seq<char>)>) -> Map<Seq<char>, Seq<char>>
    decreases pairs.len(),
{
    if pairs.len() == 0 {
        Map::empty()
    } else {
        label_categories(pairs.drop_last()).insert(pairs.last().0, pairs.last().1)
    }
}

/// The labels of each category, in the order of the pairs and separated by
/// commas.
pub open spec fn category_labels(pairs: Seq<(Seq<char>, Seq<char>)>) -> Map<Seq<char>, Seq<char>>
    decreases pairs.len(),
{
    if pairs.len() == 0 {
        Map::empty()
    } else {
        let before = category_labels(pairs.drop_last());
        let (label, category) = pairs.last();
        if before.dom().contains(category) {
            before.insert(category, before[category] + seq![','] + label)
        } else {
            before.insert(category, label)
        }
    }
}

/// The categories, each once, in the order in which the pairs first name them.
pub open spec fn category_order(pairs: Seq<(Seq<char>, Seq<char>)>) -> Seq<Seq<char>>
    decreases pairs.len(),
{
    if pairs.len() == 0 {
        Seq::empty()
    } else {
        let before = category_order(pairs.drop_last());
        if before.contains(pairs.last().1) {
            before
        } else {
            before.push(pairs.last().1)
        }
    }
}

/// The position of the first of `labels` that `table` places, or the length
/// of `labels` where it places none of them.
pub open spec fn first_match(table: Map<Seq<char>, Seq<char>>, labels: Seq<Seq<char>>) -> int
    decreases labels.len(),
{
    if labels.len() == 0 {
        0
    } else if table.dom().contains(labels[0]) {
        0
    } else {
        1 + first_match(table, labels.drop_first())
    }
}

/// The category of an issue with `labels`: that of the first label that
/// `table` places, whatever the order of the table; the wildcard's category
/// where it places none.
pub open spec fn category_of(table: Map<Seq<char>, Seq<char>>, labels: Seq<Seq<char>>) -> Seq<char> {
    let i = first_match(table, labels);
    if i < labels.len() {
        table[labels[i]]
    } else {
        table[wildcard()]
    }
}

/// `first_match` is the least position of a label that the table places.
pub proof fn lemma_first_match(table: Map<Seq<char>, Seq<char>>, labels: Seq<Seq<char>>)
    ensures
        0 <= first_match(table, labels) <= labels.len(),
        first_match(table, labels) < labels.len() ==> table.dom().contains(
            labels[first_match(table, labels)],
        ),
        forall|j: int| 0 <= j < first_match(table, labels) ==> !table.dom().contains(labels[j]),
    decreases labels.len(),
{
    if labels.len() != 0 && !table.dom().contains(labels[0]) {
        let rest = labels.drop_first();
        lemma_first_match(table, rest);
        assert forall|j: int| 0 <= j < first_match(table, labels) implies !table.dom().contains(
            labels[j],
        ) by {
            if j > 0 {
                assert(labels[j] == rest[j - 1]);
            }
        }
        if first_match(table, labels) < labels.len() {
            assert(labels[first_match(table, labels)] == rest[first_match(table, rest)]);
        }
    }
}

/// A position whose label the table places, with none placed before it, is
/// the first match; so is the length of a list of which it places none.
pub proof fn lemma_first_match_is(table: Map<Seq<char>, Seq<char>>, labels: Seq<Seq<char>>, i: int)
    requires
        0 <= i <= labels.len(),
        forall|j: int| 0 <= j < i ==> !table.dom().contains(labels[j]),
        i < labels.len() ==> table.dom().contains(labels[i]),
    ensures
        first_match(table, labels) == i,
{
    lemma_first_match(table, labels);
}

/// What is wrong with a configuration.
#[derive(Debug, Clone, Copy, PartialEq, Eq, Structural)]
pub enum ConfigError {
    /// No pair gives the wildcard label `*` a category.
    MissingDefaultCategory,
}

/// The classification table: which category each label stands for, and the
/// category of issues that carry none of these labels.
#[derive(Debug)]
pub struct Classifier {
    label_to_category: TextMap,
    category_to_labels: TextMap,
    categories: Vec<String>,
}

impl Classifier {
    /// The maps are well-formed, the wildcard has a category, and the list of
    /// categories is that of the categories' labels.
    pub closed spec fn wf(&self) -> bool {
        &&& self.label_to_category.wf()
        &&& self.category_to_labels.wf()
        &&& self.label_to_category@.dom().contains(wildcard())
        &&& texts(self.categories@) == self.category_to_labels.key_order()
    }

    /// The category of each label.
    pub closed spec fn table(&self) -> Map<Seq<char>, Seq<char>> {
        self.label_to_category@
    }

    /// The labels of each category, separated by commas.
    pub closed spec fn labels(&self) -> Map<Seq<char>, Seq<char>> {
        self.category_to_labels@
    }

    /// The categories in the order in which the configuration first names
    /// them.
    pub closed spec fn category_list(&self) -> Seq<Seq<char>> {
        texts(self.categories@)
    }

    /// The category of an issue with `labels`.
    pub open spec fn category(&self, labels: Seq<Seq<char>>) -> Seq<char> {
        category_of(self.table(), labels)
    }

    /// None of `labels` has a category of its own.
    pub open spec fn places_none(&self, labels: Seq<Seq<char>>) -> bool {
        first_match(self.table(), labels) == labels.len()
    }

    /// Every category is listed once, and has its labels.
    pub proof fn lemma_categories(&self)
        requires
            self.wf(),
        ensures
            self.table().dom().contains(wildcard()),
            self.category_list().no_duplicates(),
            self.category_list().to_set() == self.labels().dom(),
    {
        self.category_to_labels.lemma_key_order();
    }

    /// Some pair of `pairs` gives the wildcard label a category.
    pub open spec fn new_ok(pairs: Seq<(String, String)>) -> bool {
        label_categories(pair_texts(pairs)).dom().contains(wildcard())
    }

    /// `classifier` holds what `pairs` describe.
    pub open spec fn new_post(pairs: Seq<(String, String)>, classifier: Classifier) -> bool {
        &&& classifier.table() == label_categories(pair_texts(pairs))
        &&& classifier.labels() == category_labels(pair_texts(pairs))
        &&& classifier.category_list() == category_order(pair_texts(pairs))
    }

    /// The table that `pairs` describe, in their order. A configuration
    /// without a category for the wildcard `*` is refused.
    pub fn new(pairs: &Vec<(String, String)>) -> (r: Result<Classifier, ConfigError>)
        ensures
            r is Ok <==> Self::new_ok(pairs@),
            r matches Ok(c) ==> c.wf() && Self::new_post(pairs@, c),
            r matches Err(e) ==> e == ConfigError::MissingDefaultCategory,
    {
        let mut label_to_category = TextMap::new();
        let mut category_to_labels = TextMap::new();
        let mut categories: Vec<String> = Vec::new();
        let ghost all = pair_texts(pairs@);
        proof {
            assert(texts(categories@) =~= Seq::<Seq<char>>::empty());
            assert(all.take(0) =~= Seq::<(Seq<char>, Seq<char>)>::empty());
        }
        let mut i: usize = 0;
        while i < pairs.len()
            invariant
                0 <= i <= pairs.len(),
                all == pair_texts(pairs@),
                label_to_category.wf(),
                category_to_labels.wf(),
                label_to_category@ == label_categories(all.take(i as int)),
                category_to_labels@ == category_labels(all.take(i as int)),
                texts(categories@) == category_order(all.take(i as int)),
                texts(categories@) == category_to_labels.key_order(),
            decreases pairs.len() - i,
        {
            let label = &pairs[i].0;
            let category = &pairs[i].1;
            let ghost before = all.take(i as int);
            let ghost names = texts(categories@);
            proof {
                assert(all.take(i + 1).drop_last() =~= before);
                assert(all.take(i + 1).last() == (label@, category@));
                category_to_labels.lemma_key_order();
            }
            label_to_category.insert(label.clone(), category.clone());
            let joined = match category_to_labels.get(category) {
                Some(labels) => {
                    let mut joined = labels.clone();
                    proof {
                        reveal_strlit(",");
                    }
                    joined.append(",");
                    joined.append(label.as_str());
                    assert(joined@ =~= labels@ + seq![','] + label@);
                    joined
                },
                None => {
                    categories.push(category.clone());
                    assert(texts(categories@) =~= names.push(category@));
                    label.clone()
                },
            };
            category_to_labels.insert(category.clone(), joined);
            i += 1;
        }
        proof {
            assert(all.take(i as int) =~= all);
        }
        let star = String::from_str("*");
        if label_to_category.get(&star).is_some() {
            Ok(Classifier { label_to_category, category_to_labels, categories })
        } else {
            Err(ConfigError::MissingDefaultCategory)
        }
    }

    /// The categories in the order in which the configuration first names
    /// them.
    pub fn categories(&self) -> (categories: &Vec<String>)
        ensures
            texts(categories@) == self.category_list(),
    {
        &self.categories
    }

    /// The labels of each category.
    pub fn category_to_labels(&self) -> (labels: &TextMap)
        requires
            self.wf(),
        ensures
            labels.wf(),
            labels@ == self.labels(),
    {
        &self.category_to_labels
    }

    /// The position of the first of `labels` that has a category of its own,
    /// if there is one.
    pub fn matching_label(&self, labels: &Vec<String>) -> (found: Option<usize>)
        requires
            self.wf(),
        ensures
            found is None <==> self.places_none(texts(labels@)),
            found matches Some(i) ==> i == first_match(self.table(), texts(labels@)),
    {
        let mut i: usize = 0;
        while i < labels.len()
            invariant
                0 <= i <= labels.len(),
                self.wf(),
                forall|j: int| 0 <= j < i ==> !self.table().dom().contains(texts(labels@)[j]),
            decreases labels.len() - i,
        {
            if self.label_to_category.get(&labels[i]).is_some() {
                proof {
                    lemma_first_match_is(self.table(), texts(labels@), i as int);
                }
                return Some(i);
            }
            i += 1;
        }
        proof {
            lemma_first_match_is(self.table(), texts(labels@), i as int);
        }
        None
    }

    /// The category of an issue with `labels`: that of its first label that
    /// has one, else the default category.
    pub fn categorize(&self, labels: &Vec<String>) -> (category: String)
        requires
            self.wf(),
        ensures
            category@ == self.category(texts(labels@)),
    {
        proof {
            lemma_first_match(self.table(), texts(labels@));
        }
        let key = match self.matching_label(labels) {
            Some(i) => labels[i].clone(),
            None => String::from_str("*"),
        };
        match self.label_to_category.get(&key) {
            Some(category) => category.clone(),
            None => key,
        }
    }
}

} // verus!
