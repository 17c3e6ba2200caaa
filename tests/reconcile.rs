use std::collections::{BTreeMap, BTreeSet};

use pinrs::tags::{resolve_found, Reconciler, Resolution, Stage, TagAction, TagEvent};

/// A store that does what it is asked: tags by id, and links.
#[derive(Default)]
struct Store {
    names: BTreeMap<i64, String>,
    links: BTreeSet<(i64, i64)>,
    next_id: i64,
    fail_inserts: bool,
}

impl Store {
    fn answer(&mut self, action: &TagAction) -> TagEvent {
        match action {
            TagAction::LoadLinks { post_id } => TagEvent::Ids(
                self.links.iter().filter(|l| l.0 == *post_id).map(|l| l.1).collect(),
            ),
            TagAction::FindTag { name } => TagEvent::Ids(
                self.names.iter().filter(|(_, n)| *n == name).map(|(id, _)| *id).collect(),
            ),
            TagAction::InsertTag { name } => {
                if self.fail_inserts {
                    return TagEvent::Failed;
                }
                self.next_id += 1;
                self.names.insert(self.next_id, name.clone());
                TagEvent::Inserted(self.next_id)
            }
            TagAction::Link { post_id, tag_id } => {
                self.links.insert((*post_id, *tag_id));
                TagEvent::Written
            }
            TagAction::Unlink { post_id, tag_id } => {
                self.links.remove(&(*post_id, *tag_id));
                TagEvent::Written
            }
            TagAction::CheckLinked { tag_id } => {
                TagEvent::Linked(self.links.iter().any(|l| l.1 == *tag_id))
            }
            TagAction::DeleteTag { tag_id } => {
                self.names.remove(tag_id);
                self.links.retain(|l| l.1 != *tag_id);
                TagEvent::Written
            }
            TagAction::Done => TagEvent::Written,
        }
    }

    fn run(&mut self, start: (Reconciler, TagAction)) -> Vec<TagAction> {
        let (mut m, mut action) = start;
        let mut seen = vec![];
        while action != TagAction::Done {
            let event = self.answer(&action);
            seen.push(action);
            action = m.step(event);
        }
        assert_eq!(m.stage, Stage::Finished);
        seen
    }

    fn tags_of(&self, post_id: i64) -> BTreeSet<String> {
        self.links
            .iter()
            .filter(|l| l.0 == post_id)
            .map(|l| self.names[&l.1].clone())
            .collect()
    }

    fn all_tags(&self) -> BTreeSet<String> {
        self.names.values().cloned().collect()
    }
}

fn names(v: &[&str]) -> Vec<String> {
    v.iter().map(|s| s.to_string()).collect()
}

fn set(v: &[&str]) -> BTreeSet<String> {
    v.iter().map(|s| s.to_string()).collect()
}

#[test]
fn registry_resolution() {
    assert_eq!(resolve_found(&vec![]), Resolution::Create);
    assert_eq!(resolve_found(&vec![4]), Resolution::Existing(4));
    assert_eq!(resolve_found(&vec![4, 5]), Resolution::Anomaly);
}

#[test]
fn new_bookmark_gets_exactly_its_tags() {
    let mut store = Store::default();
    store.run(Reconciler::start_new(1, names(&["A", "B"])));
    assert_eq!(store.tags_of(1), set(&["A", "B"]));
    assert_eq!(store.all_tags(), set(&["A", "B"]));
}

#[test]
fn new_bookmark_starts_with_a_lookup() {
    let (_, first) = Reconciler::start_new(1, names(&["A"]));
    assert_eq!(first, TagAction::FindTag { name: "A".to_string() });
    let (_, first) = Reconciler::start_new(1, names(&[]));
    assert_eq!(first, TagAction::Done);
    let (_, first) = Reconciler::start(1, names(&["A"]));
    assert_eq!(first, TagAction::LoadLinks { post_id: 1 });
}

#[test]
fn repeated_names_are_linked_once() {
    let mut store = Store::default();
    let seen = store.run(Reconciler::start_new(1, names(&["A", "A", "B"])));
    let links = seen.iter().filter(|a| matches!(a, TagAction::Link { .. })).count();
    assert_eq!(links, 2);
    assert_eq!(store.tags_of(1), set(&["A", "B"]));
}

#[test]
fn orphaned_tag_is_collected() {
    let mut store = Store::default();
    store.run(Reconciler::start_new(1, names(&["A"])));
    store.run(Reconciler::start(1, names(&["B"])));
    assert_eq!(store.tags_of(1), set(&["B"]));
    assert!(!store.all_tags().contains("A"));
    assert!(store.all_tags().contains("B"));
}

#[test]
fn shared_tag_survives() {
    let mut store = Store::default();
    store.run(Reconciler::start_new(1, names(&["A"])));
    store.run(Reconciler::start_new(2, names(&["A"])));
    store.run(Reconciler::start(1, names(&[])));
    assert!(store.tags_of(1).is_empty());
    assert_eq!(store.tags_of(2), set(&["A"]));
    assert!(store.all_tags().contains("A"));
}

#[test]
fn kept_tags_are_left_alone() {
    let mut store = Store::default();
    store.run(Reconciler::start_new(1, names(&["x", "y"])));
    let seen = store.run(Reconciler::start(1, names(&["y", "z"])));
    assert_eq!(store.tags_of(1), set(&["y", "z"]));
    assert_eq!(store.all_tags(), set(&["y", "z"]));
    let y = *store.names.iter().find(|(_, n)| *n == "y").unwrap().0;
    assert!(!seen.iter().any(|a| matches!(a, TagAction::Link { tag_id, .. } if *tag_id == y)));
    assert!(!seen.iter().any(|a| matches!(a, TagAction::Unlink { tag_id, .. } if *tag_id == y)));
}

#[test]
fn failed_insert_looks_the_name_up_again() {
    let mut store = Store { fail_inserts: true, ..Store::default() };
    let seen = store.run(Reconciler::start_new(1, names(&["A", "B"])));
    let finds = seen.iter().filter(|a| matches!(a, TagAction::FindTag { .. })).count();
    assert_eq!(finds, 4);
    assert!(store.tags_of(1).is_empty());
}

#[test]
fn failed_load_links_the_names_anyway() {
    let (mut m, a) = Reconciler::start(3, names(&["A"]));
    assert_eq!(a, TagAction::LoadLinks { post_id: 3 });
    assert_eq!(m.step(TagEvent::Failed), TagAction::FindTag { name: "A".to_string() });
    assert_eq!(m.step(TagEvent::Ids(vec![9])), TagAction::Link { post_id: 3, tag_id: 9 });
    assert_eq!(m.step(TagEvent::Failed), TagAction::Done);
}

#[test]
fn tag_still_linked_elsewhere_is_not_deleted() {
    let (mut m, _) = Reconciler::start(3, names(&[]));
    assert_eq!(m.step(TagEvent::Ids(vec![9])), TagAction::Unlink { post_id: 3, tag_id: 9 });
    assert_eq!(m.step(TagEvent::Written), TagAction::CheckLinked { tag_id: 9 });
    assert_eq!(m.step(TagEvent::Linked(true)), TagAction::Done);
    let (mut m, _) = Reconciler::start(3, names(&[]));
    m.step(TagEvent::Ids(vec![9]));
    m.step(TagEvent::Written);
    assert_eq!(m.step(TagEvent::Linked(false)), TagAction::DeleteTag { tag_id: 9 });
    assert_eq!(m.step(TagEvent::Written), TagAction::Done);
}

#[test]
fn ambiguous_name_is_skipped() {
    let (mut m, _) = Reconciler::start_new(3, names(&["A", "B"]));
    assert_eq!(m.step(TagEvent::Ids(vec![1, 2])), TagAction::FindTag { name: "B".to_string() });
}

#[test]
fn failing_store_still_finishes() {
    let (mut m, mut action) = Reconciler::start(1, names(&["A", "B", "C"]));
    let mut requests = 0;
    while action != TagAction::Done {
        requests += 1;
        assert!(requests <= 1 + 4 * 3, "too many requests");
        action = m.step(TagEvent::Failed);
    }
    assert_eq!(requests, 4);
    assert_eq!(m.stage, Stage::Finished);
    assert_eq!(m.step(TagEvent::Failed), TagAction::Done);
}
