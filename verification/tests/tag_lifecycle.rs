use samey::error::SameyError;
use samey::lifecycle::{merge_links, plan_tag_edit, TagEdit, TagLink, TagRecord, TagStore};

fn names(items: &[&str]) -> Vec<String> {
    items.iter().map(|s| s.to_string()).collect()
}

fn link(post_id: i32, tag_id: i32) -> TagLink {
    TagLink { post_id, tag_id }
}

fn record(id: i32, name: &str) -> TagRecord {
    TagRecord { id, name: name.to_string(), normalized_name: name.to_lowercase() }
}

fn sorted_links(store: &TagStore) -> Vec<(i32, i32)> {
    let mut links: Vec<(i32, i32)> = store.links.iter().map(|l| (l.post_id, l.tag_id)).collect();
    links.sort();
    links
}

fn store_with(tags: &[&str]) -> TagStore {
    let mut store = TagStore::new();
    store.upsert_tags(&names(tags));
    store
}

#[test]
fn upsert_creates_missing_tags() {
    let mut store = TagStore::new();
    let resolved = store.upsert_tags(&names(&["Foo", "bar"]));
    assert_eq!(resolved, vec![record(1, "Foo"), record(2, "bar")]);
    assert_eq!(store.tags, resolved);
    assert_eq!(store.next_id, 3);
}

#[test]
fn upsert_existing_name_is_no_error_and_keeps_the_first_spelling() {
    let mut store = store_with(&["Foo"]);
    let resolved = store.upsert_tags(&names(&["FOO", "baz"]));
    assert_eq!(resolved, vec![record(1, "Foo"), record(2, "baz")]);
    assert_eq!(store.tags.len(), 2);
}

#[test]
fn upsert_same_name_twice_in_one_request() {
    let mut store = TagStore::new();
    let resolved = store.upsert_tags(&names(&["Cat", "cat"]));
    assert_eq!(resolved, vec![record(1, "Cat")]);
}

#[test]
fn upsert_resolves_only_what_was_asked() {
    let mut store = store_with(&["a", "b", "c"]);
    let resolved = store.upsert_tags(&names(&["c", "a"]));
    assert_eq!(resolved, vec![record(1, "a"), record(3, "c")]);
}

#[test]
fn upsert_of_nothing_changes_nothing() {
    let mut store = store_with(&["a"]);
    let before = store.clone();
    assert!(store.upsert_tags(&Vec::new()).is_empty());
    assert_eq!(store, before);
}

#[test]
fn upsert_normalized_takes_the_forms_it_is_given() {
    let mut store = TagStore::new();
    let resolved = store.upsert_normalized(&names(&["Foo"]), &names(&["key"]));
    assert_eq!(
        resolved,
        vec![TagRecord { id: 1, name: "Foo".to_string(), normalized_name: "key".to_string() }]
    );
}

#[test]
fn find_is_by_normalized_name() {
    let store = store_with(&["Foo", "Bar"]);
    assert_eq!(store.find(&"bar".to_string()), Some(1));
    assert_eq!(store.find(&"Bar".to_string()), None);
    assert_eq!(store.find(&"nope".to_string()), None);
}

#[test]
fn link_is_idempotent() {
    let mut store = store_with(&["a"]);
    store.link(7, 1);
    store.link(7, 1);
    assert_eq!(store.links, vec![link(7, 1)]);
    assert!(store.has_link(7, 1));
    assert!(!store.has_link(1, 7));
    assert!(store.tag_in_use(1));
    assert!(!store.tag_in_use(2));
}

#[test]
fn unlink_removes_one_association() {
    let mut store = store_with(&["a", "b"]);
    store.link(7, 1);
    store.link(7, 2);
    store.link(8, 1);
    store.unlink(7, 1);
    assert_eq!(sorted_links(&store), vec![(7, 2), (8, 1)]);
    store.unlink(7, 1);
    assert_eq!(sorted_links(&store), vec![(7, 2), (8, 1)]);
}

#[test]
fn rename_to_a_free_name_is_a_plain_rename() {
    let mut store = store_with(&["foo", "other"]);
    store.link(1, 1);
    let done = store.rename_or_merge_tag(&"foo".to_string(), "Bar");
    assert_eq!(done, Ok(()));
    assert_eq!(store.tags, vec![record(1, "Bar"), record(2, "other")]);
    assert_eq!(store.links, vec![link(1, 1)]);
}

#[test]
fn rename_to_an_existing_name_merges() {
    let mut store = store_with(&["foo", "bar", "third"]);
    // post 1: foo only; post 2: foo and bar; post 3: bar only; post 4: third and foo
    store.link(1, 1);
    store.link(2, 1);
    store.link(2, 2);
    store.link(3, 2);
    store.link(4, 3);
    store.link(4, 1);
    let done = store.rename_or_merge_tag(&"foo".to_string(), "BAR");
    assert_eq!(done, Ok(()));
    assert_eq!(store.tags, vec![record(2, "bar"), record(3, "third")]);
    assert!(!store.tag_in_use(1));
    assert_eq!(sorted_links(&store), vec![(1, 2), (2, 2), (3, 2), (4, 2), (4, 3)]);
}

#[test]
fn rename_of_an_unknown_tag_is_not_found() {
    let mut store = store_with(&["foo"]);
    let before = store.clone();
    assert_eq!(
        store.rename_or_merge_tag(&"nope".to_string(), "bar"),
        Err(SameyError::NotFound)
    );
    assert_eq!(store, before);
}

#[test]
fn rename_looks_the_old_name_up_as_given() {
    let mut store = store_with(&["Foo"]);
    assert_eq!(
        store.rename_or_merge_tag(&"Foo".to_string(), "bar"),
        Err(SameyError::NotFound)
    );
}

#[test]
fn rename_to_another_spelling_of_itself_is_a_plain_rename() {
    let mut store = store_with(&["foo", "bar"]);
    store.link(1, 1);
    store.link(1, 2);
    assert_eq!(store.rename_or_merge_tag(&"foo".to_string(), "Foo"), Ok(()));
    assert_eq!(store.tags, vec![record(1, "Foo"), record(2, "bar")]);
    assert_eq!(store.links, vec![link(1, 1), link(1, 2)]);
}

#[test]
fn rename_of_the_only_tag_to_another_case_keeps_it_on_its_post() {
    let mut store = store_with(&["foo"]);
    store.link(1, 1);
    assert_eq!(store.rename_or_merge_tag(&"foo".to_string(), "Foo"), Ok(()));
    assert_eq!(
        store.tags,
        vec![TagRecord { id: 1, name: "Foo".to_string(), normalized_name: "foo".to_string() }]
    );
    assert_eq!(store.links, vec![link(1, 1)]);
    assert!(store.has_link(1, 1));
}

#[test]
fn rename_or_merge_to_onto_its_own_normalized_form_renames() {
    let mut store = store_with(&["foo", "bar"]);
    store.link(3, 1);
    assert_eq!(
        store.rename_or_merge_to(&"foo".to_string(), "FOO", "foo".to_string()),
        Ok(())
    );
    assert_eq!(store.tags, vec![record(1, "FOO"), record(2, "bar")]);
    assert_eq!(store.links, vec![link(3, 1)]);
}

#[test]
fn rename_or_merge_to_uses_the_given_normalized_form() {
    let mut store = store_with(&["foo"]);
    assert_eq!(
        store.rename_or_merge_to(&"foo".to_string(), "Shown", "stored".to_string()),
        Ok(())
    );
    assert_eq!(
        store.tags,
        vec![TagRecord { id: 1, name: "Shown".to_string(), normalized_name: "stored".to_string() }]
    );
}

#[test]
fn merge_links_moves_and_drops() {
    let links = vec![link(1, 1), link(2, 1), link(2, 2), link(3, 3)];
    let mut merged = merge_links(&links, 1, 2);
    merged.sort_by_key(|l| (l.post_id, l.tag_id));
    assert_eq!(merged, vec![link(1, 2), link(2, 2), link(3, 3)]);
    assert_eq!(merge_links(&links, 9, 2), links);
    assert_eq!(merge_links(&links, 1, 1), links);
}

#[test]
fn collection_deletes_unused_tags_only() {
    let mut store = store_with(&["used", "unused", "also_used", "never"]);
    store.link(1, 1);
    store.link(2, 3);
    let removed = store.garbage_collect_tags();
    assert_eq!(removed, 2);
    assert_eq!(store.tags, vec![record(1, "used"), record(3, "also_used")]);
    assert_eq!(sorted_links(&store), vec![(1, 1), (2, 3)]);
    assert_eq!(store.garbage_collect_tags(), 0);
}

#[test]
fn collection_deletes_a_tag_once_its_last_association_is_gone() {
    let mut store = store_with(&["a"]);
    store.link(1, 1);
    store.link(2, 1);
    store.unlink(1, 1);
    assert_eq!(store.garbage_collect_tags(), 0);
    assert_eq!(store.tags.len(), 1);
    store.unlink(2, 1);
    assert_eq!(store.garbage_collect_tags(), 1);
    assert!(store.tags.is_empty());
}

#[test]
fn collected_identifiers_are_not_reused() {
    let mut store = store_with(&["a"]);
    store.garbage_collect_tags();
    let resolved = store.upsert_tags(&names(&["b"]));
    assert_eq!(resolved, vec![record(2, "b")]);
}

#[test]
fn set_post_tags_replaces_the_associations_of_one_post() {
    let mut store = store_with(&["a", "b"]);
    store.link(1, 1);
    store.link(1, 2);
    store.link(2, 1);
    let resolved = store.set_post_tags(1, &names(&["B", "c"]));
    assert_eq!(resolved, vec![record(2, "b"), record(3, "c")]);
    assert_eq!(sorted_links(&store), vec![(1, 2), (1, 3), (2, 1)]);
}

#[test]
fn set_post_tags_to_nothing_clears_the_post() {
    let mut store = store_with(&["a"]);
    store.link(1, 1);
    store.link(2, 1);
    assert!(store.set_post_tags(1, &Vec::new()).is_empty());
    assert_eq!(sorted_links(&store), vec![(2, 1)]);
}

#[test]
fn unlink_post_leaves_other_posts_alone() {
    let mut store = store_with(&["a", "b"]);
    store.link(1, 1);
    store.link(2, 1);
    store.link(1, 2);
    store.unlink_post(1);
    assert_eq!(store.links, vec![link(2, 1)]);
}

#[test]
fn resolve_lists_in_table_order() {
    let store = store_with(&["x", "y", "z"]);
    assert_eq!(store.resolve(&names(&["z", "x", "q"])), vec![record(1, "x"), record(3, "z")]);
}

#[test]
fn duplicate_copies_the_row() {
    let row = record(4, "Name");
    assert_eq!(row.duplicate(), row);
}

#[test]
fn plan_tag_edit_decides() {
    let old_tag = record(1, "foo");
    let other = record(2, "bar");
    assert_eq!(
        plan_tag_edit(None, Some(&other), "bar", "bar".to_string()),
        Err(SameyError::NotFound)
    );
    assert_eq!(plan_tag_edit(None, None, "bar", "bar".to_string()), Err(SameyError::NotFound));
    assert_eq!(
        plan_tag_edit(Some(&old_tag), Some(&other), "Bar", "bar".to_string()),
        Ok(TagEdit::Merge { from: 1, into: 2 })
    );
    assert_eq!(
        plan_tag_edit(Some(&old_tag), None, "Bar", "bar".to_string()),
        Ok(TagEdit::Rename { id: 1, name: "Bar".to_string(), normalized_name: "bar".to_string() })
    );
    assert_eq!(
        plan_tag_edit(Some(&old_tag), Some(&old_tag), "Foo", "foo".to_string()),
        Ok(TagEdit::Rename { id: 1, name: "Foo".to_string(), normalized_name: "foo".to_string() })
    );
}

#[test]
fn upsert_numbers_new_tags_in_the_order_of_the_requests() {
    let mut store = store_with(&["old"]);
    let resolved = store.upsert_tags(&names(&["zed", "OLD", "Abe", "ZED", "abe"]));
    assert_eq!(store.tags, vec![record(1, "old"), record(2, "zed"), record(3, "Abe")]);
    assert_eq!(resolved, store.tags);
    assert_eq!(store.next_id, 4);
}
