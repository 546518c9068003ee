use samey::auth::User;
use samey::predicate::{Predicate, TaggedPost};
use samey::query::{
    compile, filter_posts_by_user, restrict, search_posts, JoinKind, RowOrder, TagText,
};
use samey::search::{arrange, find_post, search, search_rows, sort_newest_first, OverviewRow};
use samey::tags::{parse_query, SearchFilter};
use samey::error::SameyError;
use samey::visibility::{
    can_edit, can_view, require_admin, require_edit, require_login, require_view, visibility_for,
    Visibility,
};

fn post(id: i32, owner: i32, is_public: bool, rating: &str, tags: &[&str]) -> TaggedPost {
    TaggedPost {
        id,
        uploader_id: owner,
        is_public,
        rating: rating.to_string(),
        tags: tags.iter().map(|t| t.to_string()).collect(),
        names: tags.iter().map(|t| t.to_uppercase()).collect(),
    }
}

fn user(id: i32, is_admin: bool) -> User {
    User { id, username: format!("user{}", id), is_admin }
}

fn names(items: &[&str]) -> Vec<String> {
    items.iter().map(|s| s.to_string()).collect()
}

fn gallery() -> Vec<TaggedPost> {
    vec![
        post(1, 10, true, "s", &[]),
        post(2, 10, true, "s", &["cat"]),
        post(3, 10, true, "q", &["cat", "dog"]),
        post(4, 10, true, "e", &["cat", "dog", "bird"]),
        post(5, 10, true, "u", &["cat", "dog", "bird", "fish"]),
        post(6, 10, true, "s", &["fish"]),
    ]
}

fn all_ids(posts: &Vec<TaggedPost>, query: &str, who: Option<&User>) -> Vec<i32> {
    search(posts, query, who, 1000, 1).0
}

#[test]
fn search_without_tags_lists_everything_even_untagged() {
    assert_eq!(all_ids(&gallery(), "", None), vec![6, 5, 4, 3, 2, 1]);
}

#[test]
fn search_one_included_tag() {
    assert_eq!(all_ids(&gallery(), "cat", None), vec![5, 4, 3, 2]);
}

#[test]
fn search_three_included_tags_needs_all_three() {
    assert_eq!(all_ids(&gallery(), "cat dog bird", None), vec![5, 4]);
}

#[test]
fn search_included_tag_that_nobody_has() {
    assert_eq!(all_ids(&gallery(), "cat unicorn", None), Vec::<i32>::new());
}

#[test]
fn search_repeated_tag_counts_once() {
    assert_eq!(all_ids(&gallery(), "cat CAT cat", None), vec![5, 4, 3, 2]);
}

#[test]
fn search_excluded_tag_disqualifies() {
    assert_eq!(all_ids(&gallery(), "-dog", None), vec![6, 2, 1]);
}

#[test]
fn search_excluded_tag_beats_included_tags() {
    assert_eq!(all_ids(&gallery(), "cat dog -bird", None), vec![3]);
    assert_eq!(all_ids(&gallery(), "cat -cat", None), Vec::<i32>::new());
}

#[test]
fn search_any_of_several_excluded_tags_disqualifies() {
    assert_eq!(all_ids(&gallery(), "-bird -fish", None), vec![3, 2, 1]);
}

#[test]
fn search_included_ratings() {
    assert_eq!(all_ids(&gallery(), "rating:s", None), vec![6, 2, 1]);
    assert_eq!(all_ids(&gallery(), "rating:s rating:q", None), vec![6, 3, 2, 1]);
}

#[test]
fn search_excluded_ratings() {
    assert_eq!(all_ids(&gallery(), "-rating:s", None), vec![5, 4, 3]);
}

#[test]
fn search_unknown_rating_matches_nothing() {
    assert_eq!(all_ids(&gallery(), "rating:zzz", None), Vec::<i32>::new());
    assert_eq!(all_ids(&gallery(), "-rating:zzz", None), vec![6, 5, 4, 3, 2, 1]);
}

#[test]
fn search_categories_compose_with_and() {
    assert_eq!(all_ids(&gallery(), "cat -bird rating:s rating:q -rating:q", None), vec![2]);
    assert_eq!(all_ids(&gallery(), "cat rating:e", None), vec![4]);
    assert_eq!(all_ids(&gallery(), "fish rating:s -cat", None), vec![6]);
}

#[test]
fn search_private_post_is_seen_by_owner_and_admin_only() {
    let posts = vec![post(1, 10, false, "s", &["cat"]), post(2, 11, true, "s", &["cat"])];
    let owner = user(10, false);
    let other = user(11, false);
    let admin = user(99, true);
    assert_eq!(all_ids(&posts, "cat", Some(&owner)), vec![2, 1]);
    assert_eq!(all_ids(&posts, "cat", Some(&admin)), vec![2, 1]);
    assert_eq!(all_ids(&posts, "cat", Some(&other)), vec![2]);
    assert_eq!(all_ids(&posts, "cat", None), vec![2]);
}

#[test]
fn search_orders_newest_first_whatever_the_input_order() {
    let posts = vec![
        post(3, 1, true, "s", &["a"]),
        post(9, 1, true, "s", &["a"]),
        post(1, 1, true, "s", &["a"]),
        post(7, 1, true, "s", &["a"]),
    ];
    assert_eq!(all_ids(&posts, "a", None), vec![9, 7, 3, 1]);
}

#[test]
fn search_pages_fifty_one_rows() {
    let posts: Vec<TaggedPost> = (1..=51).map(|id| post(id, 1, true, "s", &["a"])).collect();
    let (first, pages) = search(&posts, "a", None, 50, 1);
    assert_eq!(pages, 2);
    assert_eq!(first.len(), 50);
    assert_eq!(first[0], 51);
    assert_eq!(first[49], 2);
    let (zero, pages_zero) = search(&posts, "a", None, 50, 0);
    assert_eq!(zero, first);
    assert_eq!(pages_zero, 2);
    let (second, _) = search(&posts, "a", None, 50, 2);
    assert_eq!(second, vec![1]);
    let (third, _) = search(&posts, "a", None, 50, 3);
    assert!(third.is_empty());
}

#[test]
fn search_of_nothing_has_no_pages() {
    let (page, pages) = search(&Vec::new(), "a", None, 50, 1);
    assert!(page.is_empty());
    assert_eq!(pages, 0);
}

#[test]
fn sort_newest_first_keeps_duplicates() {
    assert_eq!(sort_newest_first(&vec![2, 5, 2, -1, 9]), vec![9, 5, 2, 2, -1]);
    assert_eq!(sort_newest_first(&vec![]), Vec::<i32>::new());
}

#[test]
fn compile_empty_filter_for_admin_restricts_nothing() {
    let plan = compile(SearchFilter::new(), Visibility::Unrestricted);
    assert_eq!(plan.predicate, Predicate::Always);
    assert_eq!(plan.join, JoinKind::Outer);
}

#[test]
fn compile_anonymous_sees_public_only() {
    let plan = compile(SearchFilter::new(), Visibility::PublicOnly);
    assert_eq!(plan.predicate, Predicate::IsPublic);
}

#[test]
fn compile_builds_the_conjunction_in_order() {
    let filter = SearchFilter {
        include_tags: names(&["a", "b"]),
        exclude_tags: names(&["c"]),
        include_ratings: names(&["s"]),
        exclude_ratings: names(&["e"]),
    };
    let plan = compile(filter, Visibility::PublicOrOwnedBy(7));
    let expected = Predicate::And(
        Box::new(Predicate::And(
            Box::new(Predicate::And(
                Box::new(Predicate::And(
                    Box::new(Predicate::TagCountIs(names(&["a", "b"]), 2)),
                    Box::new(Predicate::Not(Box::new(Predicate::TaggedWithAny(names(&["c"]))))),
                )),
                Box::new(Predicate::RatingIn(names(&["s"]))),
            )),
            Box::new(Predicate::Not(Box::new(Predicate::RatingIn(names(&["e"]))))),
        )),
        Box::new(Predicate::Or(Box::new(Predicate::IsPublic), Box::new(Predicate::OwnedBy(7)))),
    );
    assert_eq!(plan.predicate, expected);
    assert_eq!(plan.join, JoinKind::Inner);
}

#[test]
fn compile_joins_outer_when_only_excluding() {
    let plan = compile(parse_query("-dog"), Visibility::Unrestricted);
    assert_eq!(plan.join, JoinKind::Outer);
    assert_eq!(
        plan.predicate,
        Predicate::Not(Box::new(Predicate::TaggedWithAny(names(&["dog"]))))
    );
}

#[test]
fn search_posts_without_tokens_is_the_visibility_alone() {
    let me = user(3, false);
    let plan = search_posts(None, Some(&me));
    assert_eq!(
        plan.predicate,
        Predicate::Or(Box::new(Predicate::IsPublic), Box::new(Predicate::OwnedBy(3)))
    );
    assert_eq!(plan.join, JoinKind::Outer);
}

#[test]
fn search_posts_normalizes_its_tokens() {
    let plan = search_posts(Some(&names(&["CAT"])), Some(&user(1, true)));
    assert_eq!(plan.predicate, Predicate::TagCountIs(names(&["cat"]), 1));
    assert_eq!(plan.join, JoinKind::Inner);
}

#[test]
fn filter_posts_by_user_adds_the_restriction() {
    let seen = filter_posts_by_user(Predicate::OwnedBy(4), None);
    assert_eq!(
        seen,
        Predicate::And(Box::new(Predicate::OwnedBy(4)), Box::new(Predicate::IsPublic))
    );
    let admin = user(1, true);
    assert_eq!(filter_posts_by_user(Predicate::OwnedBy(4), Some(&admin)), Predicate::OwnedBy(4));
    assert_eq!(restrict(Predicate::Always, Visibility::PublicOnly), Predicate::IsPublic);
}

#[test]
fn eval_counts_matching_tags() {
    let item = post(1, 1, true, "s", &["a", "b", "c"]);
    assert!(Predicate::TagCountIs(names(&["a", "c"]), 2).eval(&item));
    assert!(!Predicate::TagCountIs(names(&["a", "z"]), 2).eval(&item));
    assert!(Predicate::TagCountIs(names(&["a", "z"]), 1).eval(&item));
    assert!(Predicate::TaggedWithAny(names(&["z", "b"])).eval(&item));
    assert!(!Predicate::TaggedWithAny(names(&["z"])).eval(&item));
    assert!(!Predicate::TaggedWithAny(names(&[])).eval(&item));
    assert!(Predicate::RatingIn(names(&["q", "s"])).eval(&item));
    assert!(!Predicate::RatingIn(names(&[])).eval(&item));
    assert!(Predicate::Always.eval(&item));
    assert!(Predicate::IsPublic.eval(&item));
    assert!(Predicate::OwnedBy(1).eval(&item));
    assert!(!Predicate::OwnedBy(2).eval(&item));
    assert!(!Predicate::Not(Box::new(Predicate::Always)).eval(&item));
    assert!(Predicate::Or(Box::new(Predicate::OwnedBy(2)), Box::new(Predicate::IsPublic))
        .eval(&item));
    assert!(!Predicate::And(Box::new(Predicate::OwnedBy(2)), Box::new(Predicate::IsPublic))
        .eval(&item));
}

#[test]
fn visibility_for_each_kind_of_identity() {
    assert_eq!(visibility_for(None), Visibility::PublicOnly);
    assert_eq!(visibility_for(Some(&user(1, true))), Visibility::Unrestricted);
    assert_eq!(visibility_for(Some(&user(5, false))), Visibility::PublicOrOwnedBy(5));
}

#[test]
fn visibility_allows() {
    assert!(Visibility::PublicOnly.allows(true, 1));
    assert!(!Visibility::PublicOnly.allows(false, 1));
    assert!(Visibility::Unrestricted.allows(false, 1));
    assert!(Visibility::PublicOrOwnedBy(1).allows(false, 1));
    assert!(!Visibility::PublicOrOwnedBy(2).allows(false, 1));
    assert!(Visibility::PublicOrOwnedBy(2).allows(true, 1));
}

#[test]
fn editing_is_for_owner_and_admin() {
    assert!(!can_edit(None, 1));
    assert!(can_edit(Some(&user(1, false)), 1));
    assert!(!can_edit(Some(&user(2, false)), 1));
    assert!(can_edit(Some(&user(2, true)), 1));
    assert!(can_view(None, true, 1));
    assert!(!can_view(None, false, 1));
    assert!(can_view(Some(&user(1, false)), false, 1));
    assert!(!can_view(Some(&user(2, false)), false, 1));
    assert!(can_view(Some(&user(2, true)), false, 1));
}

#[test]
fn requirements_refuse_with_the_right_error() {
    let owner = user(1, false);
    let other = user(2, false);
    let admin = user(3, true);
    assert_eq!(require_edit(Some(&owner), 1), Ok(()));
    assert_eq!(require_edit(Some(&admin), 1), Ok(()));
    assert_eq!(require_edit(Some(&other), 1), Err(SameyError::Forbidden));
    assert_eq!(require_edit(None, 1), Err(SameyError::Forbidden));
    assert_eq!(require_view(None, true, 1), Ok(()));
    assert_eq!(require_view(Some(&owner), false, 1), Ok(()));
    assert_eq!(require_view(Some(&other), false, 1), Err(SameyError::NotFound));
    assert_eq!(require_view(None, false, 1), Err(SameyError::NotFound));
    assert_eq!(require_admin(Some(&admin)), Ok(()));
    assert_eq!(require_admin(Some(&owner)), Err(SameyError::Forbidden));
    assert_eq!(require_admin(None), Err(SameyError::Forbidden));
    assert_eq!(require_login(Some(&owner)), Ok(&owner));
    assert_eq!(require_login(None), Err(SameyError::Forbidden));
}

fn row(id: i32, tags: Option<&str>) -> OverviewRow {
    OverviewRow { id, tags: tags.map(|t| t.to_string()) }
}

#[test]
fn plans_yield_rows_newest_first_with_all_tags() {
    let plan = compile(parse_query("cat -dog rating:s"), Visibility::PublicOnly);
    assert_eq!(plan.order, RowOrder::NewestFirst);
    assert_eq!(plan.tag_text, TagText::AllTags);
    let plain = search_posts(None, None);
    assert_eq!(plain.order, RowOrder::NewestFirst);
    assert_eq!(plain.tag_text, TagText::AllTags);
}

#[test]
fn rows_hold_all_tags_of_the_post_not_only_the_matched() {
    let (rows, pages) = search_rows(&gallery(), "cat -fish", None, 50, 1);
    assert_eq!(
        rows,
        vec![row(4, Some("CAT DOG BIRD")), row(3, Some("CAT DOG")), row(2, Some("CAT"))]
    );
    assert_eq!(pages, 1);
}

#[test]
fn rows_of_untagged_posts_have_no_tag_text() {
    let (rows, _) = search_rows(&gallery(), "rating:s", None, 50, 1);
    assert_eq!(rows, vec![row(6, Some("FISH")), row(2, Some("CAT")), row(1, None)]);
}

#[test]
fn rows_come_strictly_newest_first_and_by_page() {
    let posts = vec![
        post(3, 1, true, "s", &["a"]),
        post(9, 1, true, "s", &["a", "b"]),
        post(1, 1, true, "s", &["a"]),
        post(7, 1, true, "s", &[]),
    ];
    let (first, pages) = search_rows(&posts, "", None, 3, 1);
    assert_eq!(first, vec![row(9, Some("A B")), row(7, None), row(3, Some("A"))]);
    assert_eq!(pages, 2);
    let (second, _) = search_rows(&posts, "", None, 3, 2);
    assert_eq!(second, vec![row(1, Some("A"))]);
    let (zero, _) = search_rows(&posts, "", None, 3, 0);
    assert_eq!(zero, first);
    let ids: Vec<i32> = first.iter().chain(second.iter()).map(|r| r.id).collect();
    assert!(ids.windows(2).all(|pair| pair[0] > pair[1]));
}

#[test]
fn rows_respect_visibility() {
    let posts = vec![post(1, 10, false, "s", &["cat"]), post(2, 11, true, "s", &["cat"])];
    let owner = user(10, false);
    assert_eq!(
        search_rows(&posts, "cat", Some(&owner), 10, 1).0,
        vec![row(2, Some("CAT")), row(1, Some("CAT"))]
    );
    assert_eq!(search_rows(&posts, "cat", None, 10, 1).0, vec![row(2, Some("CAT"))]);
}

#[test]
fn tag_text_joins_all_names() {
    assert_eq!(TagText::AllTags.text_of(&names(&[])), None);
    assert_eq!(TagText::AllTags.text_of(&names(&["One"])), Some("One".to_string()));
    assert_eq!(TagText::AllTags.text_of(&names(&["b", "A", "c"])), Some("b A c".to_string()));
}

#[test]
fn arrange_and_find() {
    assert_eq!(arrange(RowOrder::NewestFirst, &vec![1, 3, 2]), vec![3, 2, 1]);
    let posts = gallery();
    assert_eq!(find_post(&posts, 4), Some(3));
    assert_eq!(find_post(&posts, 1), Some(0));
    assert_eq!(find_post(&posts, 40), None);
}
