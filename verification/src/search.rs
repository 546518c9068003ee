//! Search over a snapshot of posts: the compiled plan is run on every post, and the
//! matches come back newest first, one page at a time.

use crate::auth::User;
use crate::pagination::{page_count, page_end, page_index_of, page_of, page_start, total_pages};
use crate::predicate::{PostFacts, Predicate, TaggedPost};
use crate::query::{
    accepts, compile, lemma_plan_selects_matches, plan_condition, RowOrder, TagText,
};
use crate::tags::{landed, normalized, parse_query, SearchFilter, TokenKind};
use crate::text::{views, words};
use crate::visibility::{visibility_for, visibility_of, Visibility};
use vstd::prelude::*;

verus! {

/// Whether a query with these normalized tokens selects a post: the post carries
/// every included tag and no excluded tag, has one of the included ratings where
/// any is named, has none of the excluded ratings, and may be seen.
pub open spec fn selected(tokens: Seq<Seq<char>>, visibility: Visibility, post: PostFacts) -> bool {
    &&& landed(tokens, TokenKind::IncludeTag).subset_of(post.tags)
    &&& landed(tokens, TokenKind::ExcludeTag).disjoint(post.tags)
    &&& (landed(tokens, TokenKind::IncludeRating) =~= Set::<Seq<char>>::empty() || landed(
        tokens,
        TokenKind::IncludeRating,
    ).contains(post.rating))
    &&& !landed(tokens, TokenKind::ExcludeRating).contains(post.rating)
    &&& visibility.admits(post.is_public, post.owner)
}

/// The identifiers of the posts that a query selects, in the order of the posts.
pub open spec fn selected_ids(
    posts: Seq<TaggedPost>,
    tokens: Seq<Seq<char>>,
    visibility: Visibility,
) -> Seq<i32>
    decreases posts.len(),
{
    if posts.len() == 0 {
        Seq::empty()
    } else if selected(tokens, visibility, posts.last()@) {
        selected_ids(posts.drop_last(), tokens, visibility).push(posts.last().id)
    } else {
        selected_ids(posts.drop_last(), tokens, visibility)
    }
}

/// Where `id` goes in a sequence that runs from newest to oldest: behind the last
/// identifier that is not older than it.
pub open spec fn place_of(ids: Seq<i32>, id: i32) -> int
    decreases ids.len(),
{
    if ids.len() == 0 {
        0
    } else if ids.last() >= id {
        ids.len() as int
    } else {
        place_of(ids.drop_last(), id)
    }
}

/// The identifiers from newest to oldest, that is, in descending order.
pub open spec fn newest_first(ids: Seq<i32>) -> Seq<i32>
    decreases ids.len(),
{
    if ids.len() == 0 {
        Seq::empty()
    } else {
        let rest = newest_first(ids.drop_last());
        rest.insert(place_of(rest, ids.last()), ids.last())
    }
}

/// No identifier is followed by a newer one.
pub open spec fn descending(ids: Seq<i32>) -> bool {
    forall|i: int, j: int| 0 <= i < j < ids.len() ==> ids[i] >= ids[j]
}

/// The place of an identifier is behind everything that is not older, and before
/// everything that is.
pub proof fn lemma_place_of(ids: Seq<i32>, id: i32)
    ensures
        0 <= place_of(ids, id) <= ids.len(),
        place_of(ids, id) > 0 ==> ids[place_of(ids, id) - 1] >= id,
        forall|k: int| place_of(ids, id) <= k < ids.len() ==> ids[k] < id,
    decreases ids.len(),
{
    if ids.len() > 0 && ids.last() < id {
        let init = ids.drop_last();
        lemma_place_of(init, id);
        assert forall|k: int| place_of(ids, id) <= k < ids.len() implies ids[k] < id by {
            if k < init.len() {
                assert(init[k] == ids[k]);
            }
        }
        if place_of(ids, id) > 0 {
            assert(init[place_of(ids, id) - 1] == ids[place_of(ids, id) - 1]);
        }
    }
}

/// A place with nothing older before it and nothing as new behind it is the place.
pub proof fn lemma_place_is_unique(ids: Seq<i32>, id: i32, place: int)
    requires
        0 <= place <= ids.len(),
        place > 0 ==> ids[place - 1] >= id,
        forall|k: int| place <= k < ids.len() ==> ids[k] < id,
    ensures
        place_of(ids, id) == place,
    decreases ids.len(),
{
    if ids.len() > 0 && ids.last() < id {
        let init = ids.drop_last();
        assert(place < ids.len());
        assert forall|k: int| place <= k < init.len() implies init[k] < id by {
            assert(init[k] == ids[k]);
        }
        if place > 0 {
            assert(init[place - 1] == ids[place - 1]);
        }
        lemma_place_is_unique(init, id, place);
    } else if ids.len() > 0 {
        if place < ids.len() {
            assert(ids[ids.len() - 1] < id);
        }
    }
}

/// Putting identifiers newest first orders them and neither loses nor adds one.
pub proof fn lemma_newest_first(ids: Seq<i32>)
    ensures
        descending(newest_first(ids)),
        newest_first(ids).to_multiset() == ids.to_multiset(),
        newest_first(ids).len() == ids.len(),
    decreases ids.len(),
{
    if ids.len() == 0 {
        assert(ids =~= Seq::<i32>::empty());
    } else {
        let init = ids.drop_last();
        let last = ids.last();
        let rest = newest_first(init);
        let place = place_of(rest, last);
        let all = rest.insert(place, last);
        lemma_newest_first(init);
        lemma_place_of(rest, last);
        vstd::seq_lib::to_multiset_insert(rest, place, last);
        vstd::seq_lib::to_multiset_build(init, last);
        assert(init.push(last) == ids);
        assert forall|i: int, j: int| 0 <= i < j < all.len() implies all[i] >= all[j] by {
            if j < place {
                assert(all[i] == rest[i] && all[j] == rest[j]);
            } else if j == place {
                assert(all[i] == rest[i]);
                assert(rest[i] >= rest[place - 1]);
            } else if i < place {
                assert(all[i] == rest[i] && all[j] == rest[j - 1]);
            } else if i == place {
                assert(all[j] == rest[j - 1]);
            } else {
                assert(all[i] == rest[i - 1] && all[j] == rest[j - 1]);
            }
        }
    }
}

/// Whether some post with this identifier is selected.
pub open spec fn selects(
    posts: Seq<TaggedPost>,
    tokens: Seq<Seq<char>>,
    visibility: Visibility,
    id: i32,
) -> bool {
    exists|i: int|
        0 <= i < posts.len() && (#[trigger] posts[i]).id == id && selected(
            tokens,
            visibility,
            posts[i]@,
        )
}

/// A search lists a post if and only if the query selects it: every included tag
/// is on the post, no excluded tag is, the rating is among the included ones where
/// there are any and not among the excluded ones, and the identity may see it.
/// Putting the matches newest first neither drops nor invents one.
pub proof fn lemma_search_lists_the_selected(
    posts: Seq<TaggedPost>,
    tokens: Seq<Seq<char>>,
    visibility: Visibility,
    id: i32,
)
    ensures
        newest_first(selected_ids(posts, tokens, visibility)).contains(id) <==> selects(
            posts,
            tokens,
            visibility,
            id,
        ),
    decreases posts.len(),
{
    let ids = selected_ids(posts, tokens, visibility);
    lemma_newest_first(ids);
    vstd::seq_lib::to_multiset_contains(ids, id);
    vstd::seq_lib::to_multiset_contains(newest_first(ids), id);
    assert(newest_first(ids).contains(id) <==> ids.contains(id));
    if posts.len() == 0 {
    } else {
        let init = posts.drop_last();
        let last = posts.last();
        let init_ids = selected_ids(init, tokens, visibility);
        lemma_search_lists_the_selected(init, tokens, visibility, id);
        lemma_newest_first(init_ids);
        vstd::seq_lib::to_multiset_contains(init_ids, id);
        vstd::seq_lib::to_multiset_contains(newest_first(init_ids), id);
        if ids.contains(id) {
            let k = choose|k: int| 0 <= k < ids.len() && ids[k] == id;
            if k < init_ids.len() {
                assert(init_ids[k] == id);
                assert(init_ids.contains(id));
                let i = choose|i: int|
                    0 <= i < init.len() && (#[trigger] init[i]).id == id && selected(
                        tokens,
                        visibility,
                        init[i]@,
                    );
                assert(posts[i] == init[i]);
            } else {
                assert(posts[posts.len() - 1].id == id);
            }
        }
        if selects(posts, tokens, visibility, id) {
            let i = choose|i: int|
                0 <= i < posts.len() && (#[trigger] posts[i]).id == id && selected(
                    tokens,
                    visibility,
                    posts[i]@,
                );
            if i < init.len() {
                assert(init[i] == posts[i]);
                assert(selects(init, tokens, visibility, id));
                let k = choose|k: int| 0 <= k < init_ids.len() && init_ids[k] == id;
                assert(ids[k] == id);
            } else {
                assert(ids[ids.len() - 1] == id);
            }
        }
    }
}

/// The first page is the same under the page numbers zero and one.
pub proof fn lemma_first_page_twice(rows: nat, page_size: nat)
    ensures
        page_start(rows, page_size, page_index_of(0)) == page_start(
            rows,
            page_size,
            page_index_of(1),
        ),
        page_end(rows, page_size, page_index_of(0)) == page_end(rows, page_size, page_index_of(1)),
{
}

/// Orders identifiers from newest to oldest.
pub fn sort_newest_first(ids: &Vec<i32>) -> (sorted: Vec<i32>)
    ensures
        sorted@ == newest_first(ids@),
{
    let mut sorted: Vec<i32> = Vec::new();
    let mut i: usize = 0;
    assert(ids@.take(0) == Seq::<i32>::empty());
    while i < ids.len()
        invariant
            i <= ids.len(),
            sorted@ == newest_first(ids@.take(i as int)),
            sorted.len() == i,
        decreases ids.len() - i,
    {
        let id = ids[i];
        let mut place: usize = sorted.len();
        while place > 0 && sorted[place - 1] < id
            invariant
                place <= sorted.len(),
                forall|k: int| place <= k < sorted.len() ==> sorted@[k] < id,
            decreases place,
        {
            place -= 1;
        }
        proof {
            lemma_place_is_unique(sorted@, id, place as int);
            assert(ids@.take(i + 1).drop_last() == ids@.take(i as int));
            assert(ids@.take(i + 1).last() == id);
        }
        sorted.insert(place, id);
        i += 1;
    }
    assert(ids@.take(ids.len() as int) == ids@);
    sorted
}

/// What a filter asks, stated over its members, is what the query asks, stated
/// over its tokens.
pub proof fn lemma_matches_is_selected(
    filter: &SearchFilter,
    tokens: Seq<Seq<char>>,
    visibility: Visibility,
    post: PostFacts,
)
    requires
        forall|kind: TokenKind| #[trigger] filter.names(kind).to_set() == landed(tokens, kind),
    ensures
        accepts(filter, visibility, post) == selected(tokens, visibility, post),
{
    let include_tags = filter.names(TokenKind::IncludeTag);
    let exclude_tags = filter.names(TokenKind::ExcludeTag);
    let include_ratings = filter.names(TokenKind::IncludeRating);
    let exclude_ratings = filter.names(TokenKind::ExcludeRating);
    assert(include_tags.to_set() == landed(tokens, TokenKind::IncludeTag));
    assert(exclude_tags.to_set() == landed(tokens, TokenKind::ExcludeTag));
    assert(include_ratings.to_set() == landed(tokens, TokenKind::IncludeRating));
    assert(exclude_ratings.to_set() == landed(tokens, TokenKind::ExcludeRating));
    assert((forall|i: int|
        0 <= i < include_tags.len() ==> post.tags.contains(#[trigger] include_tags[i]))
        == include_tags.to_set().subset_of(post.tags)) by {
        if include_tags.to_set().subset_of(post.tags) {
            assert forall|i: int| 0 <= i < include_tags.len() implies post.tags.contains(
                #[trigger] include_tags[i],
            ) by {
                assert(include_tags.to_set().contains(include_tags[i]));
            }
        }
        if forall|i: int|
            0 <= i < include_tags.len() ==> post.tags.contains(#[trigger] include_tags[i]) {
            assert forall|name: Seq<char>|
                include_tags.to_set().contains(name) implies post.tags.contains(name) by {
                let i = choose|i: int| 0 <= i < include_tags.len() && include_tags[i] == name;
                assert(post.tags.contains(include_tags[i]));
            }
        }
    }
    assert((forall|i: int|
        0 <= i < exclude_tags.len() ==> !post.tags.contains(#[trigger] exclude_tags[i]))
        == exclude_tags.to_set().disjoint(post.tags)) by {
        if exclude_tags.to_set().disjoint(post.tags) {
            assert forall|i: int| 0 <= i < exclude_tags.len() implies !post.tags.contains(
                #[trigger] exclude_tags[i],
            ) by {
                assert(exclude_tags.to_set().contains(exclude_tags[i]));
            }
        }
        if forall|i: int|
            0 <= i < exclude_tags.len() ==> !post.tags.contains(#[trigger] exclude_tags[i]) {
            assert forall|name: Seq<char>|
                !(exclude_tags.to_set().contains(name) && post.tags.contains(name)) by {
                if exclude_tags.contains(name) {
                    let i = choose|i: int| 0 <= i < exclude_tags.len() && exclude_tags[i] == name;
                    assert(!post.tags.contains(exclude_tags[i]));
                }
            }
        }
    }
    assert((include_ratings.len() > 0) == !(include_ratings.to_set() =~= Set::<
        Seq<char>,
    >::empty())) by {
        if include_ratings.len() > 0 {
            assert(include_ratings.to_set().contains(include_ratings[0]));
        }
    }
}

// The identifiers of the posts that meet the compiled predicate, in the order of the posts.
fn matching_ids(
    posts: &Vec<TaggedPost>,
    predicate: &Predicate,
    Ghost(filter): Ghost<&SearchFilter>,
    Ghost(tokens): Ghost<Seq<Seq<char>>>,
    Ghost(visibility): Ghost<Visibility>,
) -> (ids: Vec<i32>)
    requires
        forall|i: int| 0 <= i < posts.len() ==> (#[trigger] posts[i]).wf(),
        filter.wf(),
        forall|kind: TokenKind| #[trigger] filter.names(kind).to_set() == landed(tokens, kind),
        predicate@ == plan_condition(filter, visibility),
    ensures
        ids@ == selected_ids(posts@, tokens, visibility),
{
    let mut ids: Vec<i32> = Vec::new();
    let mut i: usize = 0;
    assert(posts@.take(0) == Seq::<TaggedPost>::empty());
    while i < posts.len()
        invariant
            i <= posts.len(),
            forall|k: int| 0 <= k < posts.len() ==> (#[trigger] posts[k]).wf(),
            filter.wf(),
            forall|kind: TokenKind| #[trigger] filter.names(kind).to_set() == landed(tokens, kind),
            predicate@ == plan_condition(filter, visibility),
            ids@ == selected_ids(posts@.take(i as int), tokens, visibility),
        decreases posts.len() - i,
    {
        let post = &posts[i];
        proof {
            lemma_plan_selects_matches(filter, visibility, post@);
            lemma_matches_is_selected(filter, tokens, visibility, post@);
            assert(posts@.take(i + 1).drop_last() == posts@.take(i as int));
            assert(posts@.take(i + 1).last() == posts@[i as int]);
        }
        if predicate.eval(post) {
            ids.push(post.id);
        }
        i += 1;
    }
    assert(posts@.take(posts.len() as int) == posts@);
    ids
}

/// Arranges identifiers in the order of a plan.
pub fn arrange(order: RowOrder, ids: &Vec<i32>) -> (arranged: Vec<i32>)
    ensures
        order == RowOrder::NewestFirst ==> arranged@ == newest_first(ids@),
        order.arranges(arranged@),
        arranged@.to_multiset() == ids@.to_multiset(),
{
    match order {
        RowOrder::NewestFirst => {
            proof {
                lemma_newest_first(ids@);
            }
            sort_newest_first(ids)
        },
    }
}

/// Searches a snapshot of posts: the page `page_number` of the posts that the
/// query selects and the acting identity may see, newest first, and the number of
/// pages that the matches fill.
pub fn search(
    posts: &Vec<TaggedPost>,
    query_text: &str,
    user: Option<&User>,
    page_size: usize,
    page_number: u32,
) -> (found: (Vec<i32>, u64))
    requires
        page_size > 0,
        forall|i: int| 0 <= i < posts.len() ==> (#[trigger] posts[i]).wf(),
    ensures
        ({
            let all = newest_first(
                selected_ids(posts@, normalized(words(query_text@)), visibility_of(user)),
            );
            &&& found.0@ == all.subrange(
                page_start(all.len(), page_size as nat, page_index_of(page_number)) as int,
                page_end(all.len(), page_size as nat, page_index_of(page_number)) as int,
            )
            &&& found.1 == page_count(all.len(), page_size as nat)
        }),
{
    let filter = parse_query(query_text);
    let ghost tokens = normalized(words(query_text@));
    let ghost chosen = filter;
    let visibility = visibility_for(user);
    let plan = compile(filter, visibility);
    let ids = matching_ids(posts, &plan.predicate, Ghost(&chosen), Ghost(tokens), Ghost(visibility));
    let sorted = arrange(plan.order, &ids);
    proof {
        lemma_newest_first(ids@);
    }
    let page = page_of(&sorted, page_size, page_number);
    let pages = total_pages(sorted.len() as u64, page_size as u64);
    (page, pages)
}

/// One row of a search: the post, and its tag text.
#[derive(Debug, Clone, PartialEq, Eq)]
pub struct OverviewRow {
    pub id: i32,
    /// The names of all tags of the post, with single spaces between them;
    /// nothing for a post without tags.
    pub tags: Option<String>,
}

/// What a row says.
pub struct RowFacts {
    pub id: i32,
    pub tags: Option<Seq<char>>,
}

impl View for OverviewRow {
    type V = RowFacts;

    open spec fn view(&self) -> RowFacts {
        RowFacts {
            id: self.id,
            tags: match self.tags {
                Some(text) => Some(text@),
                None => None,
            },
        }
    }
}

/// The facts of a sequence of rows.
pub open spec fn rows_of(rows: Seq<OverviewRow>) -> Seq<RowFacts> {
    Seq::new(rows.len(), |i: int| rows[i]@)
}

/// No two posts of the snapshot have one identifier.
pub open spec fn distinct_ids(posts: Seq<TaggedPost>) -> bool {
    forall|i: int, j: int| 0 <= i < j < posts.len() ==> posts[i].id != posts[j].id
}

/// Where the post with this identifier stands in the snapshot.
pub open spec fn position_of_id(posts: Seq<TaggedPost>, id: i32) -> int {
    choose|k: int| 0 <= k < posts.len() && (#[trigger] posts[k]).id == id
}

/// The row of the post with this identifier: the identifier, and the names of all
/// tags of the post, whatever the query asked for.
pub open spec fn row_for(posts: Seq<TaggedPost>, id: i32) -> RowFacts {
    RowFacts { id, tags: TagText::AllTags.of(views(posts[position_of_id(posts, id)].names@)) }
}

/// The rows of the posts with these identifiers, in the order of the identifiers.
pub open spec fn rows_for(posts: Seq<TaggedPost>, ids: Seq<i32>) -> Seq<RowFacts> {
    Seq::new(ids.len(), |i: int| row_for(posts, ids[i]))
}

/// Finds the post with this identifier.
pub fn find_post(posts: &Vec<TaggedPost>, id: i32) -> (found: Option<usize>)
    ensures
        match found {
            Some(k) => k < posts.len() && posts[k as int].id == id && forall|m: int|
                0 <= m < k ==> (#[trigger] posts[m]).id != id,
            None => forall|m: int| 0 <= m < posts.len() ==> (#[trigger] posts[m]).id != id,
        },
{
    let mut k: usize = 0;
    while k < posts.len()
        invariant
            k <= posts.len(),
            forall|m: int| 0 <= m < k ==> (#[trigger] posts[m]).id != id,
        decreases posts.len() - k,
    {
        if posts[k].id == id {
            return Some(k);
        }
        k += 1;
    }
    None
}

/// Every selected identifier is the identifier of a post of the snapshot.
pub proof fn lemma_selected_ids_are_of_posts(
    posts: Seq<TaggedPost>,
    tokens: Seq<Seq<char>>,
    visibility: Visibility,
)
    ensures
        forall|i: int|
            0 <= i < selected_ids(posts, tokens, visibility).len() ==> exists|k: int|
                0 <= k < posts.len() && (#[trigger] posts[k]).id == #[trigger] selected_ids(
                    posts,
                    tokens,
                    visibility,
                )[i],
    decreases posts.len(),
{
    let ids = selected_ids(posts, tokens, visibility);
    if posts.len() > 0 {
        let init = posts.drop_last();
        let init_ids = selected_ids(init, tokens, visibility);
        lemma_selected_ids_are_of_posts(init, tokens, visibility);
        assert forall|i: int| 0 <= i < ids.len() implies exists|k: int|
            0 <= k < posts.len() && (#[trigger] posts[k]).id == #[trigger] ids[i] by {
            if i < init_ids.len() {
                assert(ids[i] == init_ids[i]);
                let k = choose|k: int| 0 <= k < init.len() && (#[trigger] init[k]).id == init_ids[i];
                assert(posts[k] == init[k]);
            } else {
                assert(posts[posts.len() - 1].id == ids[i]);
            }
        }
    }
}

/// Where no two posts have one identifier, no post is selected twice.
pub proof fn lemma_selected_once(
    posts: Seq<TaggedPost>,
    tokens: Seq<Seq<char>>,
    visibility: Visibility,
)
    requires
        distinct_ids(posts),
    ensures
        selected_ids(posts, tokens, visibility).no_duplicates(),
    decreases posts.len(),
{
    let ids = selected_ids(posts, tokens, visibility);
    if posts.len() > 0 {
        let init = posts.drop_last();
        let init_ids = selected_ids(init, tokens, visibility);
        assert(distinct_ids(init)) by {
            assert forall|i: int, j: int| 0 <= i < j < init.len() implies init[i].id
                != init[j].id by {
                assert(init[i] == posts[i] && init[j] == posts[j]);
            }
        }
        lemma_selected_once(init, tokens, visibility);
        lemma_selected_ids_are_of_posts(init, tokens, visibility);
        assert forall|i: int, j: int| 0 <= i < j < ids.len() implies ids[i] != ids[j] by {
            if j < init_ids.len() {
                assert(ids[i] == init_ids[i] && ids[j] == init_ids[j]);
            } else {
                assert(ids[j] == posts[posts.len() - 1].id);
                assert(ids[i] == init_ids[i]);
                let k = choose|k: int| 0 <= k < init.len() && (#[trigger] init[k]).id == init_ids[i];
                assert(posts[k] == init[k]);
            }
        }
    }
}

/// Where no two posts have one identifier, the rows of a search come strictly
/// newest first: no post occurs twice.
pub proof fn lemma_rows_strictly_newest_first(
    posts: Seq<TaggedPost>,
    tokens: Seq<Seq<char>>,
    visibility: Visibility,
)
    requires
        distinct_ids(posts),
    ensures
        forall|i: int, j: int|
            0 <= i < j < newest_first(selected_ids(posts, tokens, visibility)).len()
                ==> newest_first(selected_ids(posts, tokens, visibility))[i] > newest_first(
                selected_ids(posts, tokens, visibility),
            )[j],
{
    let ids = selected_ids(posts, tokens, visibility);
    let all = newest_first(ids);
    lemma_selected_once(posts, tokens, visibility);
    lemma_newest_first(ids);
    ids.lemma_multiset_has_no_duplicates();
    all.lemma_multiset_has_no_duplicates_conv();
    assert forall|i: int, j: int| 0 <= i < j < all.len() implies all[i] > all[j] by {
        assert(all[i] >= all[j]);
        assert(all[i] != all[j]);
    }
}

/// Searches a snapshot of posts and yields rows: the page `page_number` of the
/// posts that the query selects and the acting identity may see, the newest
/// first, each with the names of all its tags, and the number of pages that the
/// matches fill.
pub fn search_rows(
    posts: &Vec<TaggedPost>,
    query_text: &str,
    user: Option<&User>,
    page_size: usize,
    page_number: u32,
) -> (found: (Vec<OverviewRow>, u64))
    requires
        page_size > 0,
        forall|i: int| 0 <= i < posts.len() ==> (#[trigger] posts[i]).wf(),
        distinct_ids(posts@),
    ensures
        ({
            let all = newest_first(
                selected_ids(posts@, normalized(words(query_text@)), visibility_of(user)),
            );
            let page = all.subrange(
                page_start(all.len(), page_size as nat, page_index_of(page_number)) as int,
                page_end(all.len(), page_size as nat, page_index_of(page_number)) as int,
            );
            &&& rows_of(found.0@) == rows_for(posts@, page)
            &&& found.1 == page_count(all.len(), page_size as nat)
        }),
{
    let ghost tokens = normalized(words(query_text@));
    let ghost visibility = visibility_of(user);
    let ghost all = newest_first(selected_ids(posts@, tokens, visibility));
    let (page, pages) = search(posts, query_text, user, page_size, page_number);
    let tag_text = TagText::AllTags;
    let mut rows: Vec<OverviewRow> = Vec::new();
    let mut i: usize = 0;
    proof {
        lemma_page_is_inside(all.len(), page_size as nat, page_index_of(page_number));
    }
    while i < page.len()
        invariant
            i <= page.len(),
            tag_text == TagText::AllTags,
            distinct_ids(posts@),
            all == newest_first(selected_ids(posts@, tokens, visibility)),
            exists|from: int, to: int| 0 <= from <= to <= all.len() && page@ == all.subrange(
                from,
                to,
            ),
            rows_of(rows@) == rows_for(posts@, page@.take(i as int)),
        decreases page.len() - i,
    {
        let id = page[i];
        proof {
            let (from, to) = choose|from: int, to: int|
                0 <= from <= to <= all.len() && page@ == all.subrange(from, to);
            assert(all[from + i] == id);
            assert(all.contains(id));
            lemma_search_lists_the_selected(posts@, tokens, visibility, id);
            let k = choose|k: int|
                0 <= k < posts.len() && (#[trigger] posts@[k]).id == id && selected(
                    tokens,
                    visibility,
                    posts@[k]@,
                );
            assert(posts@[k].id == id);
        }
        match find_post(posts, id) {
            Some(k) => {
                let text = tag_text.text_of(&posts[k].names);
                let row = OverviewRow { id, tags: text };
                proof {
                    let chosen = position_of_id(posts@, id);
                    assert(posts@[chosen].id == id);
                    if chosen < k {
                        assert(posts@[chosen].id != posts@[k as int].id);
                    } else if chosen > k {
                        assert(posts@[k as int].id != posts@[chosen].id);
                    }
                    assert(row@ == row_for(posts@, id));
                    let grown = rows_of(rows@.push(row));
                    let wanted = rows_for(posts@, page@.take(i + 1));
                    assert(rows_of(rows@).len() == i);
                    assert forall|m: int| 0 <= m < grown.len() implies grown[m] == wanted[m] by {
                        if m < i {
                            assert(rows_of(rows@)[m] == rows_for(posts@, page@.take(i as int))[m]);
                        }
                    }
                    assert(grown =~= wanted);
                }
                rows.push(row);
            },
            None => {
                proof {
                    let k = choose|k: int| 0 <= k < posts.len() && (#[trigger] posts@[k]).id == id;
                    assert(posts@[k].id != id);
                }
            },
        }
        i += 1;
    }
    assert(page@.take(page.len() as int) == page@);
    (rows, pages)
}

/// A page lies inside the listing.
proof fn lemma_page_is_inside(rows: nat, page_size: nat, index: nat)
    requires
        page_size > 0,
    ensures
        0 <= page_start(rows, page_size, index) <= page_end(rows, page_size, index) <= rows,
{
}

} // verus!
