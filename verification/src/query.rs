//! The search compiler: from the four sets of a filter and the acting identity to
//! one predicate over posts, and the proof that the predicate selects exactly the
//! posts that the filter describes.

use crate::auth::User;
use crate::predicate::{has_any_of, Condition, PostFacts, Predicate};
use crate::tags::{classify_tokens, filed, normalized, SearchFilter, TokenKind};
use crate::text::{join_with_space, joined, views};
use crate::visibility::{visibility_for, visibility_of, Visibility};
use vstd::prelude::*;

verus! {

/// How the tag names of a post are gathered for the result.
#[derive(Clone, Copy, Debug, PartialEq, Eq, Structural)]
pub enum JoinKind {
    /// Keeps posts that have no tag at all.
    Outer,
    /// Drops posts that have no tag; cheaper, and right only where a match is
    /// bound to have one.
    Inner,
}

/// The order in which the rows of a search come.
#[derive(Clone, Copy, Debug, PartialEq, Eq, Structural)]
pub enum RowOrder {
    /// By identifier, descending: the newest post first.
    NewestFirst,
}

impl RowOrder {
    /// Whether identifiers in this sequence are in the order.
    pub open spec fn arranges(self, ids: Seq<i32>) -> bool {
        match self {
            RowOrder::NewestFirst => forall|i: int, j: int|
                0 <= i < j < ids.len() ==> ids[i] >= ids[j],
        }
    }
}

/// What the tag text of a row holds.
#[derive(Clone, Copy, Debug, PartialEq, Eq, Structural)]
pub enum TagText {
    /// The names of all tags of the post, matched by the query or not, with single
    /// spaces between them; nothing for a post without tags.
    AllTags,
}

impl TagText {
    /// The tag text of a post whose tags have these names.
    pub open spec fn of(self, names: Seq<Seq<char>>) -> Option<Seq<char>> {
        match self {
            TagText::AllTags => if names.len() == 0 {
                None
            } else {
                Some(joined(names, seq![' ']))
            },
        }
    }

    /// Builds the tag text of a post whose tags have these names.
    pub fn text_of(&self, names: &Vec<String>) -> (text: Option<String>)
        ensures
            match self.of(views(names@)) {
                Some(wanted) => text matches Some(text) && text@ == wanted,
                None => text is None,
            },
    {
        match self {
            TagText::AllTags => {
                assert(views(names@).len() == names.len());
                if names.len() == 0 {
                    None
                } else {
                    Some(join_with_space(names))
                }
            },
        }
    }
}

/// A compiled search: which posts to return, one row to the post, in which order,
/// with which tag text, and how to gather the tags.
#[derive(Debug, PartialEq, Eq)]
pub struct SearchPlan {
    pub predicate: Predicate,
    pub join: JoinKind,
    pub order: RowOrder,
    pub tag_text: TagText,
}

/// `acc` and `next` together. A condition that restricts nothing leaves no trace.
pub open spec fn conjoin(acc: Condition, next: Condition) -> Condition {
    if acc is Always {
        next
    } else {
        Condition::And(Box::new(acc), Box::new(next))
    }
}

/// `condition`, and what the identity may see.
pub open spec fn restricted(condition: Condition, visibility: Visibility) -> Condition {
    match visibility {
        Visibility::PublicOnly => conjoin(condition, Condition::IsPublic),
        Visibility::Unrestricted => condition,
        Visibility::PublicOrOwnedBy(id) => conjoin(
            condition,
            Condition::Or(Box::new(Condition::IsPublic), Box::new(Condition::OwnedBy(id as int))),
        ),
    }
}

/// The part of the plan that the included tags add: a post must carry as many of
/// them as there are.
pub open spec fn with_include_tags(acc: Condition, names: Seq<Seq<char>>) -> Condition {
    if names.len() > 0 {
        conjoin(acc, Condition::TagCountIs(names, names.len()))
    } else {
        acc
    }
}

/// The part of the plan that the excluded tags add: a post must carry none of them.
pub open spec fn with_exclude_tags(acc: Condition, names: Seq<Seq<char>>) -> Condition {
    if names.len() > 0 {
        conjoin(acc, Condition::Not(Box::new(Condition::TaggedWithAny(names))))
    } else {
        acc
    }
}

/// The part of the plan that the included ratings add.
pub open spec fn with_include_ratings(acc: Condition, ratings: Seq<Seq<char>>) -> Condition {
    if ratings.len() > 0 {
        conjoin(acc, Condition::RatingIn(ratings))
    } else {
        acc
    }
}

/// The part of the plan that the excluded ratings add.
pub open spec fn with_exclude_ratings(acc: Condition, ratings: Seq<Seq<char>>) -> Condition {
    if ratings.len() > 0 {
        conjoin(acc, Condition::Not(Box::new(Condition::RatingIn(ratings))))
    } else {
        acc
    }
}

/// The condition that four sets of names compile to under an identity's
/// restriction: the parts of the four, in this order, and what may be seen.
pub open spec fn condition_for(
    include_tags: Seq<Seq<char>>,
    exclude_tags: Seq<Seq<char>>,
    include_ratings: Seq<Seq<char>>,
    exclude_ratings: Seq<Seq<char>>,
    visibility: Visibility,
) -> Condition {
    restricted(
        with_exclude_ratings(
            with_include_ratings(
                with_exclude_tags(with_include_tags(Condition::Always, include_tags), exclude_tags),
                include_ratings,
            ),
            exclude_ratings,
        ),
        visibility,
    )
}

/// The condition that a filter compiles to under an identity's restriction.
pub open spec fn plan_condition(filter: &SearchFilter, visibility: Visibility) -> Condition {
    condition_for(
        filter.names(TokenKind::IncludeTag),
        filter.names(TokenKind::ExcludeTag),
        filter.names(TokenKind::IncludeRating),
        filter.names(TokenKind::ExcludeRating),
        visibility,
    )
}

/// The join that a filter compiles to: inner only where a tag is asked for, since
/// only then is a match bound to have one.
pub open spec fn plan_join(filter: &SearchFilter) -> JoinKind {
    join_for(filter.names(TokenKind::IncludeTag))
}

/// The join that goes with a set of included tags.
pub open spec fn join_for(include_tags: Seq<Seq<char>>) -> JoinKind {
    if include_tags.len() > 0 {
        JoinKind::Inner
    } else {
        JoinKind::Outer
    }
}

/// The normalized tokens of a request: none where the request has no query.
pub open spec fn requested_tokens(tokens: Option<&Vec<String>>) -> Seq<Seq<char>> {
    match tokens {
        Some(tokens) => normalized(views(tokens@)),
        None => Seq::empty(),
    }
}

/// The condition that normalized tokens compile to under an identity's
/// restriction.
pub open spec fn tokens_condition(tokens: Seq<Seq<char>>, visibility: Visibility) -> Condition {
    condition_for(
        filed(tokens, TokenKind::IncludeTag),
        filed(tokens, TokenKind::ExcludeTag),
        filed(tokens, TokenKind::IncludeRating),
        filed(tokens, TokenKind::ExcludeRating),
        visibility,
    )
}

/// What a filter asks of a post, category by category; all of it must hold.
pub open spec fn accepts(filter: &SearchFilter, visibility: Visibility, post: PostFacts) -> bool {
    &&& forall|i: int|
        0 <= i < filter.names(TokenKind::IncludeTag).len() ==> post.tags.contains(
            #[trigger] filter.names(TokenKind::IncludeTag)[i],
        )
    &&& forall|i: int|
        0 <= i < filter.names(TokenKind::ExcludeTag).len() ==> !post.tags.contains(
            #[trigger] filter.names(TokenKind::ExcludeTag)[i],
        )
    &&& filter.names(TokenKind::IncludeRating).len() > 0 ==> filter.names(
        TokenKind::IncludeRating,
    ).contains(post.rating)
    &&& !filter.names(TokenKind::ExcludeRating).contains(post.rating)
    &&& visibility.admits(post.is_public, post.owner)
}

fn and_also(acc: Predicate, next: Predicate) -> (both: Predicate)
    ensures
        both@ == conjoin(acc@, next@),
{
    reveal_with_fuel(Predicate::condition, 2);
    match acc {
        Predicate::Always => next,
        acc => Predicate::And(Box::new(acc), Box::new(next)),
    }
}

/// Restricts a predicate over posts to what the acting identity may see.
pub fn filter_posts_by_user(predicate: Predicate, user: Option<&User>) -> (seen: Predicate)
    ensures
        seen@ == restricted(predicate@, visibility_of(user)),
{
    restrict(predicate, visibility_for(user))
}

/// Restricts a predicate over posts by a visibility.
pub fn restrict(predicate: Predicate, visibility: Visibility) -> (seen: Predicate)
    ensures
        seen@ == restricted(predicate@, visibility),
{
    reveal_with_fuel(Predicate::condition, 3);
    match visibility {
        Visibility::PublicOnly => and_also(predicate, Predicate::IsPublic),
        Visibility::Unrestricted => predicate,
        Visibility::PublicOrOwnedBy(id) => and_also(
            predicate,
            Predicate::Or(Box::new(Predicate::IsPublic), Box::new(Predicate::OwnedBy(id))),
        ),
    }
}

/// Compiles a filter and a visibility into a plan.
pub fn compile(filter: SearchFilter, visibility: Visibility) -> (plan: SearchPlan)
    ensures
        plan.predicate@ == plan_condition(&filter, visibility),
        plan.join == plan_join(&filter),
        plan.order == RowOrder::NewestFirst,
        plan.tag_text == TagText::AllTags,
{
    reveal_with_fuel(Predicate::condition, 3);
    let SearchFilter { include_tags, exclude_tags, include_ratings, exclude_ratings } = filter;
    let mut predicate = Predicate::Always;
    let join = if include_tags.len() > 0 {
        JoinKind::Inner
    } else {
        JoinKind::Outer
    };
    if include_tags.len() > 0 {
        let count = include_tags.len();
        predicate = and_also(predicate, Predicate::TagCountIs(include_tags, count));
    }
    if exclude_tags.len() > 0 {
        predicate =
        and_also(predicate, Predicate::Not(Box::new(Predicate::TaggedWithAny(exclude_tags))));
    }
    if include_ratings.len() > 0 {
        predicate = and_also(predicate, Predicate::RatingIn(include_ratings));
    }
    if exclude_ratings.len() > 0 {
        predicate =
        and_also(predicate, Predicate::Not(Box::new(Predicate::RatingIn(exclude_ratings))));
    }
    SearchPlan {
        predicate: restrict(predicate, visibility),
        join,
        order: RowOrder::NewestFirst,
        tag_text: TagText::AllTags,
    }
}

/// Plans the search that the tokens of a request ask for, as the acting identity
/// may see it: the posts that the condition selects, one row to the post, the
/// newest first, each with the names of all its tags.
pub fn search_posts(tokens: Option<&Vec<String>>, user: Option<&User>) -> (plan: SearchPlan)
    ensures
        plan.predicate@ == tokens_condition(requested_tokens(tokens), visibility_of(user)),
        plan.join == join_for(filed(requested_tokens(tokens), TokenKind::IncludeTag)),
        plan.order == RowOrder::NewestFirst,
        plan.tag_text == TagText::AllTags,
{
    let filter = match tokens {
        Some(tokens) => classify_tokens(tokens),
        None => {
            let filter = SearchFilter::new();
            assert forall|kind: TokenKind| #[trigger]
                filter.names(kind) == filed(Seq::<Seq<char>>::empty(), kind) by {
                assert(filter.names(kind).len() == 0);
                assert(filter.names(kind) =~= filed(Seq::<Seq<char>>::empty(), kind));
            }
            filter
        },
    };
    let ghost chosen = filter;
    let plan = compile(filter, visibility_for(user));
    proof {
        assert(chosen.names(TokenKind::IncludeTag) == filed(
            requested_tokens(tokens),
            TokenKind::IncludeTag,
        ));
        assert(chosen.names(TokenKind::ExcludeTag) == filed(
            requested_tokens(tokens),
            TokenKind::ExcludeTag,
        ));
        assert(chosen.names(TokenKind::IncludeRating) == filed(
            requested_tokens(tokens),
            TokenKind::IncludeRating,
        ));
        assert(chosen.names(TokenKind::ExcludeRating) == filed(
            requested_tokens(tokens),
            TokenKind::ExcludeRating,
        ));
    }
    plan
}

/// Joining two conditions means that both hold.
pub proof fn lemma_conjoin(acc: Condition, next: Condition, post: PostFacts)
    ensures
        conjoin(acc, next).holds(post) == (acc.holds(post) && next.holds(post)),
{
}

/// Restricting a condition means that it holds and that the post may be seen.
pub proof fn lemma_restricted(condition: Condition, visibility: Visibility, post: PostFacts)
    ensures
        restricted(condition, visibility).holds(post) == (condition.holds(post)
            && visibility.admits(post.is_public, post.owner)),
{
    reveal_with_fuel(Condition::holds, 3);
    match visibility {
        Visibility::PublicOnly => {},
        Visibility::Unrestricted => {},
        Visibility::PublicOrOwnedBy(id) => {
            let either = Condition::Or(
                Box::new(Condition::IsPublic),
                Box::new(Condition::OwnedBy(id as int)),
            );
            assert(either.holds(post) == (post.is_public || post.owner == id));
        },
    }
}

/// Counting is exact: a post carries as many of a set of tags as the set has
/// members if and only if it carries every one of them.
pub proof fn lemma_count_is_all(tags: Set<Seq<char>>, names: Seq<Seq<char>>)
    requires
        names.no_duplicates(),
    ensures
        tags.intersect(names.to_set()).len() == names.len() <==> forall|i: int|
            0 <= i < names.len() ==> tags.contains(#[trigger] names[i]),
{
    let wanted = names.to_set();
    let hits = tags.intersect(wanted);
    vstd::seq_lib::seq_to_set_is_finite(names);
    names.unique_seq_to_set();
    assert(hits =~= wanted.intersect(tags));
    vstd::set_lib::lemma_len_intersect::<Seq<char>>(wanted, tags);
    vstd::set::axiom_set_intersect_finite::<Seq<char>>(tags, wanted);
    assert(hits.subset_of(wanted));
    if forall|i: int| 0 <= i < names.len() ==> tags.contains(#[trigger] names[i]) {
        assert forall|name: Seq<char>| wanted.contains(name) implies hits.contains(name) by {
            let i = choose|i: int| 0 <= i < names.len() && names[i] == name;
            assert(tags.contains(names[i]));
        }
        assert(hits =~= wanted);
    }
    if hits.len() == names.len() {
        vstd::set_lib::lemma_subset_equality(hits, wanted);
        assert forall|i: int| 0 <= i < names.len() implies tags.contains(#[trigger] names[i]) by {
            assert(wanted.contains(names[i]));
            assert(hits.contains(names[i]));
        }
    }
}

/// The compiled condition selects a post if and only if the post carries every
/// included tag, carries no excluded tag, has one of the included ratings where
/// there are any, has none of the excluded ratings, and may be seen.
pub proof fn lemma_plan_selects_matches(
    filter: &SearchFilter,
    visibility: Visibility,
    post: PostFacts,
)
    requires
        filter.wf(),
    ensures
        plan_condition(filter, visibility).holds(post) <==> accepts(filter, visibility, post),
{
    reveal_with_fuel(Condition::holds, 3);
    let include_tags = filter.names(TokenKind::IncludeTag);
    let exclude_tags = filter.names(TokenKind::ExcludeTag);
    let include_ratings = filter.names(TokenKind::IncludeRating);
    let exclude_ratings = filter.names(TokenKind::ExcludeRating);
    let c1 = with_include_tags(Condition::Always, include_tags);
    let c2 = with_exclude_tags(c1, exclude_tags);
    let c3 = with_include_ratings(c2, include_ratings);
    let c4 = with_exclude_ratings(c3, exclude_ratings);
    assert(include_tags.no_duplicates());
    lemma_count_is_all(post.tags, include_tags);
    assert(c1.holds(post) <==> forall|i: int|
        0 <= i < include_tags.len() ==> post.tags.contains(#[trigger] include_tags[i]));
    assert(c2.holds(post) <==> c1.holds(post) && !has_any_of(post.tags, exclude_tags));
    assert(c3.holds(post) <==> c2.holds(post) && (include_ratings.len() > 0
        ==> include_ratings.contains(post.rating)));
    assert(c4.holds(post) <==> c3.holds(post) && !exclude_ratings.contains(post.rating));
    lemma_restricted(c4, visibility, post);
}

/// A post is selected only if it carries every included tag: fewer will not do, and
/// the other categories cannot make up for one that is missing.
pub proof fn lemma_included_tags_are_required(
    filter: &SearchFilter,
    visibility: Visibility,
    post: PostFacts,
    name: Seq<char>,
)
    requires
        filter.wf(),
        filter.names(TokenKind::IncludeTag).contains(name),
        !post.tags.contains(name),
    ensures
        !plan_condition(filter, visibility).holds(post),
{
    lemma_plan_selects_matches(filter, visibility, post);
}

/// A post that carries an excluded tag is never selected, whatever else it matches.
pub proof fn lemma_excluded_tags_disqualify(
    filter: &SearchFilter,
    visibility: Visibility,
    post: PostFacts,
    name: Seq<char>,
)
    requires
        filter.wf(),
        filter.names(TokenKind::ExcludeTag).contains(name),
        post.tags.contains(name),
    ensures
        !plan_condition(filter, visibility).holds(post),
{
    lemma_plan_selects_matches(filter, visibility, post);
}

/// Where a query names nothing but excluded tags, a post that may be seen is
/// selected if and only if it carries none of them.
pub proof fn lemma_only_excluded_tags(filter: &SearchFilter, visibility: Visibility, post: PostFacts)
    requires
        filter.wf(),
        filter.names(TokenKind::IncludeTag).len() == 0,
        filter.names(TokenKind::IncludeRating).len() == 0,
        filter.names(TokenKind::ExcludeRating).len() == 0,
        visibility.admits(post.is_public, post.owner),
    ensures
        plan_condition(filter, visibility).holds(post) <==> forall|i: int|
            0 <= i < filter.names(TokenKind::ExcludeTag).len() ==> !post.tags.contains(
                #[trigger] filter.names(TokenKind::ExcludeTag)[i],
            ),
{
    lemma_plan_selects_matches(filter, visibility, post);
}

/// No plan shows a post to an identity that may not see it.
pub proof fn lemma_plan_never_leaks(filter: &SearchFilter, visibility: Visibility, post: PostFacts)
    requires
        filter.wf(),
        !visibility.admits(post.is_public, post.owner),
    ensures
        !plan_condition(filter, visibility).holds(post),
{
    lemma_plan_selects_matches(filter, visibility, post);
}

/// Where the plan joins inner, no match is lost: every selected post has a tag.
/// Where no tag is asked for, the join is outer and untagged posts stay.
pub proof fn lemma_join_keeps_matches(filter: &SearchFilter, visibility: Visibility, post: PostFacts)
    requires
        filter.wf(),
        plan_condition(filter, visibility).holds(post),
        plan_join(filter) == JoinKind::Inner,
    ensures
        !(post.tags =~= Set::<Seq<char>>::empty()),
{
    lemma_plan_selects_matches(filter, visibility, post);
    assert(post.tags.contains(filter.names(TokenKind::IncludeTag)[0]));
}

} // verus!
