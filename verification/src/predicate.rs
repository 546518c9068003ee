//! The intermediate form of a filter: a small tree of conditions on one post, with
//! its meaning and an interpreter, both independent of any storage engine.

use crate::tags::contains_name;
use crate::text::views;
use vstd::prelude::*;

verus! {

/// What a condition can ask of a post.
pub struct PostFacts {
    pub id: int,
    pub owner: int,
    pub is_public: bool,
    pub rating: Seq<char>,
    /// The normalized names of the tags that the post is associated with.
    pub tags: Set<Seq<char>>,
    /// The names of those tags as they are shown, in the order in which the post
    /// holds them.
    pub names: Seq<Seq<char>>,
}

/// A post as a query sees it: the row, and the tags that it is associated with.
#[derive(Debug, Clone, PartialEq, Eq)]
pub struct TaggedPost {
    pub id: i32,
    pub uploader_id: i32,
    pub is_public: bool,
    pub rating: String,
    /// The normalized names of the tags, by which they are matched.
    pub tags: Vec<String>,
    /// The names of the tags as they are shown.
    pub names: Vec<String>,
}

impl View for TaggedPost {
    type V = PostFacts;

    open spec fn view(&self) -> PostFacts {
        PostFacts {
            id: self.id as int,
            owner: self.uploader_id as int,
            is_public: self.is_public,
            rating: self.rating@,
            tags: views(self.tags@).to_set(),
            names: views(self.names@),
        }
    }
}

impl TaggedPost {
    /// A post is associated with a tag at most once.
    pub open spec fn wf(&self) -> bool {
        views(self.tags@).no_duplicates()
    }
}

/// The meaning of a [`Predicate`]: a condition over sequences of names.
pub enum Condition {
    Always,
    IsPublic,
    OwnedBy(int),
    RatingIn(Seq<Seq<char>>),
    TaggedWithAny(Seq<Seq<char>>),
    TagCountIs(Seq<Seq<char>>, nat),
    Not(Box<Condition>),
    And(Box<Condition>, Box<Condition>),
    Or(Box<Condition>, Box<Condition>),
}

/// Whether at least one of `names` is among `tags`.
pub open spec fn has_any_of(tags: Set<Seq<char>>, names: Seq<Seq<char>>) -> bool {
    exists|i: int| 0 <= i < names.len() && tags.contains(#[trigger] names[i])
}

impl Condition {
    /// Whether a post meets the condition.
    pub open spec fn holds(self, post: PostFacts) -> bool
        decreases self,
    {
        match self {
            Condition::Always => true,
            Condition::IsPublic => post.is_public,
            Condition::OwnedBy(owner) => post.owner == owner,
            Condition::RatingIn(ratings) => ratings.contains(post.rating),
            Condition::TaggedWithAny(names) => has_any_of(post.tags, names),
            Condition::TagCountIs(names, count) => post.tags.intersect(names.to_set()).len()
                == count,
            Condition::Not(inner) => !inner.holds(post),
            Condition::And(left, right) => left.holds(post) && right.holds(post),
            Condition::Or(left, right) => left.holds(post) || right.holds(post),
        }
    }
}

/// A condition on one post, in the form that a storage layer can lower into its
/// own query language.
#[derive(Debug, PartialEq, Eq)]
pub enum Predicate {
    /// No restriction.
    Always,
    /// The post is public.
    IsPublic,
    /// The post belongs to this identity.
    OwnedBy(i32),
    /// The post's rating is one of these.
    RatingIn(Vec<String>),
    /// The post carries at least one of these tags.
    TaggedWithAny(Vec<String>),
    /// The number of the post's tags that are among these is exactly the count.
    TagCountIs(Vec<String>, usize),
    Not(Box<Predicate>),
    And(Box<Predicate>, Box<Predicate>),
    Or(Box<Predicate>, Box<Predicate>),
}

impl Predicate {
    /// What the predicate means.
    pub open spec fn condition(&self) -> Condition
        decreases self,
    {
        match self {
            Predicate::Always => Condition::Always,
            Predicate::IsPublic => Condition::IsPublic,
            Predicate::OwnedBy(owner) => Condition::OwnedBy(*owner as int),
            Predicate::RatingIn(ratings) => Condition::RatingIn(views(ratings@)),
            Predicate::TaggedWithAny(names) => Condition::TaggedWithAny(views(names@)),
            Predicate::TagCountIs(names, count) => Condition::TagCountIs(
                views(names@),
                *count as nat,
            ),
            Predicate::Not(inner) => Condition::Not(Box::new(inner.condition())),
            Predicate::And(left, right) => Condition::And(
                Box::new(left.condition()),
                Box::new(right.condition()),
            ),
            Predicate::Or(left, right) => Condition::Or(
                Box::new(left.condition()),
                Box::new(right.condition()),
            ),
        }
    }
}

impl View for Predicate {
    type V = Condition;

    open spec fn view(&self) -> Condition {
        self.condition()
    }
}

/// Counts the tags of a post that are among `names`.
pub fn count_tags_among(tags: &Vec<String>, names: &Vec<String>) -> (count: usize)
    requires
        views(tags@).no_duplicates(),
    ensures
        count == views(tags@).to_set().intersect(views(names@).to_set()).len(),
{
    let ghost all = views(tags@);
    let ghost wanted = views(names@).to_set();
    let mut count: usize = 0;
    let mut i: usize = 0;
    assert(all.take(0).to_set().intersect(wanted) =~= Set::<Seq<char>>::empty());
    while i < tags.len()
        invariant
            i <= tags.len(),
            all == views(tags@),
            wanted == views(names@).to_set(),
            all.no_duplicates(),
            count <= i,
            count == all.take(i as int).to_set().intersect(wanted).len(),
        decreases tags.len() - i,
    {
        let hit = contains_name(names, &tags[i]);
        proof {
            let seen = all.take(i as int);
            let next = all.take(i + 1);
            let tag = all[i as int];
            assert(next == seen.push(tag));
            seen.lemma_push_to_set_commute(tag);
            vstd::seq_lib::seq_to_set_is_finite(seen);
            assert(!seen.to_set().contains(tag)) by {
                if seen.contains(tag) {
                    let k = choose|k: int| 0 <= k < seen.len() && seen[k] == tag;
                    assert(all[k] == all[i as int]);
                }
            }
            let old_hits = seen.to_set().intersect(wanted);
            vstd::set_lib::lemma_len_intersect::<Seq<char>>(seen.to_set(), wanted);
            if hit {
                assert(next.to_set().intersect(wanted) =~= old_hits.insert(tag));
            } else {
                assert(next.to_set().intersect(wanted) =~= old_hits);
            }
        }
        if hit {
            count += 1;
        }
        i += 1;
    }
    assert(all.take(tags.len() as int) == all);
    count
}

/// Whether a post carries at least one of `names`.
pub fn tagged_with_any(tags: &Vec<String>, names: &Vec<String>) -> (found: bool)
    ensures
        found == has_any_of(views(tags@).to_set(), views(names@)),
{
    let mut i: usize = 0;
    while i < names.len()
        invariant
            i <= names.len(),
            forall|k: int| 0 <= k < i ==> !views(tags@).to_set().contains(#[trigger] views(names@)[k]),
        decreases names.len() - i,
    {
        if contains_name(tags, &names[i]) {
            assert(views(tags@).to_set().contains(views(names@)[i as int]));
            return true;
        }
        i += 1;
    }
    false
}

impl Predicate {
    /// Evaluates the predicate on one post.
    pub fn eval(&self, post: &TaggedPost) -> (met: bool)
        requires
            post.wf(),
        ensures
            met == self@.holds(post@),
        decreases self,
    {
        match self {
            Predicate::Always => true,
            Predicate::IsPublic => post.is_public,
            Predicate::OwnedBy(owner) => post.uploader_id == *owner,
            Predicate::RatingIn(ratings) => contains_name(ratings, &post.rating),
            Predicate::TaggedWithAny(names) => tagged_with_any(&post.tags, names),
            Predicate::TagCountIs(names, count) => count_tags_among(&post.tags, names) == *count,
            Predicate::Not(inner) => {
                let met = inner.eval(post);
                assert(self@ == Condition::Not(Box::new(inner@)));
                !met
            },
            Predicate::And(left, right) => {
                assert(self@ == Condition::And(Box::new(left@), Box::new(right@)));
                left.eval(post) && right.eval(post)
            },
            Predicate::Or(left, right) => {
                assert(self@ == Condition::Or(Box::new(left@), Box::new(right@)));
                left.eval(post) || right.eval(post)
            },
        }
    }
}

} // verus!
