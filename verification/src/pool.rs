//! Pools as requests see them: who may list, extend and reorder a pool, and what
//! such a request comes to.

use crate::auth::User;
use crate::entities::samey_post;
use crate::error::SameyError;
use crate::pagination::{page_end, page_index_of, page_of, page_start};
use crate::position::{move_outcome, next_whole_of, next_whole_position, plan_move, MovePlan};
use crate::visibility::{can_edit, may_edit, visibility_for, visibility_of, Visibility};
use vstd::prelude::*;

verus! {

/// A membership of a pool, with what decides whether it is shown.
#[derive(Clone, Copy, Debug, PartialEq, Eq, Structural)]
pub struct PoolMember {
    /// The identifier of the membership.
    pub pool_post_id: i32,
    /// The post that is a member.
    pub post_id: i32,
    /// The owner of the post.
    pub uploader_id: i32,
    /// Whether the post is public.
    pub is_public: bool,
}

/// The members that a visibility admits, in order.
pub open spec fn visible_members(members: Seq<PoolMember>, visibility: Visibility) -> Seq<
    PoolMember,
>
    decreases members.len(),
{
    if members.len() == 0 {
        Seq::empty()
    } else if visibility.admits(members.last().is_public, members.last().uploader_id as int) {
        visible_members(members.drop_last(), visibility).push(members.last())
    } else {
        visible_members(members.drop_last(), visibility)
    }
}

/// The part of a listing that a request asks for: all of it, or one page.
pub open spec fn requested_part(rows: Seq<PoolMember>, page: Option<(usize, u32)>) -> Seq<
    PoolMember,
> {
    match page {
        None => rows,
        Some((page_size, page_number)) => rows.subrange(
            page_start(rows.len(), page_size as nat, page_index_of(page_number)) as int,
            page_end(rows.len(), page_size as nat, page_index_of(page_number)) as int,
        ),
    }
}

/// Lists the members of a pool that the acting identity may see. `members` are
/// the memberships of the pool in the order of their keys, ascending; that order is
/// kept. With a page size and a page number only that page comes back.
pub fn pool_contents(members: &Vec<PoolMember>, user: Option<&User>, page: Option<(usize, u32)>) -> (shown:
    Vec<PoolMember>)
    requires
        page matches Some(page) ==> page.0 > 0,
    ensures
        shown@ == requested_part(visible_members(members@, visibility_of(user)), page),
{
    let visibility = visibility_for(user);
    let mut seen: Vec<PoolMember> = Vec::new();
    let mut i: usize = 0;
    assert(members@.take(0) == Seq::<PoolMember>::empty());
    while i < members.len()
        invariant
            i <= members.len(),
            seen@ == visible_members(members@.take(i as int), visibility),
        decreases members.len() - i,
    {
        let member = members[i];
        proof {
            assert(members@.take(i + 1).drop_last() == members@.take(i as int));
            assert(members@.take(i + 1).last() == member);
        }
        if visibility.allows(member.is_public, member.uploader_id) {
            seen.push(member);
        }
        i += 1;
    }
    assert(members@.take(members.len() as int) == members@);
    match page {
        None => seen,
        Some((page_size, page_number)) => page_of(&seen, page_size, page_number),
    }
}

/// A member is listed if and only if it is in the pool and the identity may see
/// it, and the listing keeps the order of the pool.
pub proof fn lemma_visible_members(members: Seq<PoolMember>, visibility: Visibility)
    ensures
        forall|member: PoolMember|
            #![trigger visible_members(members, visibility).contains(member)]
            #![trigger members.contains(member)]
            visible_members(members, visibility).contains(member) <==> members.contains(member)
                && visibility.admits(member.is_public, member.uploader_id as int),
        visible_members(members, visibility).len() <= members.len(),
    decreases members.len(),
{
    let shown = visible_members(members, visibility);
    if members.len() > 0 {
        let init = members.drop_last();
        let last = members.last();
        let shown_init = visible_members(init, visibility);
        lemma_visible_members(init, visibility);
        assert forall|member: PoolMember|
            #![trigger shown.contains(member)]
            #![trigger members.contains(member)]
            shown.contains(member) <==> members.contains(member) && visibility.admits(
                member.is_public,
                member.uploader_id as int,
            ) by {
            if shown.contains(member) {
                let k = choose|k: int| 0 <= k < shown.len() && shown[k] == member;
                if k < shown_init.len() {
                    assert(shown_init[k] == member);
                    assert(shown_init.contains(member));
                    let m = choose|m: int| 0 <= m < init.len() && init[m] == member;
                    assert(members[m] == member);
                } else {
                    assert(members[members.len() - 1] == member);
                }
            }
            if members.contains(member) && visibility.admits(
                member.is_public,
                member.uploader_id as int,
            ) {
                let m = choose|m: int| 0 <= m < members.len() && members[m] == member;
                if m < init.len() {
                    assert(init[m] == member);
                    assert(init.contains(member));
                    let k = choose|k: int| 0 <= k < shown_init.len() && shown_init[k] == member;
                    assert(shown[k] == member);
                } else {
                    assert(shown[shown.len() - 1] == member);
                }
            }
        }
    }
}

/// What a request to append a post to a pool comes to: the whole key of the new
/// membership, or why there is none. A pool that was not found is not found; a
/// pool that the identity may not change is forbidden; a post that does not exist,
/// or that the identity may not see, is not found.
pub open spec fn append_outcome(
    pool_owner: Option<i32>,
    post: Option<&samey_post::Model>,
    user: Option<&User>,
    greatest_whole: Option<i64>,
) -> Result<i64, SameyError> {
    match pool_owner {
        None => Err(SameyError::NotFound),
        Some(owner) => if !may_edit(user, owner as int) {
            Err(SameyError::Forbidden)
        } else {
            match post {
                None => Err(SameyError::NotFound),
                Some(post) => if !visibility_of(user).admits(
                    post.is_public,
                    post.uploader_id as int,
                ) {
                    Err(SameyError::NotFound)
                } else {
                    Ok(next_whole_of(greatest_whole) as i64)
                },
            }
        },
    }
}

/// Decides a request to append a post to a pool, from the owner of the pool and
/// the post, as far as they were found, and the whole part of the greatest key in
/// the pool.
pub fn append_to_pool(
    pool_owner: Option<i32>,
    post: Option<&samey_post::Model>,
    user: Option<&User>,
    greatest_whole: Option<i64>,
) -> (position: Result<i64, SameyError>)
    ensures
        position == append_outcome(pool_owner, post, user, greatest_whole),
{
    let owner = match pool_owner {
        Some(owner) => owner,
        None => {
            return Err(SameyError::NotFound);
        },
    };
    if !can_edit(user, owner) {
        return Err(SameyError::Forbidden);
    }
    let post = match post {
        Some(post) => post,
        None => {
            return Err(SameyError::NotFound);
        },
    };
    if !post.visible_to(user) {
        return Err(SameyError::NotFound);
    }
    Ok(next_whole_position(greatest_whole))
}

/// What a request to move a member within a pool comes to: a plan, nothing to do,
/// or why it cannot be done. `len` counts the members that the identity sees.
pub open spec fn reorder_outcome(
    pool_owner: Option<i32>,
    user: Option<&User>,
    len: int,
    source: int,
    destination: int,
) -> Result<Option<MovePlan>, SameyError> {
    match pool_owner {
        None => Err(SameyError::NotFound),
        Some(owner) => if !may_edit(user, owner as int) {
            Err(SameyError::Forbidden)
        } else {
            move_outcome(len, source, destination)
        },
    }
}

/// Decides a request to move the member at `source_index` of a pool's order to
/// `destination_index`, from the owner of the pool, if the pool was found.
pub fn move_within_pool(
    pool_owner: Option<i32>,
    user: Option<&User>,
    len: usize,
    source_index: usize,
    destination_index: usize,
) -> (plan: Result<Option<MovePlan>, SameyError>)
    ensures
        plan == reorder_outcome(
            pool_owner,
            user,
            len as int,
            source_index as int,
            destination_index as int,
        ),
{
    let owner = match pool_owner {
        Some(owner) => owner,
        None => {
            return Err(SameyError::NotFound);
        },
    };
    if !can_edit(user, owner) {
        return Err(SameyError::Forbidden);
    }
    plan_move(len, source_index, destination_index)
}

} // verus!
