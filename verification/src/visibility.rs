//! Access control: which rows an identity may see, and which it may change.

use crate::auth::User;
use crate::error::SameyError;
use vstd::prelude::*;

verus! {

/// The restriction that an identity puts on every listing of posts or pools.
#[derive(Clone, Copy, Debug, PartialEq, Eq, Structural)]
pub enum Visibility {
    /// Nobody is logged in: public rows only.
    PublicOnly,
    /// A privileged identity: every row.
    Unrestricted,
    /// An ordinary identity: public rows, and the rows it owns.
    PublicOrOwnedBy(i32),
}

impl Visibility {
    /// Whether a row with this visibility flag and owner may be seen.
    pub open spec fn admits(self, is_public: bool, owner: int) -> bool {
        match self {
            Visibility::PublicOnly => is_public,
            Visibility::Unrestricted => true,
            Visibility::PublicOrOwnedBy(id) => is_public || owner == id,
        }
    }

    /// Decides whether a row with this visibility flag and owner may be seen.
    pub fn allows(&self, is_public: bool, owner_id: i32) -> (seen: bool)
        ensures
            seen == self.admits(is_public, owner_id as int),
    {
        match self {
            Visibility::PublicOnly => is_public,
            Visibility::Unrestricted => true,
            Visibility::PublicOrOwnedBy(id) => is_public || owner_id == *id,
        }
    }
}

/// The restriction that goes with an identity, or with the lack of one.
pub open spec fn visibility_of(user: Option<&User>) -> Visibility {
    match user {
        None => Visibility::PublicOnly,
        Some(user) => if user.is_admin {
            Visibility::Unrestricted
        } else {
            Visibility::PublicOrOwnedBy(user.id)
        },
    }
}

/// Whether an identity may change a row that `owner` owns: its owner may, and so may
/// a privileged identity. Nobody else, and nobody who is not logged in.
pub open spec fn may_edit(user: Option<&User>, owner: int) -> bool {
    match user {
        None => false,
        Some(user) => user.is_admin || user.id == owner,
    }
}

/// Computes the restriction for the acting identity.
pub fn visibility_for(user: Option<&User>) -> (visibility: Visibility)
    ensures
        visibility == visibility_of(user),
{
    match user {
        None => Visibility::PublicOnly,
        Some(user) => if user.is_admin {
            Visibility::Unrestricted
        } else {
            Visibility::PublicOrOwnedBy(user.id)
        },
    }
}

/// Decides whether the acting identity may change a row that `owner_id` owns.
pub fn can_edit(user: Option<&User>, owner_id: i32) -> (allowed: bool)
    ensures
        allowed == may_edit(user, owner_id as int),
{
    match user {
        None => false,
        Some(user) => user.is_admin || user.id == owner_id,
    }
}

/// Decides whether the acting identity may see a single row. A row is hidden from
/// those who may not see it in the same way as a row that does not exist.
pub fn can_view(user: Option<&User>, is_public: bool, owner_id: i32) -> (seen: bool)
    ensures
        seen == (is_public || may_edit(user, owner_id as int)),
        seen == visibility_of(user).admits(is_public, owner_id as int),
{
    is_public || can_edit(user, owner_id)
}

/// Lets a change of a row pass where the acting identity may make it, and refuses
/// it otherwise.
pub fn require_edit(user: Option<&User>, owner_id: i32) -> (allowed: Result<(), SameyError>)
    ensures
        allowed == if may_edit(user, owner_id as int) {
            Ok::<(), SameyError>(())
        } else {
            Err::<(), SameyError>(SameyError::Forbidden)
        },
{
    if can_edit(user, owner_id) {
        Ok(())
    } else {
        Err(SameyError::Forbidden)
    }
}

/// Lets a look at a single row pass where the acting identity may see it. A row
/// that it may not see is reported as missing, so that nothing tells a hidden row
/// from none.
pub fn require_view(user: Option<&User>, is_public: bool, owner_id: i32) -> (allowed: Result<
    (),
    SameyError,
>)
    ensures
        allowed == if visibility_of(user).admits(is_public, owner_id as int) {
            Ok::<(), SameyError>(())
        } else {
            Err::<(), SameyError>(SameyError::NotFound)
        },
{
    if can_view(user, is_public, owner_id) {
        Ok(())
    } else {
        Err(SameyError::NotFound)
    }
}

/// Lets pass what only a privileged identity may do.
pub fn require_admin(user: Option<&User>) -> (allowed: Result<(), SameyError>)
    ensures
        allowed == if user matches Some(user) && user.is_admin {
            Ok::<(), SameyError>(())
        } else {
            Err::<(), SameyError>(SameyError::Forbidden)
        },
{
    match user {
        Some(user) => if user.is_admin {
            Ok(())
        } else {
            Err(SameyError::Forbidden)
        },
        None => Err(SameyError::Forbidden),
    }
}

/// Lets pass what takes an identity, and hands the identity on.
pub fn require_login(user: Option<&User>) -> (identity: Result<&User, SameyError>)
    ensures
        match user {
            Some(user) => identity == Ok::<&User, SameyError>(user),
            None => identity == Err::<&User, SameyError>(SameyError::Forbidden),
        },
{
    match user {
        Some(user) => Ok(user),
        None => Err(SameyError::Forbidden),
    }
}

/// A private row is seen by its owner and by every privileged identity, and by
/// nobody else: not by another ordinary identity, and not without an identity.
pub proof fn lemma_private_row_visibility(owner: User, other: User, admin: User, row_owner: int)
    requires
        owner.id == row_owner,
        other.id != row_owner,
        !other.is_admin,
        admin.is_admin,
    ensures
        visibility_of(Some(&owner)).admits(false, row_owner),
        visibility_of(Some(&admin)).admits(false, row_owner),
        !visibility_of(Some(&other)).admits(false, row_owner),
        !visibility_of(None).admits(false, row_owner),
{
}

/// A public row is seen under every identity and under none.
pub proof fn lemma_public_row_visibility(user: Option<&User>, row_owner: int)
    ensures
        visibility_of(user).admits(true, row_owner),
{
}

/// Whoever may change a row may see it.
pub proof fn lemma_editors_see(user: Option<&User>, is_public: bool, row_owner: int)
    requires
        may_edit(user, row_owner),
    ensures
        visibility_of(user).admits(is_public, row_owner),
{
}

} // verus!
