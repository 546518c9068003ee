//! Pools: named, owned, ordered collections of posts.

use crate::auth::User;
use crate::visibility::{can_edit, can_view, may_edit, visibility_of};
use vstd::prelude::*;

verus! {

/// A row of the pool table.
#[derive(Clone, Debug, PartialEq, Eq)]
pub struct Model {
    pub id: i32,
    pub name: String,
    pub uploader_id: i32,
    pub is_public: bool,
}

impl Model {
    /// Whether the acting identity may change the pool: rename it, hide it, add to
    /// it, reorder it or delete it.
    pub fn editable_by(&self, user: Option<&User>) -> (allowed: bool)
        ensures
            allowed == may_edit(user, self.uploader_id as int),
    {
        can_edit(user, self.uploader_id)
    }

    /// Whether the acting identity may see the pool.
    pub fn visible_to(&self, user: Option<&User>) -> (seen: bool)
        ensures
            seen == visibility_of(user).admits(self.is_public, self.uploader_id as int),
    {
        can_view(user, self.is_public, self.uploader_id)
    }
}

} // verus!
