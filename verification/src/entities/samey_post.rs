//! Posts: the content items of the board.

use crate::auth::User;
use crate::rating::{rating_of, Rating};
use crate::visibility::{can_edit, can_view, may_edit, visibility_of};
use vstd::prelude::*;

verus! {

/// A row of the post table.
#[derive(Clone, Debug, PartialEq, Eq)]
pub struct Model {
    pub id: i32,
    pub uploader_id: i32,
    pub media: String,
    pub media_type: String,
    pub width: i32,
    pub height: i32,
    pub thumbnail: String,
    pub thumbnail_width: i32,
    pub thumbnail_height: i32,
    pub title: Option<String>,
    pub description: Option<String>,
    pub is_public: bool,
    /// The code of the rating.
    pub rating: String,
    /// Seconds since the Unix epoch, in UTC.
    pub uploaded_at: i64,
    /// The post that this one derives from, if any.
    pub parent_id: Option<i32>,
}

impl Model {
    /// Whether the acting identity may change or delete the post.
    pub fn editable_by(&self, user: Option<&User>) -> (allowed: bool)
        ensures
            allowed == may_edit(user, self.uploader_id as int),
    {
        can_edit(user, self.uploader_id)
    }

    /// Whether the acting identity may see the post.
    pub fn visible_to(&self, user: Option<&User>) -> (seen: bool)
        ensures
            seen == visibility_of(user).admits(self.is_public, self.uploader_id as int),
    {
        can_view(user, self.is_public, self.uploader_id)
    }

    /// The rating of the post.
    pub fn rating(&self) -> (rating: Rating)
        ensures
            rating == rating_of(self.rating@),
    {
        Rating::from_code(self.rating.as_str())
    }
}

} // verus!
