//! Users.

use vstd::prelude::*;

verus! {

/// A row of the user table.
#[derive(Clone, Debug, PartialEq, Eq)]
pub struct Model {
    pub id: i32,
    pub username: String,
    /// The hash of the password, never the password.
    pub password: String,
    pub is_admin: bool,
}

} // verus!
