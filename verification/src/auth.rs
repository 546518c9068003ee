//! Who is asking: the identity that a request acts under, and how a login
//! becomes one.

use crate::entities::samey_user::Model;
use vstd::prelude::*;

verus! {

/// An authenticated identity.
#[derive(Debug, Clone, PartialEq, Eq)]
pub struct User {
    pub id: i32,
    pub username: String,
    /// A privileged identity sees and edits everything.
    pub is_admin: bool,
}

/// Whether `password_auth::verify_password` accepts the password for the hash.
pub uninterp spec fn password_verifies(password: Seq<char>, hash: Seq<char>) -> bool;

/// `password_auth::verify_password`: parses the stored hash and checks the password
/// against it with the algorithm that the hash names. The answer depends on the
/// password and the hash alone; a hash that does not parse verifies nothing.
#[verifier::external_body]
fn password_matches(password: &str, hash: &str) -> (accepted: bool)
    ensures
        accepted == password_verifies(password@, hash@),
{
    password_auth::verify_password(password, hash).is_ok()
}

/// Whether `user` is the identity of the row `record`.
pub open spec fn is_identity_of(user: User, record: Model) -> bool {
    user.id == record.id && user.username@ == record.username@ && user.is_admin
        == record.is_admin
}

/// The identity of a user row whose password was checked: none where the check
/// failed.
pub fn user_if_verified(record: Model, verified: bool) -> (user: Option<User>)
    ensures
        match user {
            Some(user) => verified && is_identity_of(user, record),
            None => !verified,
        },
{
    if verified {
        Some(User { id: record.id, username: record.username, is_admin: record.is_admin })
    } else {
        None
    }
}

/// Authenticates a login against the user row that was found under its name, if
/// one was: the identity of that row where the password verifies against the
/// stored hash, and none otherwise.
pub fn authenticate(record: Option<Model>, password: &str) -> (user: Option<User>)
    ensures
        match user {
            Some(user) => record matches Some(record) && password_verifies(
                password@,
                record.password@,
            ) && is_identity_of(user, record),
            None => record matches Some(record) ==> !password_verifies(
                password@,
                record.password@,
            ),
        },
{
    match record {
        None => None,
        Some(record) => {
            let verified = password_matches(password, record.password.as_str());
            user_if_verified(record, verified)
        },
    }
}

/// The identity of a user row, as a session carries it.
pub fn identity_of(record: Model) -> (user: User)
    ensures
        is_identity_of(user, record),
{
    User { id: record.id, username: record.username, is_admin: record.is_admin }
}

/// Whether a session that expires at `expiry` is still good at `now`, both in
/// seconds since the Unix epoch. A session is good strictly before it expires.
pub fn session_is_live(expiry: i64, now: i64) -> (live: bool)
    ensures
        live == (expiry > now),
{
    expiry > now
}

} // verus!
