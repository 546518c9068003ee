//! The rows of the storage layer, as far as the rules read them.

pub mod samey_pool;
pub mod samey_post;
pub mod samey_user;
