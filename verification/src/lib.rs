//! The search, ordering and tag-lifecycle core of a small image board.

pub mod auth;
pub mod complete;
pub mod entities;
pub mod error;
pub mod forms;
pub mod lifecycle;
pub mod markup;
pub mod media;
pub mod names;
pub mod numbers;
pub mod pagination;
pub mod pool;
pub mod position;
pub mod predicate;
pub mod query;
pub mod rating;
pub mod search;
pub mod tags;
pub mod text;
pub mod visibility;
