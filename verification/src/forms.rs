//! What the fields of a form come to before they are stored.

use crate::error::SameyError;
use crate::text::{append_non_empty, chars_of, string_of, trim_range, trimmed, views, without_empty};
use vstd::prelude::*;

verus! {

/// A title or a description as it is stored: the field without the whitespace
/// around it, and nothing at all where that leaves nothing.
pub open spec fn optional_text_of(field: Seq<char>) -> Option<Seq<char>> {
    if trimmed(field).len() == 0 {
        None
    } else {
        Some(trimmed(field))
    }
}

/// Trims a field, and drops it where nothing is left.
pub fn optional_text(field: &str) -> (text: Option<String>)
    ensures
        match text {
            Some(text) => optional_text_of(field@) == Some(text@),
            None => optional_text_of(field@) is None,
        },
{
    let v = chars_of(field);
    assert(v@.subrange(0, v.len() as int) == v@);
    let (from, to) = trim_range(&v, 0, v.len());
    if from == to {
        None
    } else {
        Some(string_of(&v, from, to))
    }
}

/// Checks the name that a pool is to get: it may not be blank.
pub fn check_pool_name(name: &str) -> (checked: Result<(), SameyError>)
    ensures
        match checked {
            Ok(_) => trimmed(name@).len() > 0,
            Err(error) => trimmed(name@).len() == 0 && (error matches SameyError::BadRequest(reason)
                && reason@ == "Pool name cannot be empty"@),
        },
{
    let v = chars_of(name);
    assert(v@.subrange(0, v.len() as int) == v@);
    let (from, to) = trim_range(&v, 0, v.len());
    if from == to {
        let mut reason = String::new();
        crate::text::push_chars(&mut reason, "Pool name cannot be empty");
        assert(reason@ =~= "Pool name cannot be empty"@);
        Err(SameyError::BadRequest(reason))
    } else {
        Ok(())
    }
}

/// The sources of a post as they are stored: those that were filled in, in order.
pub fn kept_sources(sources: &Vec<String>) -> (kept: Vec<String>)
    ensures
        views(kept@) == without_empty(views(sources@)),
{
    let mut kept: Vec<String> = Vec::new();
    assert(views(kept@) == Seq::<Seq<char>>::empty());
    append_non_empty(&mut kept, sources, sources.len());
    assert(views(sources@).take(sources.len() as int) == views(sources@));
    kept
}

} // verus!
