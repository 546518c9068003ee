//! The position allocator: where in the order of a pool a member goes when it is
//! appended or moved. A move rewrites one key and never renumbers the pool: the new
//! key is taken from the gap between the two neighbours at the destination.

use crate::error::SameyError;
use vstd::prelude::*;

verus! {

/// The key below the gap that a moved member goes into.
#[derive(Clone, Copy, Debug, PartialEq, Eq, Structural)]
pub enum LowerBound {
    /// The start of the scale, below every member.
    Origin,
    /// The key of the member at this index of the current order.
    PositionOf(usize),
}

/// The key above the gap that a moved member goes into.
#[derive(Clone, Copy, Debug, PartialEq, Eq, Structural)]
pub enum UpperBound {
    /// The key of the member at this index of the current order.
    PositionOf(usize),
    /// Two whole steps above the key of the member at this index, which is the last.
    PastLast(usize),
}

/// One move: which member gets a new key, and the two bounds whose midpoint is
/// the new key.
#[derive(Clone, Copy, Debug, PartialEq, Eq, Structural)]
pub struct MovePlan {
    pub moved: usize,
    pub lower: LowerBound,
    pub upper: UpperBound,
}

/// The lower bound for a move from `source` to `destination`.
pub open spec fn lower_bound_of(source: int, destination: int) -> LowerBound {
    if destination < source {
        if destination == 0 {
            LowerBound::Origin
        } else {
            LowerBound::PositionOf((destination - 1) as usize)
        }
    } else {
        LowerBound::PositionOf(destination as usize)
    }
}

/// The upper bound for a move from `source` to `destination` in a pool of `len`
/// members.
pub open spec fn upper_bound_of(len: int, source: int, destination: int) -> UpperBound {
    if destination == len - 1 {
        UpperBound::PastLast((len - 1) as usize)
    } else if destination < source {
        UpperBound::PositionOf(destination as usize)
    } else {
        UpperBound::PositionOf((destination + 1) as usize)
    }
}

/// What a request to move the member at `source` to `destination` comes to, in a
/// pool of `len` members: nothing where the two are the same, a failure where
/// either lies outside the pool, and else a plan.
pub open spec fn move_outcome(len: int, source: int, destination: int) -> Result<
    Option<MovePlan>,
    SameyError,
> {
    if source == destination {
        Ok(None)
    } else if source >= len || destination >= len {
        Err(SameyError::NotFound)
    } else {
        Ok(
            Some(
                MovePlan {
                    moved: source as usize,
                    lower: lower_bound_of(source, destination),
                    upper: upper_bound_of(len, source, destination),
                },
            ),
        )
    }
}

/// Plans the move of the member at index `old_index` of a pool's current order to
/// index `new_index`.
pub fn plan_move(len: usize, old_index: usize, new_index: usize) -> (outcome: Result<
    Option<MovePlan>,
    SameyError,
>)
    ensures
        outcome == move_outcome(len as int, old_index as int, new_index as int),
{
    if old_index == new_index {
        return Ok(None);
    }
    if old_index >= len || new_index >= len {
        return Err(SameyError::NotFound);
    }
    let lower = if new_index < old_index {
        if new_index == 0 {
            LowerBound::Origin
        } else {
            LowerBound::PositionOf(new_index - 1)
        }
    } else {
        LowerBound::PositionOf(new_index)
    };
    let upper = if new_index == len - 1 {
        UpperBound::PastLast(len - 1)
    } else if new_index < old_index {
        UpperBound::PositionOf(new_index)
    } else {
        UpperBound::PositionOf(new_index + 1)
    };
    Ok(Some(MovePlan { moved: old_index, lower, upper }))
}

/// The whole part of the key that an appended member gets: one above the whole
/// part of the greatest key in the pool, and one in an empty pool. Taking the whole
/// part keeps fractions from piling up over repeated appends.
pub open spec fn next_whole_of(greatest_whole: Option<i64>) -> int {
    match greatest_whole {
        None => 1,
        Some(whole) => if whole == i64::MAX {
            whole as int
        } else {
            whole + 1
        },
    }
}

/// Computes the key for a member appended to a pool, from the whole part of the
/// greatest key there, if there is one. At the end of the scale the key stays.
pub fn next_whole_position(greatest_whole: Option<i64>) -> (next: i64)
    ensures
        next == next_whole_of(greatest_whole),
{
    match greatest_whole {
        None => 1,
        Some(whole) => if whole == i64::MAX {
            whole
        } else {
            whole + 1
        },
    }
}

/// Keys in strictly ascending order, all above the origin.
pub open spec fn ascending(keys: Seq<int>) -> bool {
    &&& forall|i: int, j: int| 0 <= i < j < keys.len() ==> keys[i] < keys[j]
    &&& forall|i: int| 0 <= i < keys.len() ==> 0 < keys[i]
}

impl LowerBound {
    /// The value of the bound in a pool with these keys.
    pub open spec fn value(self, keys: Seq<int>) -> int {
        match self {
            LowerBound::Origin => 0,
            LowerBound::PositionOf(index) => keys[index as int],
        }
    }
}

impl UpperBound {
    /// The value of the bound in a pool with these keys, in which one whole step
    /// has the length `step`.
    pub open spec fn value(self, keys: Seq<int>, step: int) -> int {
        match self {
            UpperBound::PositionOf(index) => keys[index as int],
            UpperBound::PastLast(index) => keys[index as int] + 2 * step,
        }
    }
}

/// The gap of a planned move is not empty, and it is the gap at the destination:
/// whatever key is taken from strictly inside it, the pool's order afterwards is
/// the old order with the moved member taken out and put back at the destination
/// index. This holds of exact keys; it says nothing of keys that were rounded.
pub proof fn lemma_move_lands_at_destination(
    keys: Seq<int>,
    step: int,
    source: int,
    destination: int,
    key: int,
)
    requires
        ascending(keys),
        step > 0,
        0 <= source < keys.len() <= usize::MAX,
        0 <= destination < keys.len(),
        source != destination,
        lower_bound_of(source, destination).value(keys) < key < upper_bound_of(
            keys.len() as int,
            source,
            destination,
        ).value(keys, step),
    ensures
        lower_bound_of(source, destination).value(keys) < upper_bound_of(
            keys.len() as int,
            source,
            destination,
        ).value(keys, step),
        ascending(keys.remove(source).insert(destination, key)),
{
    let rest = keys.remove(source);
    let after = rest.insert(destination, key);
    assert forall|k: int| 0 <= k < rest.len() implies rest[k] == if k < source {
        keys[k]
    } else {
        keys[k + 1]
    } by {}
    assert forall|i: int, j: int| 0 <= i < j < rest.len() implies rest[i] < rest[j] by {}
    assert forall|k: int| 0 <= k < destination implies rest[k] < key by {
        if destination < source {
            assert(rest[k] <= keys[destination - 1]);
        } else {
            assert(rest[k] <= keys[destination]);
        }
    }
    assert forall|k: int| destination <= k < rest.len() implies key < rest[k] by {
        if destination < source {
            assert(keys[destination] <= rest[k]);
        } else {
            assert(keys[destination + 1] <= rest[k]);
        }
    }
    assert forall|i: int, j: int| 0 <= i < j < after.len() implies after[i] < after[j] by {
        if j < destination {
            assert(after[i] == rest[i] && after[j] == rest[j]);
        } else if j == destination {
            assert(after[i] == rest[i]);
        } else if i < destination {
            assert(after[i] == rest[i] && after[j] == rest[j - 1]);
        } else if i == destination {
            assert(after[j] == rest[j - 1]);
        } else {
            assert(after[i] == rest[i - 1] && after[j] == rest[j - 1]);
        }
    }
    assert forall|i: int| 0 <= i < after.len() implies 0 < after[i] by {
        if i < destination {
            assert(after[i] == rest[i]);
        } else if i > destination {
            assert(after[i] == rest[i - 1]);
        }
    }
}

/// The midpoint of the bounds of a planned move lies strictly inside the gap,
/// where keys are exact and even so that halving loses nothing.
pub proof fn lemma_midpoint_is_inside(keys: Seq<int>, step: int, source: int, destination: int)
    requires
        ascending(keys),
        step > 0,
        0 <= source < keys.len() <= usize::MAX,
        0 <= destination < keys.len(),
        source != destination,
    ensures
        ({
            let lower = lower_bound_of(source, destination).value(keys);
            let upper = upper_bound_of(keys.len() as int, source, destination).value(keys, step);
            lower < upper && 2 * lower < lower + upper < 2 * upper
        }),
{
}

/// The identifiers before and after the member at `index` of a pool's order, where
/// there are any.
pub fn neighbours(ids: &Vec<i32>, index: usize) -> (around: (Option<i32>, Option<i32>))
    ensures
        around.0 == if 1 <= index <= ids.len() {
            Some(ids@[index - 1])
        } else {
            None
        },
        around.1 == if index + 1 < ids.len() {
            Some(ids@[index + 1])
        } else {
            None
        },
{
    let previous = if index >= 1 && index - 1 < ids.len() {
        Some(ids[index - 1])
    } else {
        None
    };
    let next = if index < ids.len() && index + 1 < ids.len() {
        Some(ids[index + 1])
    } else {
        None
    };
    (previous, next)
}

} // verus!
