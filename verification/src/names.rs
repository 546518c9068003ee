//! The order of tag names, and the tag text of a post as it is shown: its names in
//! order, with single spaces between them.

use crate::text::{
    ascii_words, chars_of, join_with_space, joined, split_ascii_whitespace, views,
};
use vstd::prelude::*;

verus! {

/// Whether `a` comes before `b` or is `b`, by the code points of their characters
/// from the left; a name comes before any longer name that begins with it.
pub open spec fn precedes(a: Seq<char>, b: Seq<char>) -> bool
    decreases a.len(),
{
    if a.len() == 0 {
        true
    } else if b.len() == 0 {
        false
    } else if a[0] != b[0] {
        a[0] < b[0]
    } else {
        precedes(a.drop_first(), b.drop_first())
    }
}

/// Of two names, one precedes the other.
pub proof fn lemma_precedes_total(a: Seq<char>, b: Seq<char>)
    ensures
        precedes(a, b) || precedes(b, a),
    decreases a.len(),
{
    if a.len() > 0 && b.len() > 0 && a[0] == b[0] {
        lemma_precedes_total(a.drop_first(), b.drop_first());
    }
}

/// What precedes a name precedes everything that the name precedes.
pub proof fn lemma_precedes_transitive(a: Seq<char>, b: Seq<char>, c: Seq<char>)
    requires
        precedes(a, b),
        precedes(b, c),
    ensures
        precedes(a, c),
    decreases a.len(),
{
    if a.len() > 0 {
        if a[0] == b[0] && b[0] == c[0] {
            lemma_precedes_transitive(a.drop_first(), b.drop_first(), c.drop_first());
        }
    }
}

/// Two names that precede each other are one name.
pub proof fn lemma_precedes_antisymmetric(a: Seq<char>, b: Seq<char>)
    requires
        precedes(a, b),
        precedes(b, a),
    ensures
        a == b,
    decreases a.len(),
{
    if a.len() > 0 {
        lemma_precedes_antisymmetric(a.drop_first(), b.drop_first());
        assert(a =~= seq![a[0]] + a.drop_first());
        assert(b =~= seq![b[0]] + b.drop_first());
    } else {
        assert(a =~= b);
    }
}

/// Decides whether `a` comes before `b` or is `b`.
pub fn comes_before(a: &str, b: &str) -> (before: bool)
    ensures
        before == precedes(a@, b@),
{
    let x = chars_of(a);
    let y = chars_of(b);
    let mut i: usize = 0;
    assert(x@.skip(0) == x@ && y@.skip(0) == y@);
    while i < x.len()
        invariant
            i <= x.len(),
            i <= y.len(),
            x@ == a@,
            y@ == b@,
            precedes(x@, y@) == precedes(x@.skip(i as int), y@.skip(i as int)),
        decreases x.len() - i,
    {
        let ghost rest_x = x@.skip(i as int);
        let ghost rest_y = y@.skip(i as int);
        if i >= y.len() {
            assert(rest_y.len() == 0);
            assert(rest_x.len() > 0);
            return false;
        }
        assert(rest_x[0] == x@[i as int] && rest_y[0] == y@[i as int]);
        if x[i] != y[i] {
            return x[i] < y[i];
        }
        assert(rest_x.drop_first() == x@.skip(i + 1));
        assert(rest_y.drop_first() == y@.skip(i + 1));
        i += 1;
    }
    assert(x@.skip(i as int).len() == 0);
    true
}

/// Where a name goes among names in order: behind the last one that precedes it.
pub open spec fn place_of(names: Seq<Seq<char>>, name: Seq<char>) -> int
    decreases names.len(),
{
    if names.len() == 0 {
        0
    } else if precedes(names.last(), name) {
        names.len() as int
    } else {
        place_of(names.drop_last(), name)
    }
}

/// The names in order, each put in its place in turn.
pub open spec fn in_order(names: Seq<Seq<char>>) -> Seq<Seq<char>>
    decreases names.len(),
{
    if names.len() == 0 {
        Seq::empty()
    } else {
        let rest = in_order(names.drop_last());
        rest.insert(place_of(rest, names.last()), names.last())
    }
}

/// No name is followed by one that comes before it.
pub open spec fn ascending(names: Seq<Seq<char>>) -> bool {
    forall|i: int, j: int| 0 <= i < j < names.len() ==> precedes(names[i], names[j])
}

/// The place of a name is behind a name that precedes it, and everything behind
/// the place does not.
pub proof fn lemma_place_of(names: Seq<Seq<char>>, name: Seq<char>)
    ensures
        0 <= place_of(names, name) <= names.len(),
        place_of(names, name) > 0 ==> precedes(names[place_of(names, name) - 1], name),
        forall|k: int| place_of(names, name) <= k < names.len() ==> !precedes(names[k], name),
    decreases names.len(),
{
    if names.len() > 0 && !precedes(names.last(), name) {
        let init = names.drop_last();
        lemma_place_of(init, name);
        assert forall|k: int| place_of(names, name) <= k < names.len() implies !precedes(
            names[k],
            name,
        ) by {
            if k < init.len() {
                assert(init[k] == names[k]);
            }
        }
        if place_of(names, name) > 0 {
            assert(init[place_of(names, name) - 1] == names[place_of(names, name) - 1]);
        }
    }
}

/// A place behind a name that precedes, with nothing that precedes behind it, is
/// the place.
pub proof fn lemma_place_is_unique(names: Seq<Seq<char>>, name: Seq<char>, place: int)
    requires
        0 <= place <= names.len(),
        place > 0 ==> precedes(names[place - 1], name),
        forall|k: int| place <= k < names.len() ==> !precedes(names[k], name),
    ensures
        place_of(names, name) == place,
    decreases names.len(),
{
    if names.len() > 0 && !precedes(names.last(), name) {
        let init = names.drop_last();
        assert(place < names.len());
        assert forall|k: int| place <= k < init.len() implies !precedes(init[k], name) by {
            assert(init[k] == names[k]);
        }
        if place > 0 {
            assert(init[place - 1] == names[place - 1]);
        }
        lemma_place_is_unique(init, name, place);
    } else if names.len() > 0 {
        if place < names.len() {
            assert(!precedes(names[names.len() - 1], name));
        }
    }
}

/// Putting names in order orders them and neither loses nor adds one.
pub proof fn lemma_in_order(names: Seq<Seq<char>>)
    ensures
        ascending(in_order(names)),
        in_order(names).to_multiset() == names.to_multiset(),
        in_order(names).len() == names.len(),
    decreases names.len(),
{
    if names.len() == 0 {
        assert(names =~= Seq::<Seq<char>>::empty());
    } else {
        let init = names.drop_last();
        let last = names.last();
        let rest = in_order(init);
        let place = place_of(rest, last);
        let all = rest.insert(place, last);
        lemma_in_order(init);
        lemma_place_of(rest, last);
        vstd::seq_lib::to_multiset_insert(rest, place, last);
        vstd::seq_lib::to_multiset_build(init, last);
        assert(init.push(last) == names);
        assert forall|i: int, j: int| 0 <= i < j < all.len() implies precedes(all[i], all[j]) by {
            if j < place {
                assert(all[i] == rest[i] && all[j] == rest[j]);
            } else if j == place {
                assert(all[i] == rest[i]);
                if i < place - 1 {
                    assert(precedes(rest[i], rest[place - 1]));
                    lemma_precedes_transitive(rest[i], rest[place - 1], last);
                }
            } else if i < place {
                assert(all[i] == rest[i] && all[j] == rest[j - 1]);
            } else if i == place {
                assert(all[j] == rest[j - 1]);
                assert(!precedes(rest[j - 1], last));
                lemma_precedes_total(last, rest[j - 1]);
            } else {
                assert(all[i] == rest[i - 1] && all[j] == rest[j - 1]);
            }
        }
    }
}

/// Puts names in order.
pub fn sort_names(names: &Vec<String>) -> (sorted: Vec<String>)
    ensures
        views(sorted@) == in_order(views(names@)),
{
    let ghost all = views(names@);
    let mut sorted: Vec<String> = Vec::new();
    let mut i: usize = 0;
    assert(all.take(0) == Seq::<Seq<char>>::empty());
    assert(views(sorted@) == in_order(all.take(0)));
    while i < names.len()
        invariant
            i <= names.len(),
            all == views(names@),
            views(sorted@) == in_order(all.take(i as int)),
            sorted.len() == i,
        decreases names.len() - i,
    {
        let name = names[i].clone();
        let ghost held = views(sorted@);
        let mut place: usize = sorted.len();
        while place > 0 && !comes_before(sorted[place - 1].as_str(), name.as_str())
            invariant
                place <= sorted.len(),
                held == views(sorted@),
                forall|k: int| place <= k < sorted.len() ==> !precedes(held[k], name@),
            decreases place,
        {
            assert(held[place - 1] == sorted@[place - 1]@);
            place -= 1;
        }
        proof {
            if place > 0 {
                assert(held[place - 1] == sorted@[place - 1]@);
            }
            lemma_place_is_unique(held, name@, place as int);
            assert(all.take(i + 1).drop_last() == all.take(i as int));
            assert(all.take(i + 1).last() == name@);
        }
        sorted.insert(place, name);
        proof {
            let grown = views(sorted@);
            let wanted = held.insert(place as int, name@);
            assert(grown.len() == wanted.len());
            assert(grown =~= wanted);
        }
        i += 1;
    }
    assert(all.take(names.len() as int) == all);
    sorted
}

/// The tag text of a post as it is shown: the names in the text, in order, with
/// single spaces between them.
pub fn sorted_tag_text(tags: &str) -> (text: String)
    ensures
        text@ == joined(in_order(ascii_words(tags@)), seq![' ']),
{
    let names = split_ascii_whitespace(tags);
    let sorted = sort_names(&names);
    join_with_space(&sorted)
}

} // verus!
