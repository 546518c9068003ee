//! Interactive help with a query: what to offer for the token that is being typed,
//! and how a chosen offer is put into the text. Nothing here runs a search.

use crate::tags::{negative_prefix, negative_prefix_chars, rating_prefix, rating_prefix_chars};
use crate::text::{
    append_non_empty, chars_of, has_prefix, join_with_space, joined, lowercase, push_chars, split,
    split_on, starts_with_at, string_of, trim_range, trimmed, views, without_empty,
};
use vstd::prelude::*;

verus! {

/// One offer: what is shown, and what is put into the query when it is chosen.
#[derive(Debug, Clone, PartialEq, Eq)]
pub struct SearchTag {
    pub name: String,
    pub value: String,
}

impl View for SearchTag {
    type V = (Seq<char>, Seq<char>);

    open spec fn view(&self) -> (Seq<char>, Seq<char>) {
        (self.name@, self.value@)
    }
}

/// The offers of a list, each as its name and its value.
pub open spec fn offers(list: Seq<SearchTag>) -> Seq<(Seq<char>, Seq<char>)> {
    Seq::new(list.len(), |i: int| list[i]@)
}

/// What kind of completion the token being typed calls for.
pub enum CompletionView {
    /// Nothing is being typed.
    Nothing,
    /// A rating: offer the rating values that begin with what was typed.
    Ratings { negated: bool, typed: Seq<char> },
    /// A tag: offer the tags whose name begins with the stem.
    Tags { negated: bool, stem: Seq<char> },
}

/// What kind of completion the token being typed calls for.
#[derive(Debug, Clone, PartialEq, Eq)]
pub enum Completion {
    /// Nothing is being typed.
    Nothing,
    /// A rating: offer the rating values that begin with what was typed.
    Ratings { negated: bool, typed: String },
    /// A tag: offer the tags whose name begins with the stem.
    Tags { negated: bool, stem: String },
}

impl View for Completion {
    type V = CompletionView;

    open spec fn view(&self) -> CompletionView {
        match self {
            Completion::Nothing => CompletionView::Nothing,
            Completion::Ratings { negated, typed } => CompletionView::Ratings {
                negated: *negated,
                typed: typed@,
            },
            Completion::Tags { negated, stem } => CompletionView::Tags {
                negated: *negated,
                stem: stem@,
            },
        }
    }
}

/// The token that is being typed: what follows the last space of the text before
/// the caret, without the whitespace around it.
pub open spec fn current_token(before: Seq<char>) -> Seq<char> {
    trimmed(split_on(before, ' ').last())
}

/// The completion that a normalized token calls for, by the same prefixes that
/// classify the tokens of a search.
pub open spec fn completion_of(token: Seq<char>) -> CompletionView {
    if token.len() == 0 {
        CompletionView::Nothing
    } else if has_prefix(token, negative_prefix()) {
        if has_prefix(token.skip(1), rating_prefix()) {
            CompletionView::Ratings { negated: true, typed: token.skip(1) }
        } else {
            CompletionView::Tags { negated: true, stem: token.skip(1) }
        }
    } else if has_prefix(token, rating_prefix()) {
        CompletionView::Ratings { negated: false, typed: token }
    } else {
        CompletionView::Tags { negated: false, stem: token }
    }
}

/// The token that is being typed in the text before the caret.
pub fn token_before_caret(before: &str) -> (token: String)
    ensures
        token@ == current_token(before@),
{
    let pieces = split(before, ' ');
    let last = chars_of(pieces[pieces.len() - 1].as_str());
    assert(last@ == split_on(before@, ' ').last()) by {
        assert(views(pieces@)[pieces.len() - 1] == pieces@[pieces.len() - 1]@);
    }
    assert(last@.subrange(0, last.len() as int) == last@);
    let (from, to) = trim_range(&last, 0, last.len());
    string_of(&last, from, to)
}

/// Decides what a normalized token calls for.
pub fn completion_for(token: &str) -> (completion: Completion)
    ensures
        completion@ == completion_of(token@),
{
    let chars = chars_of(token);
    let n = chars.len();
    if n == 0 {
        return Completion::Nothing;
    }
    let negative = negative_prefix_chars();
    let rating = rating_prefix_chars();
    assert(chars@.skip(0) == chars@);
    if starts_with_at(&chars, 0, &negative) {
        assert(chars@.skip(1) == chars@.subrange(1, n as int));
        let rest = string_of(&chars, 1, n);
        if starts_with_at(&chars, 1, &rating) {
            Completion::Ratings { negated: true, typed: rest }
        } else {
            Completion::Tags { negated: true, stem: rest }
        }
    } else {
        assert(chars@.subrange(0, n as int) == chars@);
        let whole = string_of(&chars, 0, n);
        if starts_with_at(&chars, 0, &rating) {
            Completion::Ratings { negated: false, typed: whole }
        } else {
            Completion::Tags { negated: false, stem: whole }
        }
    }
}

/// Decides what the text before the caret calls for. The token being typed is
/// put in lowercase and then classified as the tokens of a search are, so that
/// what is typed of a rating or of a tag comes back in lowercase, ready to be
/// matched.
pub fn completion_request(before: &str) -> (completion: Completion)
    ensures
        completion@ == completion_of(lowercase(current_token(before@))),
{
    let token = token_before_caret(before);
    let lowered = token.as_str().to_lowercase();
    completion_for(lowered.as_str())
}

/// The four rating values with their marker, in the order in which they are offered.
pub open spec fn rating_candidates() -> Seq<Seq<char>> {
    seq![
        rating_prefix().push('u'),
        rating_prefix().push('s'),
        rating_prefix().push('q'),
        rating_prefix().push('e'),
    ]
}

/// What is put into the query for an offer with this name.
pub open spec fn offer_value(negated: bool, name: Seq<char>) -> Seq<char> {
    if negated {
        negative_prefix() + name
    } else {
        name
    }
}

/// The offers for those of `names` that begin with `typed`, in order.
pub open spec fn offers_beginning(names: Seq<Seq<char>>, negated: bool, typed: Seq<char>) -> Seq<
    (Seq<char>, Seq<char>),
>
    decreases names.len(),
{
    if names.len() == 0 {
        Seq::empty()
    } else if has_prefix(names.last(), typed) {
        offers_beginning(names.drop_last(), negated, typed).push(
            (names.last(), offer_value(negated, names.last())),
        )
    } else {
        offers_beginning(names.drop_last(), negated, typed)
    }
}

/// The offers for all of `names`, in order.
pub open spec fn offers_for(names: Seq<Seq<char>>, negated: bool) -> Seq<(Seq<char>, Seq<char>)> {
    Seq::new(names.len(), |i: int| (names[i], offer_value(negated, names[i])))
}

fn offer(negated: bool, name: &str) -> (made: SearchTag)
    ensures
        made@ == (name@, offer_value(negated, name@)),
{
    let mut value = String::new();
    if negated {
        proof {
            reveal_strlit("-");
        }
        push_chars(&mut value, "-");
        assert(value@ =~= negative_prefix());
    }
    push_chars(&mut value, name);
    let mut shown = String::new();
    push_chars(&mut shown, name);
    assert(shown@ =~= name@);
    assert(value@ =~= offer_value(negated, name@));
    SearchTag { name: shown, value }
}

/// The rating values to offer for what was typed of a rating.
pub fn rating_completions(negated: bool, typed: &str) -> (list: Vec<SearchTag>)
    ensures
        offers(list@) == offers_beginning(rating_candidates(), negated, typed@),
{
    let typed_chars = chars_of(typed);
    let mut list: Vec<SearchTag> = Vec::new();
    let codes: [char; 4] = ['u', 's', 'q', 'e'];
    let mut i: usize = 0;
    assert(rating_candidates().take(0) == Seq::<Seq<char>>::empty());
    assert(offers(list@) == offers_beginning(rating_candidates().take(0), negated, typed@));
    while i < 4
        invariant
            i <= 4,
            codes@ == seq!['u', 's', 'q', 'e'],
            typed_chars@ == typed@,
            offers(list@) == offers_beginning(rating_candidates().take(i as int), negated, typed@),
        decreases 4 - i,
    {
        let mut candidate = rating_prefix_chars();
        candidate.push(codes[i]);
        let ghost seen = rating_candidates().take(i as int);
        let ghost next = rating_candidates().take(i + 1);
        proof {
            assert(next.drop_last() == seen);
            assert(next.last() == rating_candidates()[i as int]);
            assert(candidate@ == rating_candidates()[i as int]);
            assert(candidate@.skip(0) == candidate@);
        }
        if starts_with_at(&candidate, 0, &typed_chars) {
            let name = string_of(&candidate, 0, candidate.len());
            assert(name@ == candidate@) by {
                assert(candidate@.subrange(0, candidate.len() as int) == candidate@);
            }
            let made = offer(negated, name.as_str());
            assert(offers(list@.push(made)) == offers(list@).push(made@));
            list.push(made);
        }
        i += 1;
    }
    assert(rating_candidates().take(4) == rating_candidates());
    list
}

/// The offers for the tag names that the storage found for a stem.
pub fn tag_completions(negated: bool, names: &Vec<String>) -> (list: Vec<SearchTag>)
    ensures
        offers(list@) == offers_for(views(names@), negated),
{
    let mut list: Vec<SearchTag> = Vec::new();
    let mut i: usize = 0;
    while i < names.len()
        invariant
            i <= names.len(),
            offers(list@) == offers_for(views(names@), negated).take(i as int),
        decreases names.len() - i,
    {
        let made = offer(negated, names[i].as_str());
        proof {
            let grown = offers(list@.push(made));
            let wanted = offers_for(views(names@), negated).take(i + 1);
            assert(offers(list@).len() == i);
            assert forall|k: int| 0 <= k < grown.len() implies grown[k] == wanted[k] by {
                if k < i {
                    assert(offers(list@)[k] == offers_for(views(names@), negated).take(i as int)[k]);
                }
            }
            assert(grown =~= wanted);
        }
        list.push(made);
        i += 1;
    }
    assert(offers_for(views(names@), negated).take(names.len() as int) == offers_for(
        views(names@),
        negated,
    ));
    list
}

/// The query after an offer was chosen: the tokens before the one being typed,
/// the chosen value in its place, the tokens after the caret, each followed by a
/// single space.
pub open spec fn text_with_choice(before: Seq<char>, after: Seq<char>, chosen: Seq<char>) -> Seq<
    char,
> {
    joined(
        without_empty(split_on(before, ' ').drop_last()) + seq![chosen] + without_empty(
            split_on(after, ' '),
        ),
        seq![' '],
    ) + seq![' ']
}

/// Puts the chosen value in the place of the token being typed. `before` and
/// `after` are the text on the two sides of the caret.
pub fn select_tag(before: &str, after: &str, new_tag: &str) -> (text: String)
    ensures
        text@ == text_with_choice(before@, after@, new_tag@),
{
    let head = split(before, ' ');
    let tail = split(after, ' ');
    let mut parts: Vec<String> = Vec::new();
    assert(views(parts@) == Seq::<Seq<char>>::empty());
    append_non_empty(&mut parts, &head, head.len() - 1);
    assert(views(head@).take(head.len() - 1) == split_on(before@, ' ').drop_last());
    let mut chosen = String::new();
    push_chars(&mut chosen, new_tag);
    assert(chosen@ =~= new_tag@);
    assert(views(parts@.push(chosen)) == views(parts@).push(chosen@));
    parts.push(chosen);
    append_non_empty(&mut parts, &tail, tail.len());
    assert(views(tail@).take(tail.len() as int) == split_on(after@, ' '));
    let mut text = join_with_space(&parts);
    text.push(' ');
    assert(views(parts@) == without_empty(split_on(before@, ' ').drop_last()) + seq![new_tag@]
        + without_empty(split_on(after@, ' ')));
    text
}

} // verus!
