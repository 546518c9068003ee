//! The query language: every whitespace-separated token of a search is an included
//! tag, an excluded tag, an included rating or an excluded rating, decided by its
//! prefix alone.

use crate::text::{
    chars_of, has_prefix, lowercase, split_whitespace, starts_with_at, string_of, views, words,
};
use vstd::prelude::*;

verus! {

/// Marks a token as an exclusion.
pub const NEGATIVE_PREFIX: &'static str = "-";

/// Marks a token as a rating rather than a tag.
pub const RATING_PREFIX: &'static str = "rating:";

/// The characters of [`NEGATIVE_PREFIX`].
pub open spec fn negative_prefix() -> Seq<char> {
    seq!['-']
}

/// The characters of [`RATING_PREFIX`].
pub open spec fn rating_prefix() -> Seq<char> {
    seq!['r', 'a', 't', 'i', 'n', 'g', ':']
}

/// The four classes of filter token.
#[derive(Clone, Copy, Debug, PartialEq, Eq, Structural)]
pub enum TokenKind {
    IncludeTag,
    ExcludeTag,
    IncludeRating,
    ExcludeRating,
}

/// The class of a normalized token. Only the prefixes decide: a tag that happens to
/// spell a rating value is still a tag.
pub open spec fn token_kind(token: Seq<char>) -> TokenKind {
    if has_prefix(token, negative_prefix()) {
        if has_prefix(token.skip(1), rating_prefix()) {
            TokenKind::ExcludeRating
        } else {
            TokenKind::ExcludeTag
        }
    } else if has_prefix(token, rating_prefix()) {
        TokenKind::IncludeRating
    } else {
        TokenKind::IncludeTag
    }
}

/// What is left of a normalized token once its markers are stripped.
pub open spec fn token_value(token: Seq<char>) -> Seq<char> {
    match token_kind(token) {
        TokenKind::ExcludeRating => token.skip(8),
        TokenKind::ExcludeTag => token.skip(1),
        TokenKind::IncludeRating => token.skip(7),
        TokenKind::IncludeTag => token,
    }
}

/// The characters of the negation marker.
pub fn negative_prefix_chars() -> (v: Vec<char>)
    ensures
        v@ == negative_prefix(),
{
    proof {
        reveal_strlit("-");
    }
    let v = chars_of(NEGATIVE_PREFIX);
    assert(v@ =~= negative_prefix());
    v
}

/// The characters of the rating marker.
pub fn rating_prefix_chars() -> (v: Vec<char>)
    ensures
        v@ == rating_prefix(),
{
    proof {
        reveal_strlit("rating:");
    }
    let v = chars_of(RATING_PREFIX);
    assert(v@ =~= rating_prefix());
    v
}

/// Classifies one normalized token and strips its markers.
pub fn classify(token: &str) -> (r: (TokenKind, String))
    ensures
        r.0 == token_kind(token@),
        r.1@ == token_value(token@),
{
    let v = chars_of(token);
    let negative = negative_prefix_chars();
    let rating = rating_prefix_chars();
    let n = v.len();
    assert(v@.skip(0) == v@);
    if starts_with_at(&v, 0, &negative) {
        if starts_with_at(&v, 1, &rating) {
            assert(v@.skip(1).len() >= 7);
            assert(v@.skip(8) == v@.subrange(8, n as int));
            (TokenKind::ExcludeRating, string_of(&v, 8, n))
        } else {
            assert(v@.skip(1) == v@.subrange(1, n as int));
            (TokenKind::ExcludeTag, string_of(&v, 1, n))
        }
    } else if starts_with_at(&v, 0, &rating) {
        assert(v@.skip(7) == v@.subrange(7, n as int));
        (TokenKind::IncludeRating, string_of(&v, 7, n))
    } else {
        assert(v@ == v@.subrange(0, n as int));
        (TokenKind::IncludeTag, string_of(&v, 0, n))
    }
}

/// Whether `name` occurs among `names`.
pub fn contains_name(names: &Vec<String>, name: &String) -> (found: bool)
    ensures
        found == views(names@).contains(name@),
{
    let mut i: usize = 0;
    while i < names.len()
        invariant
            i <= names.len(),
            forall|k: int| 0 <= k < i ==> views(names@)[k] != name@,
        decreases names.len() - i,
    {
        if names[i] == *name {
            assert(views(names@)[i as int] == name@);
            return true;
        }
        i += 1;
    }
    false
}

/// Adds `name` to `names` unless it is there already.
pub fn insert_unique(names: &mut Vec<String>, name: String)
    requires
        views(old(names)@).no_duplicates(),
    ensures
        views(final(names)@).no_duplicates(),
        views(final(names)@) == if views(old(names)@).contains(name@) {
            views(old(names)@)
        } else {
            views(old(names)@).push(name@)
        },
        views(final(names)@).to_set() == views(old(names)@).to_set().insert(name@),
{
    let ghost before = views(names@);
    if !contains_name(names, &name) {
        names.push(name);
        assert(views(names@) == before.push(name@));
        proof {
            before.lemma_push_to_set_commute(name@);
        }
    } else {
        assert(before.to_set().insert(name@) == before.to_set());
    }
}

/// The filter that a query asks for: four sets of normalized strings.
#[derive(Debug, Clone, PartialEq, Eq)]
pub struct SearchFilter {
    /// Tags that a match carries, every one of them.
    pub include_tags: Vec<String>,
    /// Tags of which a match carries none.
    pub exclude_tags: Vec<String>,
    /// Ratings of which a match has one, unless the set is empty.
    pub include_ratings: Vec<String>,
    /// Ratings of which a match has none.
    pub exclude_ratings: Vec<String>,
}

impl SearchFilter {
    /// The members of the set of class `kind`, in the order in which they are held.
    pub open spec fn names(&self, kind: TokenKind) -> Seq<Seq<char>> {
        match kind {
            TokenKind::IncludeTag => views(self.include_tags@),
            TokenKind::ExcludeTag => views(self.exclude_tags@),
            TokenKind::IncludeRating => views(self.include_ratings@),
            TokenKind::ExcludeRating => views(self.exclude_ratings@),
        }
    }

    /// Each of the four is a set: nothing occurs twice in it.
    pub open spec fn wf(&self) -> bool {
        forall|kind: TokenKind| (#[trigger] self.names(kind)).no_duplicates()
    }

    /// The filter of the empty query, which restricts nothing.
    pub fn new() -> (filter: SearchFilter)
        ensures
            filter.wf(),
            forall|kind: TokenKind| (#[trigger] filter.names(kind)).len() == 0,
    {
        let filter = SearchFilter {
            include_tags: Vec::new(),
            exclude_tags: Vec::new(),
            include_ratings: Vec::new(),
            exclude_ratings: Vec::new(),
        };
        assert forall|kind: TokenKind| (#[trigger] filter.names(kind)).len() == 0 by {}
        filter
    }

    /// Files one normalized token under its class. An empty token is dropped.
    pub fn add_token(&mut self, token: &str)
        requires
            old(self).wf(),
        ensures
            final(self).wf(),
            forall|kind: TokenKind| #[trigger]
                final(self).names(kind) == if token@.len() > 0 && kind == token_kind(token@)
                    && !old(self).names(kind).contains(token_value(token@)) {
                    old(self).names(kind).push(token_value(token@))
                } else {
                    old(self).names(kind)
                },
    {
        if token.is_empty() {
            return ;
        }
        let (kind, value) = classify(token);
        assert(self.names(TokenKind::IncludeTag).no_duplicates());
        assert(self.names(TokenKind::ExcludeTag).no_duplicates());
        assert(self.names(TokenKind::IncludeRating).no_duplicates());
        assert(self.names(TokenKind::ExcludeRating).no_duplicates());
        match kind {
            TokenKind::IncludeTag => insert_unique(&mut self.include_tags, value),
            TokenKind::ExcludeTag => insert_unique(&mut self.exclude_tags, value),
            TokenKind::IncludeRating => insert_unique(&mut self.include_ratings, value),
            TokenKind::ExcludeRating => insert_unique(&mut self.exclude_ratings, value),
        }
        assert forall|k: TokenKind| (#[trigger] self.names(k)).no_duplicates() by {
            match k {
                TokenKind::IncludeTag => {},
                TokenKind::ExcludeTag => {},
                TokenKind::IncludeRating => {},
                TokenKind::ExcludeRating => {},
            }
        }
    }
}

/// The values that the non-empty tokens of class `kind` among `tokens` leave
/// behind, each once, in the order in which they first occur.
pub open spec fn filed(tokens: Seq<Seq<char>>, kind: TokenKind) -> Seq<Seq<char>>
    decreases tokens.len(),
{
    if tokens.len() == 0 {
        Seq::empty()
    } else {
        let before = filed(tokens.drop_last(), kind);
        let token = tokens.last();
        if token.len() > 0 && token_kind(token) == kind && !before.contains(token_value(token)) {
            before.push(token_value(token))
        } else {
            before
        }
    }
}

/// The values that the non-empty tokens of class `kind` among `tokens` leave behind,
/// as a set.
pub open spec fn landed(tokens: Seq<Seq<char>>, kind: TokenKind) -> Set<Seq<char>> {
    Set::new(
        |value: Seq<char>|
            exists|i: int|
                0 <= i < tokens.len() && (#[trigger] tokens[i]).len() > 0 && token_kind(tokens[i])
                    == kind && token_value(tokens[i]) == value,
    )
}

/// What is filed is what landed, and nothing is filed twice.
pub proof fn lemma_filed(tokens: Seq<Seq<char>>, kind: TokenKind)
    ensures
        filed(tokens, kind).no_duplicates(),
        filed(tokens, kind).to_set() == landed(tokens, kind),
    decreases tokens.len(),
{
    let all = filed(tokens, kind);
    if tokens.len() == 0 {
        assert(all.to_set() =~= landed(tokens, kind));
    } else {
        let init = tokens.drop_last();
        let token = tokens.last();
        let before = filed(init, kind);
        lemma_filed(init, kind);
        let lands = token.len() > 0 && token_kind(token) == kind;
        assert forall|value: Seq<char>| landed(tokens, kind).contains(value) <==> (landed(
            init,
            kind,
        ).contains(value) || (lands && token_value(token) == value)) by {
            if landed(init, kind).contains(value) {
                let j = choose|j: int|
                    0 <= j < init.len() && (#[trigger] init[j]).len() > 0 && token_kind(init[j])
                        == kind && token_value(init[j]) == value;
                assert(tokens[j] == init[j]);
            }
            if landed(tokens, kind).contains(value) {
                let j = choose|j: int|
                    0 <= j < tokens.len() && (#[trigger] tokens[j]).len() > 0 && token_kind(
                        tokens[j],
                    ) == kind && token_value(tokens[j]) == value;
                if j < init.len() {
                    assert(init[j] == tokens[j]);
                }
            }
            if lands && token_value(token) == value {
                assert(tokens[tokens.len() - 1] == token);
            }
        }
        if lands && !before.contains(token_value(token)) {
            before.lemma_push_to_set_commute(token_value(token));
            assert(all.to_set() =~= landed(tokens, kind));
        } else {
            assert(all.to_set() =~= landed(tokens, kind));
        }
    }
}

/// A token lands in exactly one of the four sets: in that of its class, as its
/// value, and in no other.
pub proof fn lemma_token_lands_once(token: Seq<char>, kind: TokenKind)
    requires
        token.len() > 0,
    ensures
        landed(seq![token], kind) == if kind == token_kind(token) {
            set![token_value(token)]
        } else {
            Set::<Seq<char>>::empty()
        },
{
    let tokens = seq![token];
    let found = landed(tokens, kind);
    if kind == token_kind(token) {
        assert(tokens[0] == token);
        assert(found.contains(token_value(token)));
        assert(found =~= set![token_value(token)]);
    } else {
        assert(found =~= Set::<Seq<char>>::empty());
    }
}

/// Each token in lowercase.
pub open spec fn normalized(tokens: Seq<Seq<char>>) -> Seq<Seq<char>> {
    Seq::new(tokens.len(), |i: int| lowercase(tokens[i]))
}

/// Builds the filter from tokens that are normalized already.
pub fn filter_of_normalized(tokens: &Vec<String>) -> (filter: SearchFilter)
    ensures
        filter.wf(),
        forall|kind: TokenKind| #[trigger] filter.names(kind) == filed(views(tokens@), kind),
        forall|kind: TokenKind| #[trigger]
            filter.names(kind).to_set() == landed(views(tokens@), kind),
{
    let mut filter = SearchFilter::new();
    let mut i: usize = 0;
    assert(views(tokens@).take(0) == Seq::<Seq<char>>::empty());
    assert forall|kind: TokenKind| #[trigger]
        filter.names(kind) == filed(views(tokens@).take(0), kind) by {
        assert(filter.names(kind).len() == 0);
        assert(filter.names(kind) =~= filed(views(tokens@).take(0), kind));
    }
    while i < tokens.len()
        invariant
            i <= tokens.len(),
            filter.wf(),
            forall|kind: TokenKind| #[trigger]
                filter.names(kind) == filed(views(tokens@).take(i as int), kind),
        decreases tokens.len() - i,
    {
        let ghost before = filter;
        filter.add_token(tokens[i].as_str());
        proof {
            let seen = views(tokens@).take(i as int);
            let next = views(tokens@).take(i + 1);
            assert(next.drop_last() == seen);
            assert(next.last() == tokens@[i as int]@);
            assert forall|kind: TokenKind| #[trigger]
                filter.names(kind) == filed(next, kind) by {
                assert(before.names(kind) == filed(seen, kind));
            }
        }
        i += 1;
    }
    assert(views(tokens@).take(tokens.len() as int) == views(tokens@));
    proof {
        assert forall|kind: TokenKind| #[trigger]
            filter.names(kind).to_set() == landed(views(tokens@), kind) by {
            lemma_filed(views(tokens@), kind);
        }
    }
    filter
}

/// Each of `tokens` in lowercase.
pub fn normalize_tokens(tokens: &Vec<String>) -> (lowered: Vec<String>)
    ensures
        views(lowered@) == normalized(views(tokens@)),
{
    let mut lowered: Vec<String> = Vec::new();
    let mut i: usize = 0;
    while i < tokens.len()
        invariant
            i <= tokens.len(),
            views(lowered@) == normalized(views(tokens@)).take(i as int),
        decreases tokens.len() - i,
    {
        let token = tokens[i].as_str().to_lowercase();
        proof {
            let grown = views(lowered@.push(token));
            let wanted = normalized(views(tokens@)).take(i + 1);
            assert(normalized(views(tokens@)).len() == tokens.len());
            assert(views(lowered@).len() == i);
            assert forall|k: int| 0 <= k < grown.len() implies grown[k] == wanted[k] by {
                if k < i {
                    assert(views(lowered@)[k] == normalized(views(tokens@)).take(i as int)[k]);
                } else {
                    assert(wanted[k] == lowercase(views(tokens@)[k]));
                }
            }
            assert(grown =~= wanted);
        }
        lowered.push(token);
        i += 1;
    }
    assert(normalized(views(tokens@)).take(tokens.len() as int) == normalized(views(tokens@)));
    lowered
}

/// Builds the filter from raw tokens: each is put in lowercase, then filed. A token
/// that is empty is dropped.
pub fn classify_tokens(tokens: &Vec<String>) -> (filter: SearchFilter)
    ensures
        filter.wf(),
        forall|kind: TokenKind| #[trigger]
            filter.names(kind) == filed(normalized(views(tokens@)), kind),
        forall|kind: TokenKind| #[trigger]
            filter.names(kind).to_set() == landed(normalized(views(tokens@)), kind),
{
    let lowered = normalize_tokens(tokens);
    filter_of_normalized(&lowered)
}

/// Parses the text of a query: splits it on whitespace and files every token.
pub fn parse_query(text: &str) -> (filter: SearchFilter)
    ensures
        filter.wf(),
        forall|kind: TokenKind| #[trigger]
            filter.names(kind) == filed(normalized(words(text@)), kind),
        forall|kind: TokenKind| #[trigger]
            filter.names(kind).to_set() == landed(normalized(words(text@)), kind),
{
    let tokens = split_whitespace(text);
    classify_tokens(&tokens)
}

/// The one token of a text that holds exactly one, as the name of a tag to edit
/// must be.
pub fn single_token(text: &str) -> (token: Option<String>)
    ensures
        match token {
            Some(token) => words(text@).len() == 1 && token@ == words(text@)[0],
            None => words(text@).len() != 1,
        },
{
    let tokens = split_whitespace(text);
    assert(views(tokens@).len() == tokens.len());
    if tokens.len() == 1 {
        let token = tokens[0].clone();
        assert(views(tokens@)[0] == tokens@[0]@);
        Some(token)
    } else {
        None
    }
}

/// Whether a word can name a tag: it begins with neither marker of the query
/// language. The word is taken as written.
pub open spec fn is_plain(word: Seq<char>) -> bool {
    !has_prefix(word, negative_prefix()) && !has_prefix(word, rating_prefix())
}

/// Decides whether a word can name a tag.
pub fn word_is_plain(word: &str) -> (plain: bool)
    ensures
        plain == is_plain(word@),
{
    let v = chars_of(word);
    let negative = negative_prefix_chars();
    let rating = rating_prefix_chars();
    assert(v@.skip(0) == v@);
    !starts_with_at(&v, 0, &negative) && !starts_with_at(&v, 0, &rating)
}

/// The distinct words of a text, as written.
pub fn unique_words(text: &str) -> (names: Vec<String>)
    ensures
        views(names@).no_duplicates(),
        views(names@).to_set() == words(text@).to_set(),
{
    let tokens = split_whitespace(text);
    let mut names: Vec<String> = Vec::new();
    let mut i: usize = 0;
    assert(views(tokens@).take(0).to_set() =~= views(names@).to_set());
    while i < tokens.len()
        invariant
            i <= tokens.len(),
            views(names@).no_duplicates(),
            views(names@).to_set() == views(tokens@).take(i as int).to_set(),
        decreases tokens.len() - i,
    {
        let ghost seen = views(tokens@).take(i as int);
        insert_unique(&mut names, tokens[i].clone());
        proof {
            assert(views(tokens@).take(i + 1) == seen.push(tokens@[i as int]@));
            seen.lemma_push_to_set_commute(tokens@[i as int]@);
        }
        i += 1;
    }
    assert(views(tokens@).take(tokens.len() as int) == views(tokens@));
    names
}

/// The distinct words of a text that can name a tag.
pub open spec fn plain_words(text: Seq<char>) -> Set<Seq<char>> {
    Set::new(|word: Seq<char>| words(text).contains(word) && is_plain(word))
}

/// The tag names that the text of an upload gives: its distinct words, as written,
/// but for those that begin with a marker of the query language.
pub fn upload_tag_names(text: &str) -> (names: Vec<String>)
    ensures
        views(names@).no_duplicates(),
        views(names@).to_set() == plain_words(text@),
{
    let tokens = split_whitespace(text);
    let ghost all = views(tokens@);
    let mut names: Vec<String> = Vec::new();
    let mut i: usize = 0;
    assert(views(names@).to_set() =~= Set::new(
        |word: Seq<char>| all.take(0).contains(word) && is_plain(word),
    ));
    while i < tokens.len()
        invariant
            i <= tokens.len(),
            all == views(tokens@),
            views(names@).no_duplicates(),
            views(names@).to_set() == Set::new(
                |word: Seq<char>| all.take(i as int).contains(word) && is_plain(word),
            ),
        decreases tokens.len() - i,
    {
        let ghost seen = all.take(i as int);
        let ghost next = all.take(i + 1);
        let ghost token = tokens@[i as int]@;
        let ghost held = views(names@).to_set();
        let plain = word_is_plain(tokens[i].as_str());
        if plain {
            insert_unique(&mut names, tokens[i].clone());
        }
        proof {
            assert(next == seen.push(token));
            assert forall|word: Seq<char>| next.contains(word) <==> (seen.contains(word) || word
                == token) by {
                if seen.contains(word) {
                    let k = choose|k: int| 0 <= k < seen.len() && seen[k] == word;
                    assert(next[k] == word);
                }
                if next.contains(word) {
                    let k = choose|k: int| 0 <= k < next.len() && next[k] == word;
                    if k < i {
                        assert(seen[k] == word);
                    }
                }
                assert(next[i as int] == token);
            }
            assert(views(names@).to_set() =~= Set::new(
                |word: Seq<char>| next.contains(word) && is_plain(word),
            ));
        }
        i += 1;
    }
    assert(all.take(tokens.len() as int) == all);
    assert(views(names@).to_set() =~= plain_words(text@));
    names
}

} // verus!
