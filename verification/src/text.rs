//! Character-level helpers for query text: splitting, trimming, prefixes and
//! joining, all stated over sequences of characters.

use vstd::prelude::*;

verus! {

/// What `str::to_lowercase` returns for a string with these characters.
pub uninterp spec fn lowercase(s: Seq<char>) -> Seq<char>;

/// `str::to_lowercase`: the Unicode lowercase form of the string, which depends on
/// nothing but the string.
pub assume_specification[ str::to_lowercase ](s: &str) -> (lowered: String)
    ensures
        lowered@ == lowercase(s@),
;

/// `String::push`: appends one character to the end of the string.
pub assume_specification[ String::push ](s: &mut String, c: char)
    ensures
        final(s)@ == old(s)@.push(c),
;

/// The character sequences of a sequence of strings.
pub open spec fn views(v: Seq<String>) -> Seq<Seq<char>> {
    Seq::new(v.len(), |i: int| v[i]@)
}

/// Unicode `White_Space`, the characters on which a query is split.
pub open spec fn is_whitespace(c: char) -> bool {
    ||| '\u{9}' <= c <= '\u{D}'
    ||| c == ' '
    ||| c == '\u{85}'
    ||| c == '\u{A0}'
    ||| c == '\u{1680}'
    ||| '\u{2000}' <= c <= '\u{200A}'
    ||| c == '\u{2028}'
    ||| c == '\u{2029}'
    ||| c == '\u{202F}'
    ||| c == '\u{205F}'
    ||| c == '\u{3000}'
}

/// Whether `c` separates the words of a query.
pub fn char_is_whitespace(c: char) -> (b: bool)
    ensures
        b == is_whitespace(c),
{
    ('\u{9}' <= c && c <= '\u{D}') || c == ' ' || c == '\u{85}' || c == '\u{A0}' || c
        == '\u{1680}' || ('\u{2000}' <= c && c <= '\u{200A}') || c == '\u{2028}' || c
        == '\u{2029}' || c == '\u{202F}' || c == '\u{205F}' || c == '\u{3000}'
}

/// The whitespace of ASCII, as `u8::is_ascii_whitespace` has it.
pub open spec fn is_ascii_whitespace(c: char) -> bool {
    c == ' ' || c == '\t' || c == '\n' || c == '\u{C}' || c == '\r'
}

/// Which characters separate words.
#[derive(Clone, Copy, Debug, PartialEq, Eq, Structural)]
pub enum Spacing {
    /// Every character of Unicode `White_Space`.
    Unicode,
    /// The whitespace of ASCII only.
    Ascii,
}

/// Whether `c` separates words under `spacing`.
pub open spec fn separates(spacing: Spacing, c: char) -> bool {
    match spacing {
        Spacing::Unicode => is_whitespace(c),
        Spacing::Ascii => is_ascii_whitespace(c),
    }
}

/// Decides whether `c` separates words under `spacing`.
pub fn char_separates(spacing: Spacing, c: char) -> (b: bool)
    ensures
        b == separates(spacing, c),
{
    match spacing {
        Spacing::Unicode => char_is_whitespace(c),
        Spacing::Ascii => c == ' ' || c == '\t' || c == '\n' || c == '\u{C}' || c == '\r',
    }
}

/// The length of the longest prefix of `s` that holds no separator.
pub open spec fn word_len(s: Seq<char>, spacing: Spacing) -> nat
    decreases s.len(),
{
    if s.len() == 0 || separates(spacing, s[0]) {
        0
    } else {
        1 + word_len(s.drop_first(), spacing)
    }
}

/// The maximal runs of characters of `s` that hold no separator, in order. None is
/// empty.
pub open spec fn words_by(s: Seq<char>, spacing: Spacing) -> Seq<Seq<char>>
    decreases s.len(),
    via words_by_decreases
{
    if s.len() == 0 {
        Seq::empty()
    } else if separates(spacing, s[0]) {
        words_by(s.drop_first(), spacing)
    } else {
        seq![s.take(word_len(s, spacing) as int)] + words_by(
            s.skip(word_len(s, spacing) as int),
            spacing,
        )
    }
}

#[via_fn]
proof fn words_by_decreases(s: Seq<char>, spacing: Spacing) {
    lemma_word_len_bounds(s, spacing);
}

/// The maximal runs of non-whitespace characters of `s`, in order.
pub open spec fn words(s: Seq<char>) -> Seq<Seq<char>> {
    words_by(s, Spacing::Unicode)
}

/// The maximal runs of characters of `s` that hold no ASCII whitespace, in order.
pub open spec fn ascii_words(s: Seq<char>) -> Seq<Seq<char>> {
    words_by(s, Spacing::Ascii)
}

/// A prefix of `n` characters that are no separators and that ends at a separator
/// or at the end of `s` is the first word of `s`.
pub proof fn lemma_word_len(s: Seq<char>, spacing: Spacing, n: int)
    requires
        0 <= n <= s.len(),
        forall|k: int| 0 <= k < n ==> !separates(spacing, #[trigger] s[k]),
        n == s.len() || separates(spacing, s[n]),
    ensures
        word_len(s, spacing) == n,
    decreases n,
{
    if n > 0 {
        let t = s.drop_first();
        assert forall|k: int| 0 <= k < n - 1 implies !separates(spacing, #[trigger] t[k]) by {
            assert(t[k] == s[k + 1]);
        }
        lemma_word_len(t, spacing, n - 1);
    }
}

/// A non-empty run of characters that holds no separator.
pub open spec fn is_word(w: Seq<char>, spacing: Spacing) -> bool {
    w.len() > 0 && forall|k: int| 0 <= k < w.len() ==> !separates(spacing, #[trigger] w[k])
}

/// Every word of a string is non-empty and free of separators.
pub proof fn lemma_words_are_words(s: Seq<char>, spacing: Spacing)
    ensures
        forall|i: int|
            0 <= i < words_by(s, spacing).len() ==> is_word(
                #[trigger] words_by(s, spacing)[i],
                spacing,
            ),
    decreases s.len(),
{
    if s.len() == 0 {
        assert(words_by(s, spacing).len() == 0);
    } else if separates(spacing, s[0]) {
        lemma_words_are_words(s.drop_first(), spacing);
        assert(words_by(s, spacing) == words_by(s.drop_first(), spacing));
    } else {
        let n = word_len(s, spacing) as int;
        lemma_word_len_bounds(s, spacing);
        lemma_words_are_words(s.skip(n), spacing);
        let head = s.take(n);
        let rest = words_by(s.skip(n), spacing);
        assert(is_word(head, spacing)) by {
            assert forall|k: int| 0 <= k < head.len() implies !separates(
                spacing,
                #[trigger] head[k],
            ) by {
                assert(head[k] == s[k]);
            }
        }
        assert forall|i: int| 0 <= i < words_by(s, spacing).len() implies is_word(
            #[trigger] words_by(s, spacing)[i],
            spacing,
        ) by {
            assert(words_by(s, spacing) == seq![head] + rest);
            if i > 0 {
                assert(words_by(s, spacing)[i] == rest[i - 1]);
            }
        }
    }
}

/// The first word ends inside `s`, and holds no separator.
pub proof fn lemma_word_len_bounds(s: Seq<char>, spacing: Spacing)
    ensures
        word_len(s, spacing) <= s.len(),
        s.len() > 0 && !separates(spacing, s[0]) ==> word_len(s, spacing) > 0,
        forall|k: int| 0 <= k < word_len(s, spacing) ==> !separates(spacing, #[trigger] s[k]),
    decreases s.len(),
{
    if s.len() == 0 || separates(spacing, s[0]) {
    } else {
        let t = s.drop_first();
        lemma_word_len_bounds(t, spacing);
        assert forall|k: int| 0 <= k < word_len(s, spacing) implies !separates(
            spacing,
            #[trigger] s[k],
        ) by {
            if k > 0 {
                assert(s[k] == t[k - 1]);
            }
        }
    }
}

/// The characters of a string slice, in order.
pub fn chars_of(s: &str) -> (v: Vec<char>)
    ensures
        v@ == s@,
{
    let mut v: Vec<char> = Vec::new();
    for c in it: s.chars()
        invariant
            it.seq() == s@,
            v@ == it.seq().take(it.index() as int),
    {
        v.push(c);
        assert(it.seq().take(it.index() + 1) == it.seq().take(it.index() as int).push(c));
    }
    assert(v@ == s@);
    v
}

/// The string made of the characters `v[from..to]`.
pub fn string_of(v: &Vec<char>, from: usize, to: usize) -> (s: String)
    requires
        from <= to <= v.len(),
    ensures
        s@ == v@.subrange(from as int, to as int),
{
    let mut s = String::new();
    let mut i: usize = from;
    while i < to
        invariant
            from <= i <= to <= v.len(),
            s@ == v@.subrange(from as int, i as int),
        decreases to - i,
    {
        s.push(v[i]);
        i += 1;
    }
    s
}

/// Splits `s` into its words under `spacing`.
pub fn split_words(s: &str, spacing: Spacing) -> (tokens: Vec<String>)
    ensures
        views(tokens@) == words_by(s@, spacing),
{
    let v = chars_of(s);
    let mut tokens: Vec<String> = Vec::new();
    let mut i: usize = 0;
    assert(v@.skip(0) == v@);
    while i < v.len()
        invariant
            i <= v.len(),
            v@ == s@,
            views(tokens@) + words_by(v@.skip(i as int), spacing) == words_by(v@, spacing),
        decreases v.len() - i,
    {
        let ghost rest = v@.skip(i as int);
        if char_separates(spacing, v[i]) {
            assert(rest.drop_first() == v@.skip(i + 1));
            i += 1;
        } else {
            let mut j: usize = i + 1;
            while j < v.len() && !char_separates(spacing, v[j])
                invariant
                    i < j <= v.len(),
                    forall|k: int| i <= k < j ==> !separates(spacing, #[trigger] v@[k]),
                decreases v.len() - j,
            {
                j += 1;
            }
            let token = string_of(&v, i, j);
            proof {
                assert forall|k: int| 0 <= k < j - i implies !separates(
                    spacing,
                    #[trigger] rest[k],
                ) by {
                    assert(rest[k] == v@[i + k]);
                }
                lemma_word_len(rest, spacing, j - i);
                assert(rest.take(j - i) == v@.subrange(i as int, j as int));
                assert(rest.skip(j - i) == v@.skip(j as int));
                assert(views(tokens@.push(token)) == views(tokens@) + seq![token@]);
            }
            tokens.push(token);
            i = j;
        }
    }
    assert(words_by(v@.skip(i as int), spacing) == Seq::<Seq<char>>::empty());
    tokens
}

/// Splits `s` into its words, as `str::split_whitespace` does.
pub fn split_whitespace(s: &str) -> (tokens: Vec<String>)
    ensures
        views(tokens@) == words(s@),
{
    split_words(s, Spacing::Unicode)
}

/// Splits `s` into its words on ASCII whitespace alone, as
/// `str::split_ascii_whitespace` does.
pub fn split_ascii_whitespace(s: &str) -> (tokens: Vec<String>)
    ensures
        views(tokens@) == ascii_words(s@),
{
    split_words(s, Spacing::Ascii)
}

/// Whether `s` begins with the characters of `prefix`.
pub open spec fn has_prefix(s: Seq<char>, prefix: Seq<char>) -> bool {
    prefix.len() <= s.len() && s.take(prefix.len() as int) == prefix
}

/// Tests whether `v[from..]` begins with `prefix`.
pub fn starts_with_at(v: &Vec<char>, from: usize, prefix: &Vec<char>) -> (b: bool)
    requires
        from <= v.len(),
    ensures
        b == has_prefix(v@.skip(from as int), prefix@),
{
    let rest = v.len() - from;
    if prefix.len() > rest {
        return false;
    }
    let mut k: usize = 0;
    while k < prefix.len()
        invariant
            from <= v.len(),
            k <= prefix.len() <= v.len() - from,
            forall|m: int| 0 <= m < k ==> v@[from + m] == prefix@[m],
        decreases prefix.len() - k,
    {
        if v[from + k] != prefix[k] {
            proof {
                let t = v@.skip(from as int).take(prefix.len() as int);
                assert(t[k as int] == v@[from + k]);
            }
            return false;
        }
        k += 1;
    }
    assert(v@.skip(from as int).take(prefix.len() as int) == prefix@);
    true
}

/// `s` without its leading and trailing whitespace.
pub open spec fn trimmed(s: Seq<char>) -> Seq<char>
    decreases s.len(),
{
    if s.len() == 0 {
        s
    } else if is_whitespace(s[0]) {
        trimmed(s.drop_first())
    } else if is_whitespace(s.last()) {
        trimmed(s.drop_last())
    } else {
        s
    }
}

/// Cutting `from` leading and `s.len() - to` trailing whitespace characters off `s`
/// leaves what is still to be trimmed.
proof fn lemma_trimmed_range(s: Seq<char>, from: int, to: int)
    requires
        0 <= from <= to <= s.len(),
        forall|k: int| 0 <= k < from ==> is_whitespace(#[trigger] s[k]),
        forall|k: int| to <= k < s.len() ==> is_whitespace(#[trigger] s[k]),
        from < to ==> !is_whitespace(s[from]),
    ensures
        trimmed(s) == trimmed(s.subrange(from, to)),
    decreases s.len(),
{
    if from == 0 && to == s.len() {
        assert(s.subrange(from, to) == s);
    } else if from > 0 {
        let t = s.drop_first();
        assert forall|k: int| 0 <= k < from - 1 implies is_whitespace(#[trigger] t[k]) by {
            assert(t[k] == s[k + 1]);
        }
        assert forall|k: int| to - 1 <= k < t.len() implies is_whitespace(#[trigger] t[k]) by {
            assert(t[k] == s[k + 1]);
        }
        lemma_trimmed_range(t, from - 1, to - 1);
        assert(t.subrange(from - 1, to - 1) == s.subrange(from, to));
    } else {
        // from == 0 and to < s.len(): the last character is whitespace
        assert(is_whitespace(s[s.len() - 1]));
        if is_whitespace(s[0]) {
            // then nothing but whitespace is left: from == to == 0
            assert(from == to);
            lemma_trimmed_all_whitespace(s);
            assert(s.subrange(0, 0).len() == 0);
        } else {
            let t = s.drop_last();
            lemma_trimmed_range(t, 0, to);
            assert(t.subrange(0, to) == s.subrange(0, to));
        }
    }
}

/// A string of whitespace trims to the empty string.
proof fn lemma_trimmed_all_whitespace(s: Seq<char>)
    requires
        forall|k: int| 0 <= k < s.len() ==> is_whitespace(#[trigger] s[k]),
    ensures
        trimmed(s) == Seq::<char>::empty(),
    decreases s.len(),
{
    if s.len() > 0 {
        let t = s.drop_first();
        assert forall|k: int| 0 <= k < t.len() implies is_whitespace(#[trigger] t[k]) by {
            assert(t[k] == s[k + 1]);
        }
        lemma_trimmed_all_whitespace(t);
    } else {
        assert(s == Seq::<char>::empty());
    }
}

/// The bounds `(from, to)` of `v[lo..hi]` without its leading and trailing whitespace.
pub fn trim_range(v: &Vec<char>, lo: usize, hi: usize) -> (range: (usize, usize))
    requires
        lo <= hi <= v.len(),
    ensures
        lo <= range.0 <= range.1 <= hi,
        v@.subrange(range.0 as int, range.1 as int) == trimmed(v@.subrange(lo as int, hi as int)),
{
    let ghost s = v@.subrange(lo as int, hi as int);
    let mut from: usize = lo;
    while from < hi && char_is_whitespace(v[from])
        invariant
            lo <= from <= hi <= v.len(),
            forall|k: int| lo <= k < from ==> is_whitespace(#[trigger] v@[k]),
        decreases hi - from,
    {
        from += 1;
    }
    let mut to: usize = hi;
    while to > from && char_is_whitespace(v[to - 1])
        invariant
            lo <= from <= to <= hi <= v.len(),
            forall|k: int| to <= k < hi ==> is_whitespace(#[trigger] v@[k]),
        decreases to - from,
    {
        to -= 1;
    }
    proof {
        assert forall|k: int| 0 <= k < from - lo implies is_whitespace(#[trigger] s[k]) by {
            assert(s[k] == v@[lo + k]);
        }
        assert forall|k: int| to - lo <= k < s.len() implies is_whitespace(#[trigger] s[k]) by {
            assert(s[k] == v@[lo + k]);
        }
        if from < to {
            assert(s[from - lo] == v@[from as int]);
        }
        lemma_trimmed_range(s, from - lo, to - lo);
        let inner = s.subrange(from - lo, to - lo);
        assert(inner == v@.subrange(from as int, to as int));
        if from < to {
            assert(inner[0] == v@[from as int]);
            assert(inner.last() == v@[to - 1]);
        } else {
            assert(inner.len() == 0);
        }
        assert(trimmed(inner) == inner);
    }
    (from, to)
}

/// The strings of `parts` with `sep` between each two neighbours.
pub open spec fn joined(parts: Seq<Seq<char>>, sep: Seq<char>) -> Seq<char>
    decreases parts.len(),
{
    if parts.len() == 0 {
        Seq::empty()
    } else if parts.len() == 1 {
        parts[0]
    } else {
        joined(parts.drop_last(), sep) + sep + parts.last()
    }
}

/// Appends the characters of `part` to `out`.
pub fn push_chars(out: &mut String, part: &str)
    ensures
        final(out)@ == old(out)@ + part@,
{
    for c in it: part.chars()
        invariant
            it.seq() == part@,
            out@ == old(out)@ + it.seq().take(it.index() as int),
    {
        out.push(c);
        assert(it.seq().take(it.index() + 1) == it.seq().take(it.index() as int).push(c));
    }
    assert(part@.take(part@.len() as int) == part@);
}

/// Joins `parts` with single spaces.
pub fn join_with_space(parts: &Vec<String>) -> (out: String)
    ensures
        out@ == joined(views(parts@), seq![' ']),
{
    let mut out = String::new();
    let mut i: usize = 0;
    while i < parts.len()
        invariant
            i <= parts.len(),
            out@ == joined(views(parts@).take(i as int), seq![' ']),
        decreases parts.len() - i,
    {
        let ghost before = views(parts@).take(i as int);
        let ghost after = views(parts@).take(i + 1);
        if i > 0 {
            out.push(' ');
        }
        push_chars(&mut out, parts[i].as_str());
        proof {
            assert(after.drop_last() == before);
            assert(after.last() == parts@[i as int]@);
            if i > 0 {
                assert(out@ == joined(before, seq![' ']) + seq![' '] + parts@[i as int]@);
            } else {
                assert(before.len() == 0);
                assert(out@ == parts@[i as int]@);
            }
        }
        i += 1;
    }
    assert(views(parts@).take(parts.len() as int) == views(parts@));
    out
}

/// The pieces of `s` between occurrences of `sep`, empty pieces included. There is
/// always at least one piece.
pub open spec fn split_on(s: Seq<char>, sep: char) -> Seq<Seq<char>>
    decreases s.len(),
{
    if s.len() == 0 {
        seq![Seq::empty()]
    } else {
        let before = split_on(s.drop_last(), sep);
        if s.last() == sep {
            before.push(Seq::empty())
        } else {
            before.drop_last().push(before.last().push(s.last()))
        }
    }
}

/// A string always splits into at least one piece.
pub proof fn lemma_split_on_len(s: Seq<char>, sep: char)
    ensures
        split_on(s, sep).len() >= 1,
    decreases s.len(),
{
    if s.len() > 0 {
        lemma_split_on_len(s.drop_last(), sep);
    }
}

/// Splits `s` on every occurrence of `sep`, as `str::split` does.
pub fn split(s: &str, sep: char) -> (pieces: Vec<String>)
    ensures
        views(pieces@) == split_on(s@, sep),
        pieces.len() >= 1,
{
    let mut done: Vec<String> = Vec::new();
    let mut current = String::new();
    assert(s@.take(0) == Seq::<char>::empty());
    assert(views(done@).push(current@) == split_on(s@.take(0), sep));
    for c in it: s.chars()
        invariant
            it.seq() == s@,
            views(done@).push(current@) == split_on(it.seq().take(it.index() as int), sep),
    {
        let ghost seen = it.seq().take(it.index() as int);
        let ghost next = it.seq().take(it.index() + 1);
        let ghost before = views(done@).push(current@);
        proof {
            assert(next.drop_last() == seen);
            assert(next.last() == c);
            assert(before.drop_last() == views(done@));
            assert(before.last() == current@);
        }
        if c == sep {
            let ghost grown = views(done@.push(current));
            assert(grown == before);
            done.push(current);
            current = String::new();
        } else {
            current.push(c);
        }
    }
    assert(s@.take(s@.len() as int) == s@);
    let ghost all = views(done@).push(current@);
    assert(views(done@.push(current)) == all);
    done.push(current);
    proof {
        lemma_split_on_len(s@, sep);
    }
    done
}

/// The non-empty strings among `parts`, in order.
pub open spec fn without_empty(parts: Seq<Seq<char>>) -> Seq<Seq<char>>
    decreases parts.len(),
{
    if parts.len() == 0 {
        Seq::empty()
    } else if parts.last().len() > 0 {
        without_empty(parts.drop_last()).push(parts.last())
    } else {
        without_empty(parts.drop_last())
    }
}

/// Appends the non-empty strings among the first `count` of `parts` to `out`, in
/// order.
pub fn append_non_empty(out: &mut Vec<String>, parts: &Vec<String>, count: usize)
    requires
        count <= parts.len(),
    ensures
        views(final(out)@) == views(old(out)@) + without_empty(views(parts@).take(count as int)),
{
    let ghost all = views(parts@);
    let ghost start = views(out@);
    let mut i: usize = 0;
    assert(all.take(0) == Seq::<Seq<char>>::empty());
    assert(views(out@) == start + without_empty(all.take(0)));
    while i < count
        invariant
            i <= count <= parts.len(),
            all == views(parts@),
            views(out@) == start + without_empty(all.take(i as int)),
        decreases count - i,
    {
        proof {
            assert(all.take(i + 1).drop_last() == all.take(i as int));
            assert(all.take(i + 1).last() == parts@[i as int]@);
        }
        if !parts[i].as_str().is_empty() {
            let part = parts[i].clone();
            assert(views(out@.push(part)) == views(out@).push(part@));
            out.push(part);
        }
        i += 1;
    }
}

/// Whether two string slices hold the same characters.
pub fn same_text(a: &str, b: &str) -> (same: bool)
    ensures
        same == (a@ == b@),
{
    let x = chars_of(a);
    let y = chars_of(b);
    if x.len() != y.len() {
        return false;
    }
    let mut i: usize = 0;
    while i < x.len()
        invariant
            i <= x.len() == y.len(),
            x@ == a@,
            y@ == b@,
            forall|k: int| 0 <= k < i ==> x@[k] == y@[k],
        decreases x.len() - i,
    {
        if x[i] != y[i] {
            return false;
        }
        i += 1;
    }
    assert(x@ =~= y@);
    true
}

} // verus!
