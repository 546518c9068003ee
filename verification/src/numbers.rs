//! Decimal numbers in text: identifiers typed into a form, and the dimensions that
//! a media probe prints.

use crate::error::SameyError;
use crate::text::{chars_of, push_chars, split, split_on, trim_range, trimmed, views};
use vstd::prelude::*;

verus! {

/// Whether `c` is one of the ten decimal digits.
pub open spec fn is_digit(c: char) -> bool {
    '0' <= c <= '9'
}

/// The number that a non-empty run of decimal digits spells; none where the text
/// is empty or holds anything but digits.
pub open spec fn digits_value(s: Seq<char>) -> Option<int>
    decreases s.len(),
{
    if s.len() == 0 || !is_digit(s.last()) {
        None
    } else if s.len() == 1 {
        Some(s.last() as int - '0' as int)
    } else {
        match digits_value(s.drop_last()) {
            Some(value) => Some(value * 10 + (s.last() as int - '0' as int)),
            None => None,
        }
    }
}

/// The text without a leading plus sign.
pub open spec fn unsigned_part(s: Seq<char>) -> Seq<char> {
    if s.len() > 0 && s[0] == '+' {
        s.skip(1)
    } else {
        s
    }
}

/// The unsigned 32-bit number that a text spells: digits, after an optional plus
/// sign, whose value fits.
pub open spec fn parsed_u32(s: Seq<char>) -> Option<u32> {
    match digits_value(unsigned_part(s)) {
        Some(value) => if value <= u32::MAX {
            Some(value as u32)
        } else {
            None
        },
        None => None,
    }
}

/// The signed 32-bit number that a text spells: digits, after an optional sign,
/// whose value fits.
pub open spec fn parsed_i32(s: Seq<char>) -> Option<i32> {
    if s.len() > 0 && s[0] == '-' {
        match digits_value(s.skip(1)) {
            Some(value) => if -value >= i32::MIN {
                Some((-value) as i32)
            } else {
                None
            },
            None => None,
        }
    } else {
        match digits_value(unsigned_part(s)) {
            Some(value) => if value <= i32::MAX {
                Some(value as i32)
            } else {
                None
            },
            None => None,
        }
    }
}

/// A number only grows as digits are added: once a prefix is worth more than
/// `limit`, so is the whole, if it is a number at all.
proof fn lemma_digits_grow(s: Seq<char>, n: int, limit: int)
    requires
        0 < n <= s.len(),
        digits_value(s.take(n)) matches Some(value) && value > limit,
        limit >= 0,
    ensures
        digits_value(s) matches Some(value) ==> value > limit,
    decreases s.len() - n,
{
    if n == s.len() {
        assert(s.take(n) == s);
    } else {
        let longer = s.take(n + 1);
        assert(longer.drop_last() == s.take(n));
        if digits_value(longer) is Some {
            lemma_digits_grow(s, n + 1, limit);
        } else {
            lemma_digits_stay_invalid(s, n + 1);
        }
    }
}

/// Text that is no number does not become one as characters are added.
proof fn lemma_digits_stay_invalid(s: Seq<char>, n: int)
    requires
        0 < n <= s.len(),
        digits_value(s.take(n)) is None,
    ensures
        digits_value(s) is None,
    decreases s.len() - n,
{
    if n == s.len() {
        assert(s.take(n) == s);
    } else {
        let longer = s.take(n + 1);
        assert(longer.drop_last() == s.take(n));
        lemma_digits_stay_invalid(s, n + 1);
    }
}

/// Reads the digits `v[from..]` as a number of at most `limit`.
fn read_digits(v: &Vec<char>, from: usize, limit: u64) -> (value: Option<u64>)
    requires
        from <= v.len(),
        limit <= 0x8000_0000_0000,
    ensures
        value == match digits_value(v@.skip(from as int)) {
            Some(value) => if value <= limit {
                Some(value as u64)
            } else {
                None
            },
            None => None,
        },
        value matches Some(value) ==> value <= limit && digits_value(v@.skip(from as int))
            == Some(value as int),
{
    let ghost s = v@.skip(from as int);
    if from == v.len() {
        return None;
    }
    let mut acc: u64 = 0;
    let mut i: usize = from;
    while i < v.len()
        invariant
            from <= i <= v.len(),
            from < v.len(),
            s == v@.skip(from as int),
            limit <= 0x8000_0000_0000,
            acc <= limit,
            i > from ==> digits_value(s.take(i - from)) == Some(acc as int),
            i == from ==> acc == 0,
        decreases v.len() - i,
    {
        let c = v[i];
        let ghost seen = s.take(i - from);
        let ghost next = s.take(i - from + 1);
        proof {
            assert(next.drop_last() == seen);
            assert(next.last() == c);
        }
        if !('0' <= c && c <= '9') {
            proof {
                assert(digits_value(next) is None);
                lemma_digits_stay_invalid(s, i - from + 1);
            }
            return None;
        }
        let digit = (c as u64) - ('0' as u64);
        let grown = acc * 10 + digit;
        assert(digits_value(next) == Some(grown as int));
        if grown > limit {
            proof {
                lemma_digits_grow(s, i - from + 1, limit as int);
            }
            return None;
        }
        acc = grown;
        i += 1;
    }
    assert(s.take(v.len() - from) == s);
    Some(acc)
}

/// Reads an unsigned 32-bit number.
pub fn parse_u32(text: &str) -> (value: Option<u32>)
    ensures
        value == parsed_u32(text@),
{
    let v = chars_of(text);
    let from: usize = if v.len() > 0 && v[0] == '+' {
        1
    } else {
        assert(v@.skip(0) == v@);
        0
    };
    match read_digits(&v, from, 0xffff_ffff) {
        Some(value) => Some(value as u32),
        None => None,
    }
}

/// Reads a signed 32-bit number.
pub fn parse_i32(text: &str) -> (value: Option<i32>)
    ensures
        value == parsed_i32(text@),
{
    let v = chars_of(text);
    if v.len() > 0 && v[0] == '-' {
        match read_digits(&v, 1, 0x8000_0000) {
            Some(value) => Some((0 - (value as i64)) as i32),
            None => None,
        }
    } else {
        let from: usize = if v.len() > 0 && v[0] == '+' {
            1
        } else {
            assert(v@.skip(0) == v@);
            0
        };
        match read_digits(&v, from, 0x7fff_ffff) {
            Some(value) => Some(value as i32),
            None => None,
        }
    }
}

/// The identifier that a form field names: the field without the whitespace
/// around it, read as a signed number. A field that is no number names nothing.
pub fn parse_id(field: &str) -> (id: Option<i32>)
    ensures
        id == parsed_i32(trimmed(field@)),
{
    let v = chars_of(field);
    assert(v@.subrange(0, v.len() as int) == v@);
    let (from, to) = trim_range(&v, 0, v.len());
    let inner = crate::text::string_of(&v, from, to);
    parse_i32(inner.as_str())
}

/// Reads the page number of a request. Text that is no page number is a bad
/// request, and is told so with the text that was sent.
pub fn parse_page_number(text: &str) -> (page: Result<u32, SameyError>)
    ensures
        match parsed_u32(text@) {
            Some(number) => page == Ok::<u32, SameyError>(number),
            None => page matches Err(SameyError::BadRequest(reason)) && reason@
                == "Invalid page number: "@ + text@,
        },
{
    match parse_u32(text) {
        Some(number) => Ok(number),
        None => {
            let mut reason = String::new();
            push_chars(&mut reason, "Invalid page number: ");
            push_chars(&mut reason, text);
            assert(reason@ =~= "Invalid page number: "@ + text@);
            Err(SameyError::BadRequest(reason))
        },
    }
}

/// The numbers among the lines of a text: each line without the whitespace around
/// it that spells an unsigned number, in order.
pub open spec fn numbers_in(lines: Seq<Seq<char>>) -> Seq<u32>
    decreases lines.len(),
{
    if lines.len() == 0 {
        Seq::empty()
    } else {
        match parsed_u32(trimmed(lines.last())) {
            Some(number) => numbers_in(lines.drop_last()).push(number),
            None => numbers_in(lines.drop_last()),
        }
    }
}

/// The width and the height that a probe printed, one number to the line: the
/// first two lines that are numbers. Anything less is no answer.
pub fn parse_dimensions(output: &str) -> (dimensions: Option<(u32, u32)>)
    ensures
        dimensions == if numbers_in(split_on(output@, '\n')).len() >= 2 {
            Some((numbers_in(split_on(output@, '\n'))[0], numbers_in(split_on(output@, '\n'))[1]))
        } else {
            None
        },
{
    let lines = split(output, '\n');
    let ghost all = views(lines@);
    let mut numbers: Vec<u32> = Vec::new();
    let mut i: usize = 0;
    assert(all.take(0) == Seq::<Seq<char>>::empty());
    while i < lines.len()
        invariant
            i <= lines.len(),
            all == views(lines@),
            numbers@ == numbers_in(all.take(i as int)),
        decreases lines.len() - i,
    {
        let line = chars_of(lines[i].as_str());
        assert(line@.subrange(0, line.len() as int) == line@);
        let (from, to) = trim_range(&line, 0, line.len());
        let inner = crate::text::string_of(&line, from, to);
        proof {
            assert(all.take(i + 1).drop_last() == all.take(i as int));
            assert(all.take(i + 1).last() == lines@[i as int]@);
        }
        match parse_u32(inner.as_str()) {
            Some(number) => {
                numbers.push(number);
            },
            None => {},
        }
        i += 1;
    }
    assert(all.take(lines.len() as int) == all);
    if numbers.len() >= 2 {
        Some((numbers[0], numbers[1]))
    } else {
        None
    }
}

} // verus!
