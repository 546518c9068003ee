use samey::tags::{
    classify, classify_tokens, filter_of_normalized, parse_query, single_token, unique_words,
    upload_tag_names, SearchFilter, TokenKind, NEGATIVE_PREFIX, RATING_PREFIX,
};
use samey::text::{
    char_separates, join_with_space, split, split_ascii_whitespace, split_whitespace, split_words,
    Spacing,
};

fn strings(items: &[&str]) -> Vec<String> {
    items.iter().map(|s| s.to_string()).collect()
}

fn sorted(mut items: Vec<String>) -> Vec<String> {
    items.sort();
    items
}

#[test]
fn prefixes_are_the_documented_markers() {
    assert_eq!(NEGATIVE_PREFIX, "-");
    assert_eq!(RATING_PREFIX, "rating:");
}

#[test]
fn classify_plain_tag() {
    assert_eq!(classify("cat"), (TokenKind::IncludeTag, "cat".to_string()));
}

#[test]
fn classify_excluded_tag() {
    assert_eq!(classify("-dog"), (TokenKind::ExcludeTag, "dog".to_string()));
}

#[test]
fn classify_included_rating() {
    assert_eq!(classify("rating:s"), (TokenKind::IncludeRating, "s".to_string()));
}

#[test]
fn classify_excluded_rating() {
    assert_eq!(classify("-rating:e"), (TokenKind::ExcludeRating, "e".to_string()));
}

#[test]
fn classify_only_the_first_negation_is_a_marker() {
    assert_eq!(classify("--x"), (TokenKind::ExcludeTag, "-x".to_string()));
}

#[test]
fn classify_rating_value_without_marker_is_a_tag() {
    assert_eq!(classify("s"), (TokenKind::IncludeTag, "s".to_string()));
    assert_eq!(classify("-e"), (TokenKind::ExcludeTag, "e".to_string()));
}

#[test]
fn classify_incomplete_rating_marker_is_a_tag() {
    assert_eq!(classify("rating"), (TokenKind::IncludeTag, "rating".to_string()));
    assert_eq!(classify("-rating"), (TokenKind::ExcludeTag, "rating".to_string()));
}

#[test]
fn classify_bare_markers_leave_empty_values() {
    assert_eq!(classify("-"), (TokenKind::ExcludeTag, String::new()));
    assert_eq!(classify("rating:"), (TokenKind::IncludeRating, String::new()));
    assert_eq!(classify("-rating:"), (TokenKind::ExcludeRating, String::new()));
}

#[test]
fn parse_query_files_each_token_once() {
    let filter = parse_query("cat -dog rating:s -rating:e bird");
    assert_eq!(sorted(filter.include_tags), strings(&["bird", "cat"]));
    assert_eq!(filter.exclude_tags, strings(&["dog"]));
    assert_eq!(filter.include_ratings, strings(&["s"]));
    assert_eq!(filter.exclude_ratings, strings(&["e"]));
}

#[test]
fn parse_query_lowercases_before_it_classifies() {
    let filter = parse_query("CaT -DOG RATING:S -Rating:Q");
    assert_eq!(filter.include_tags, strings(&["cat"]));
    assert_eq!(filter.exclude_tags, strings(&["dog"]));
    assert_eq!(filter.include_ratings, strings(&["s"]));
    assert_eq!(filter.exclude_ratings, strings(&["q"]));
}

#[test]
fn parse_query_lowercases_beyond_ascii() {
    let filter = parse_query("ÄPFEL");
    assert_eq!(filter.include_tags, strings(&["äpfel"]));
}

#[test]
fn parse_query_deduplicates() {
    let filter = parse_query("cat Cat CAT -dog -dog");
    assert_eq!(filter.include_tags, strings(&["cat"]));
    assert_eq!(filter.exclude_tags, strings(&["dog"]));
}

#[test]
fn parse_query_same_word_may_be_included_and_excluded() {
    let filter = parse_query("cat -cat");
    assert_eq!(filter.include_tags, strings(&["cat"]));
    assert_eq!(filter.exclude_tags, strings(&["cat"]));
}

#[test]
fn parse_query_of_nothing_is_empty() {
    let filter = parse_query("  \t\n ");
    assert_eq!(
        filter,
        SearchFilter {
            include_tags: vec![],
            exclude_tags: vec![],
            include_ratings: vec![],
            exclude_ratings: vec![],
        }
    );
    assert_eq!(parse_query(""), SearchFilter::new());
}

#[test]
fn parse_query_splits_on_any_whitespace() {
    let filter = parse_query("a\tb\u{3000}c\u{a0}d\r\ne");
    assert_eq!(sorted(filter.include_tags), strings(&["a", "b", "c", "d", "e"]));
}

#[test]
fn classify_tokens_drops_empty_tokens() {
    let filter = classify_tokens(&strings(&["", "cat", ""]));
    assert_eq!(filter.include_tags, strings(&["cat"]));
    assert!(filter.exclude_tags.is_empty());
}

#[test]
fn filter_of_normalized_takes_tokens_as_they_are() {
    let filter = filter_of_normalized(&strings(&["Cat", "-rating:s"]));
    assert_eq!(filter.include_tags, strings(&["Cat"]));
    assert_eq!(filter.exclude_ratings, strings(&["s"]));
}

#[test]
fn add_token_files_under_one_class_only() {
    let mut filter = SearchFilter::new();
    filter.add_token("-rating:q");
    assert!(filter.include_tags.is_empty());
    assert!(filter.exclude_tags.is_empty());
    assert!(filter.include_ratings.is_empty());
    assert_eq!(filter.exclude_ratings, strings(&["q"]));
    filter.add_token("");
    assert_eq!(filter.exclude_ratings, strings(&["q"]));
}

#[test]
fn split_whitespace_agrees_with_std() {
    for text in ["", " ", "a", " a  b ", "a\tb\nc", "\u{2003}x\u{2003}", "tag1 tag2  tag3"] {
        let expected: Vec<String> = text.split_whitespace().map(String::from).collect();
        assert_eq!(split_whitespace(text), expected, "text {:?}", text);
    }
}

#[test]
fn split_keeps_empty_pieces() {
    for text in ["", " ", "a", " a  b ", "a b", "trailing "] {
        let expected: Vec<String> = text.split(' ').map(String::from).collect();
        assert_eq!(split(text, ' '), expected, "text {:?}", text);
    }
}

#[test]
fn join_with_space_puts_one_space_between() {
    assert_eq!(join_with_space(&strings(&[])), "");
    assert_eq!(join_with_space(&strings(&["a"])), "a");
    assert_eq!(join_with_space(&strings(&["a", "", "b"])), "a  b");
}

#[test]
fn single_token_wants_exactly_one() {
    assert_eq!(single_token("  cat "), Some("cat".to_string()));
    assert_eq!(single_token(""), None);
    assert_eq!(single_token("cat dog"), None);
}

#[test]
fn unique_words_keeps_case_and_first_occurrence() {
    assert_eq!(unique_words("Cat dog Cat cat"), strings(&["Cat", "dog", "cat"]));
}

#[test]
fn upload_tag_names_skip_marked_words() {
    assert_eq!(
        upload_tag_names("Cat -dog rating:s bird Cat Rating:x"),
        strings(&["Cat", "bird", "Rating:x"])
    );
    assert!(upload_tag_names("-a rating:b").is_empty());
}

#[test]
fn split_ascii_whitespace_agrees_with_std() {
    for text in ["", " ", "a", " a  b ", "a\tb\nc\r\nd\u{c}e", "a\u{b}b", "a\u{a0}b \u{3000} c"] {
        let expected: Vec<String> = text.split_ascii_whitespace().map(String::from).collect();
        assert_eq!(split_ascii_whitespace(text), expected, "text {:?}", text);
        assert_eq!(split_words(text, Spacing::Ascii), expected, "text {:?}", text);
    }
}

#[test]
fn separators_agree_with_std() {
    for code in 0u32..0x400 {
        if let Some(c) = char::from_u32(code) {
            assert_eq!(char_separates(Spacing::Ascii, c), c.is_ascii_whitespace(), "U+{:04X}", code);
            assert_eq!(char_separates(Spacing::Unicode, c), c.is_whitespace(), "U+{:04X}", code);
        }
    }
}

#[test]
fn parse_query_keeps_the_order_of_first_occurrence() {
    let filter = parse_query("zebra apple Zebra mango -b -a -B");
    assert_eq!(filter.include_tags, strings(&["zebra", "apple", "mango"]));
    assert_eq!(filter.exclude_tags, strings(&["b", "a"]));
}
