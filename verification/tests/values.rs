use samey::auth::{authenticate, identity_of, session_is_live, user_if_verified, User};
use samey::entities::samey_pool::Model as Pool;
use samey::entities::samey_post::Model as Post;
use samey::entities::samey_user::Model as UserRow;
use samey::error::{ErrorClass, SameyError};
use samey::forms::{check_pool_name, kept_sources, optional_text};
use samey::numbers::{parse_dimensions, parse_i32, parse_id, parse_page_number, parse_u32};
use samey::rating::Rating;
use samey::text::{char_is_whitespace, chars_of, push_chars, string_of, trim_range};

fn row(id: i32, name: &str, hash: String, is_admin: bool) -> UserRow {
    UserRow { id, username: name.to_string(), password: hash, is_admin }
}

fn a_post(owner: i32, is_public: bool, rating: &str) -> Post {
    Post {
        id: 1,
        uploader_id: owner,
        media: "a.png".to_string(),
        media_type: "image".to_string(),
        width: 10,
        height: 20,
        thumbnail: "thumb-a.png".to_string(),
        thumbnail_width: 1,
        thumbnail_height: 2,
        title: None,
        description: None,
        is_public,
        rating: rating.to_string(),
        uploaded_at: 0,
        parent_id: None,
    }
}

#[test]
fn rating_from_code() {
    assert_eq!(Rating::from_code("s"), Rating::Safe);
    assert_eq!(Rating::from_code("q"), Rating::Questionable);
    assert_eq!(Rating::from_code("e"), Rating::Explicit);
    assert_eq!(Rating::from_code("u"), Rating::Unrated);
    assert_eq!(Rating::from_code(""), Rating::Unrated);
    assert_eq!(Rating::from_code("S"), Rating::Unrated);
    assert_eq!(Rating::from_code("ss"), Rating::Unrated);
    assert_eq!(Rating::from_code("safe"), Rating::Unrated);
}

#[test]
fn rating_from_string() {
    assert_eq!(Rating::from("q".to_string()), Rating::Questionable);
    assert_eq!(Rating::from("?".to_string()), Rating::Unrated);
}

#[test]
fn rating_codes_and_names() {
    assert_eq!(Rating::Unrated.code(), "u");
    assert_eq!(Rating::Safe.code(), "s");
    assert_eq!(Rating::Questionable.code(), "q");
    assert_eq!(Rating::Explicit.code(), "e");
    assert_eq!(Rating::Unrated.name(), "Unrated");
    assert_eq!(Rating::Safe.name(), "Safe");
    assert_eq!(Rating::Questionable.name(), "Questionable");
    assert_eq!(Rating::Explicit.name(), "Explicit");
}

#[test]
fn rating_codes_read_back() {
    for rating in [Rating::Unrated, Rating::Safe, Rating::Questionable, Rating::Explicit] {
        assert_eq!(Rating::from_code(rating.code()), rating);
    }
}

#[test]
fn ratings_are_ordered() {
    assert!(Rating::Unrated < Rating::Safe);
    assert!(Rating::Safe < Rating::Questionable);
    assert!(Rating::Questionable < Rating::Explicit);
    assert_eq!(Rating::Explicit.rank(), 3);
    assert_eq!(Rating::Unrated.rank(), 0);
    assert!(Rating::Safe.is_at_most(&Rating::Safe));
    assert!(Rating::Safe.is_at_most(&Rating::Explicit));
    assert!(!Rating::Questionable.is_at_most(&Rating::Safe));
}

#[test]
fn error_classes() {
    assert_eq!(SameyError::NotFound.class(), ErrorClass::NotFound);
    assert_eq!(SameyError::Forbidden.class(), ErrorClass::Forbidden);
    assert_eq!(SameyError::BadRequest("x".to_string()).class(), ErrorClass::BadRequest);
    assert_eq!(SameyError::Authentication("x".to_string()).class(), ErrorClass::Unauthorized);
    assert_eq!(SameyError::Other("x".to_string()).class(), ErrorClass::Internal);
}

#[test]
fn error_status_codes() {
    assert_eq!(ErrorClass::BadRequest.status_code(), 400);
    assert_eq!(ErrorClass::Unauthorized.status_code(), 401);
    assert_eq!(ErrorClass::Forbidden.status_code(), 403);
    assert_eq!(ErrorClass::NotFound.status_code(), 404);
    assert_eq!(ErrorClass::Internal.status_code(), 500);
}

#[test]
fn error_messages() {
    assert_eq!(SameyError::NotFound.message(), "Not found");
    assert_eq!(SameyError::Forbidden.message(), "Not allowed");
    assert_eq!(SameyError::BadRequest("no".to_string()).message(), "Bad request: no");
    assert_eq!(
        SameyError::Authentication("Invalid credentials".to_string()).message(),
        "Authentication error: Invalid credentials"
    );
    assert_eq!(SameyError::Other("boom".to_string()).message(), "Internal error: boom");
}

#[test]
fn parse_u32_accepts_digits() {
    assert_eq!(parse_u32("0"), Some(0));
    assert_eq!(parse_u32("1920"), Some(1920));
    assert_eq!(parse_u32("+7"), Some(7));
    assert_eq!(parse_u32("007"), Some(7));
    assert_eq!(parse_u32("4294967295"), Some(u32::MAX));
    assert_eq!(parse_u32("00000000000000000000000000004294967295"), Some(u32::MAX));
}

#[test]
fn parse_u32_rejects_the_rest() {
    for text in ["", "+", "-", "-1", "-0", "4294967296", "99999999999999999999999", "1 ", " 1",
        "1_0", "0x10", "1.0", "++1", "١"]
    {
        assert_eq!(parse_u32(text), None, "text {:?}", text);
    }
}

#[test]
fn parse_u32_agrees_with_std() {
    for text in ["", "0", "+0", "-0", "12", "+12", "-12", "4294967295", "4294967296", "a", "1a",
        "+", "-", "00", "+-1"]
    {
        assert_eq!(parse_u32(text), text.parse::<u32>().ok(), "text {:?}", text);
    }
}

#[test]
fn parse_i32_accepts_signs() {
    assert_eq!(parse_i32("0"), Some(0));
    assert_eq!(parse_i32("-0"), Some(0));
    assert_eq!(parse_i32("+15"), Some(15));
    assert_eq!(parse_i32("-15"), Some(-15));
    assert_eq!(parse_i32("2147483647"), Some(i32::MAX));
    assert_eq!(parse_i32("-2147483648"), Some(i32::MIN));
}

#[test]
fn parse_i32_rejects_the_rest() {
    for text in ["", "+", "-", "2147483648", "-2147483649", "--1", "+-1", "-+1", "1-", "a", " 1"] {
        assert_eq!(parse_i32(text), None, "text {:?}", text);
    }
}

#[test]
fn parse_i32_agrees_with_std() {
    for text in ["", "0", "-0", "+0", "12", "-12", "2147483647", "2147483648", "-2147483648",
        "-2147483649", "x", "1x", "-", "+", "0000000000000000000012"]
    {
        assert_eq!(parse_i32(text), text.parse::<i32>().ok(), "text {:?}", text);
    }
}

#[test]
fn parse_id_trims_first() {
    assert_eq!(parse_id(" 42\n"), Some(42));
    assert_eq!(parse_id("-3"), Some(-3));
    assert_eq!(parse_id(""), None);
    assert_eq!(parse_id("   "), None);
    assert_eq!(parse_id("4 2"), None);
}

#[test]
fn parse_dimensions_reads_two_lines() {
    assert_eq!(parse_dimensions("1920\n1080\n"), Some((1920, 1080)));
    assert_eq!(parse_dimensions("1920\r\n1080\r\n"), Some((1920, 1080)));
    assert_eq!(parse_dimensions(" 640 \n\n480"), Some((640, 480)));
}

#[test]
fn parse_dimensions_skips_lines_that_are_no_numbers() {
    assert_eq!(parse_dimensions("width\n1\nN/A\n2\n3"), Some((1, 2)));
}

#[test]
fn parse_dimensions_needs_two_numbers() {
    assert_eq!(parse_dimensions(""), None);
    assert_eq!(parse_dimensions("1920"), None);
    assert_eq!(parse_dimensions("1920 1080"), None);
    assert_eq!(parse_dimensions("-1\n5"), None);
}

#[test]
fn optional_text_trims_and_drops_blanks() {
    assert_eq!(optional_text("  A title \n"), Some("A title".to_string()));
    assert_eq!(optional_text(""), None);
    assert_eq!(optional_text(" \t\u{3000}"), None);
    assert_eq!(optional_text("x"), Some("x".to_string()));
}

#[test]
fn pool_name_may_not_be_blank() {
    assert_eq!(check_pool_name("Favourites"), Ok(()));
    assert_eq!(check_pool_name(" x "), Ok(()));
    assert_eq!(
        check_pool_name("   "),
        Err(SameyError::BadRequest("Pool name cannot be empty".to_string()))
    );
    assert_eq!(
        check_pool_name(""),
        Err(SameyError::BadRequest("Pool name cannot be empty".to_string()))
    );
}

#[test]
fn kept_sources_drop_empty_fields() {
    let sources = vec!["https://a".to_string(), String::new(), " ".to_string(), "b".to_string()];
    assert_eq!(kept_sources(&sources), vec!["https://a".to_string(), " ".to_string(), "b".to_string()]);
    assert!(kept_sources(&Vec::new()).is_empty());
}

#[test]
fn authenticate_with_the_right_password() {
    let hash = password_auth::generate_hash("secretPassword");
    let user = authenticate(Some(row(4, "sam", hash, true)), "secretPassword");
    assert_eq!(user, Some(User { id: 4, username: "sam".to_string(), is_admin: true }));
}

#[test]
fn authenticate_with_a_wrong_password() {
    let hash = password_auth::generate_hash("secretPassword");
    assert_eq!(authenticate(Some(row(4, "sam", hash.clone(), false)), "secretpassword"), None);
    assert_eq!(authenticate(Some(row(4, "sam", hash.clone(), false)), &hash), None);
    assert_eq!(authenticate(Some(row(4, "sam", hash, false)), ""), None);
}

#[test]
fn authenticate_against_a_hash_that_is_none() {
    assert_eq!(authenticate(Some(row(4, "sam", "secretPassword".to_string(), false)), "secretPassword"), None);
    assert_eq!(authenticate(Some(row(4, "sam", String::new(), false)), ""), None);
}

#[test]
fn authenticate_an_unknown_user() {
    assert_eq!(authenticate(None, "whatever"), None);
}

#[test]
fn user_if_verified_follows_the_check() {
    let record = row(2, "ann", "h".to_string(), false);
    assert_eq!(
        user_if_verified(record.clone(), true),
        Some(User { id: 2, username: "ann".to_string(), is_admin: false })
    );
    assert_eq!(user_if_verified(record.clone(), false), None);
    assert_eq!(identity_of(record), User { id: 2, username: "ann".to_string(), is_admin: false });
}

#[test]
fn sessions_end_at_their_expiry() {
    assert!(session_is_live(101, 100));
    assert!(!session_is_live(100, 100));
    assert!(!session_is_live(99, 100));
}

#[test]
fn post_rows_answer_for_themselves() {
    let owner = User { id: 5, username: "o".to_string(), is_admin: false };
    let other = User { id: 6, username: "x".to_string(), is_admin: false };
    let admin = User { id: 7, username: "a".to_string(), is_admin: true };
    let hidden = a_post(5, false, "q");
    assert!(hidden.visible_to(Some(&owner)));
    assert!(hidden.visible_to(Some(&admin)));
    assert!(!hidden.visible_to(Some(&other)));
    assert!(!hidden.visible_to(None));
    assert!(hidden.editable_by(Some(&owner)));
    assert!(hidden.editable_by(Some(&admin)));
    assert!(!hidden.editable_by(Some(&other)));
    assert!(!hidden.editable_by(None));
    assert_eq!(hidden.rating(), Rating::Questionable);
    let shown = a_post(5, true, "nonsense");
    assert!(shown.visible_to(None));
    assert!(!shown.editable_by(None));
    assert_eq!(shown.rating(), Rating::Unrated);
}

#[test]
fn pool_rows_answer_for_themselves() {
    let pool = Pool { id: 1, name: "p".to_string(), uploader_id: 5, is_public: false };
    let owner = User { id: 5, username: "o".to_string(), is_admin: false };
    let other = User { id: 6, username: "x".to_string(), is_admin: false };
    assert!(pool.visible_to(Some(&owner)));
    assert!(!pool.visible_to(Some(&other)));
    assert!(!pool.visible_to(None));
    assert!(pool.editable_by(Some(&owner)));
    assert!(!pool.editable_by(Some(&other)));
}

#[test]
fn whitespace_agrees_with_std() {
    for code in 0u32..0x3100 {
        if let Some(c) = char::from_u32(code) {
            assert_eq!(char_is_whitespace(c), c.is_whitespace(), "U+{:04X}", code);
        }
    }
    assert!(!char_is_whitespace('\u{feff}'));
    assert!(!char_is_whitespace('\u{10ffff}'));
}

#[test]
fn characters_round_trip() {
    let text = "añ😀 b";
    let chars = chars_of(text);
    assert_eq!(chars.len(), 5);
    assert_eq!(string_of(&chars, 0, chars.len()), text);
    assert_eq!(string_of(&chars, 1, 3), "ñ😀");
    let mut out = String::from(">");
    push_chars(&mut out, text);
    assert_eq!(out, ">añ😀 b");
}

#[test]
fn trim_range_finds_the_inside() {
    let chars = chars_of("  ab c \n");
    assert_eq!(trim_range(&chars, 0, chars.len()), (2, 6));
    assert_eq!(trim_range(&chars, 3, 5), (3, 4));
    let blank = chars_of(" \t ");
    let (from, to) = trim_range(&blank, 0, blank.len());
    assert_eq!(from, to);
}

#[test]
fn page_numbers_that_do_not_parse_are_bad_requests() {
    assert_eq!(parse_page_number("3"), Ok(3));
    assert_eq!(parse_page_number("0"), Ok(0));
    assert_eq!(
        parse_page_number("three"),
        Err(SameyError::BadRequest("Invalid page number: three".to_string()))
    );
    assert_eq!(
        parse_page_number("-1"),
        Err(SameyError::BadRequest("Invalid page number: -1".to_string()))
    );
    assert_eq!(
        parse_page_number(""),
        Err(SameyError::BadRequest("Invalid page number: ".to_string()))
    );
}
