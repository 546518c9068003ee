use samey::error::SameyError;
use samey::markup::{description_html, markdown};
use samey::media::{
    assemble_upload, image_file_names, media_file_names, random_stem, video_file_names, Format,
    NewPost, StoredMedia, STEM_LENGTH, VIDEO_THUMBNAIL_EXTENSION,
};
use samey::names::{comes_before, sort_names, sorted_tag_text};
use samey::text::same_text;

fn names(items: &[&str]) -> Vec<String> {
    items.iter().map(|s| s.to_string()).collect()
}

#[test]
fn content_types_of_videos() {
    assert_eq!(Format::from_content_type("video/mp4"), Ok(Format::Video(".mp4")));
    assert_eq!(Format::from_content_type("video/webm"), Ok(Format::Video(".webm")));
    assert_eq!(Format::from_content_type("application/x-matroska"), Ok(Format::Video(".mkv")));
    assert_eq!(Format::from_content_type("video/mastroska"), Ok(Format::Video(".mkv")));
    assert_eq!(Format::from_content_type("video/quicktime"), Ok(Format::Video(".mov")));
}

#[test]
fn content_types_of_images() {
    assert_eq!(
        Format::from_content_type("image/png"),
        Ok(Format::Image(image::ImageFormat::Png))
    );
    assert_eq!(
        Format::from_content_type("image/jpeg"),
        Ok(Format::Image(image::ImageFormat::Jpeg))
    );
    assert_eq!(
        Format::from_content_type("image/webp"),
        Ok(Format::Image(image::ImageFormat::WebP))
    );
}

#[test]
fn content_types_that_are_unknown() {
    assert_eq!(
        Format::from_content_type("text/plain"),
        Err(SameyError::Other("Unknown content type: text/plain".to_string()))
    );
    assert_eq!(
        Format::from_content_type(""),
        Err(SameyError::Other("Unknown content type: ".to_string()))
    );
    assert_eq!(
        Format::from_content_type("video/matroska"),
        Err(SameyError::Other("Unknown content type: video/matroska".to_string()))
    );
    assert_eq!(
        Format::from_content_type("VIDEO/MP4"),
        Err(SameyError::Other("Unknown content type: VIDEO/MP4".to_string()))
    );
}

#[test]
fn content_type_through_from_str() {
    assert_eq!("video/webm".parse::<Format>(), Ok(Format::Video(".webm")));
    assert_eq!("image/gif".parse::<Format>(), Ok(Format::Image(image::ImageFormat::Gif)));
    assert!("nothing".parse::<Format>().is_err());
}

#[test]
fn media_types() {
    assert_eq!(Format::Video(".mp4").media_type(), "video");
    assert_eq!(Format::Image(image::ImageFormat::Png).media_type(), "image");
}

#[test]
fn names_of_an_image() {
    assert_eq!(
        image_file_names("aB3dE6gH", "png"),
        ("aB3dE6gH.png".to_string(), "thumb-aB3dE6gH.png".to_string())
    );
    assert_eq!(
        media_file_names("stem", &Format::Image(image::ImageFormat::Jpeg)),
        Some(("stem.jpg".to_string(), "thumb-stem.jpg".to_string()))
    );
    assert_eq!(
        media_file_names("stem", &Format::Image(image::ImageFormat::Tiff)),
        Some(("stem.tiff".to_string(), "thumb-stem.tiff".to_string()))
    );
}

#[test]
fn names_of_a_video() {
    assert_eq!(VIDEO_THUMBNAIL_EXTENSION, image::ImageFormat::Png.extensions_str()[0]);
    assert_eq!(
        video_file_names("aB3dE6gH", ".webm"),
        ("aB3dE6gH.webm".to_string(), "thumb-aB3dE6gH.png".to_string())
    );
    assert_eq!(
        media_file_names("stem", &Format::Video(".mkv")),
        Some(("stem.mkv".to_string(), "thumb-stem.png".to_string()))
    );
}

#[test]
fn random_stems_are_eight_letters_and_digits() {
    assert_eq!(STEM_LENGTH, 8);
    let mut seen = Vec::new();
    for _ in 0..50 {
        let stem = random_stem();
        assert_eq!(stem.chars().count(), 8);
        assert!(stem.chars().all(|c| c.is_ascii_alphanumeric()), "stem {:?}", stem);
        seen.push(stem);
    }
    seen.sort();
    seen.dedup();
    assert!(seen.len() > 1);
}

#[test]
fn same_text_compares_characters() {
    assert!(same_text("", ""));
    assert!(same_text("añ", "añ"));
    assert!(!same_text("a", "A"));
    assert!(!same_text("a", "ab"));
    assert!(!same_text("ab", "a"));
}

#[test]
fn comes_before_agrees_with_std() {
    let samples = ["", "a", "A", "ab", "b", "aa", "ä", "z", "zebra", "😀", "a😀", "Z", "10", "9"];
    for a in samples {
        for b in samples {
            assert_eq!(comes_before(a, b), a <= b, "{:?} and {:?}", a, b);
        }
    }
}

#[test]
fn sort_names_agrees_with_std() {
    let mixed = names(&["pear", "Apple", "apple", "fig", "apple", "", "ä", "z"]);
    let mut expected = mixed.clone();
    expected.sort();
    assert_eq!(sort_names(&mixed), expected);
    assert!(sort_names(&Vec::new()).is_empty());
}

#[test]
fn sorted_tag_text_orders_and_squeezes() {
    assert_eq!(sorted_tag_text("dog cat  bird"), "bird cat dog");
    assert_eq!(sorted_tag_text("b a b"), "a b b");
    assert_eq!(sorted_tag_text(" single "), "single");
    assert_eq!(sorted_tag_text(""), "");
    assert_eq!(sorted_tag_text("b\ta\nc"), "a b c");
    assert_eq!(sorted_tag_text("b\u{a0}a c"), "b\u{a0}a c");
    assert_eq!(sorted_tag_text("z b\u{a0}a c"), "b\u{a0}a c z");
}

fn stored(width: u32, height: u32, thumbnail_width: u32, thumbnail_height: u32) -> StoredMedia {
    StoredMedia {
        media: "abc.png".to_string(),
        media_type: "image".to_string(),
        thumbnail: "thumb-abc.png".to_string(),
        width,
        height,
        thumbnail_width,
        thumbnail_height,
    }
}

#[test]
fn a_complete_upload_becomes_a_private_unrated_post() {
    assert_eq!(
        assemble_upload(7, true, Some(stored(640, 480, 192, 144))),
        Ok(NewPost {
            uploader_id: 7,
            media: "abc.png".to_string(),
            media_type: "image".to_string(),
            thumbnail: "thumb-abc.png".to_string(),
            width: 640,
            height: 480,
            thumbnail_width: 192,
            thumbnail_height: 144,
            rating: "u".to_string(),
            is_public: false,
        })
    );
}

#[test]
fn an_incomplete_upload_lacks_parameters() {
    let missing = Err(SameyError::Other("Missing parameters for upload".to_string()));
    assert_eq!(assemble_upload(7, false, Some(stored(1, 1, 1, 1))), missing);
    assert_eq!(assemble_upload(7, true, None), missing);
    assert_eq!(assemble_upload(7, false, None), missing);
    assert_eq!(assemble_upload(7, true, Some(stored(0, 1, 1, 1))), missing);
    assert_eq!(assemble_upload(7, true, Some(stored(1, 0, 1, 1))), missing);
    assert_eq!(assemble_upload(7, true, Some(stored(1, 1, 0, 1))), missing);
    assert_eq!(assemble_upload(7, true, Some(stored(1, 1, 1, 0))), missing);
}

#[test]
fn a_dimension_that_does_not_fit_is_refused_first() {
    let too_large = Err(SameyError::Other("Dimension out of range".to_string()));
    assert_eq!(assemble_upload(7, true, Some(stored(u32::MAX, 1, 1, 1))), too_large);
    assert_eq!(assemble_upload(7, false, Some(stored(1, 1, 1, 0x8000_0000))), too_large);
    assert!(assemble_upload(7, true, Some(stored(0x7fff_ffff, 1, 1, 1))).is_ok());
}

#[test]
fn markdown_becomes_html() {
    assert_eq!(markdown("*hi* there"), "<p><em>hi</em> there</p>\n");
    assert_eq!(markdown("# Title"), "<h1>Title</h1>\n");
    assert_eq!(markdown(""), "");
    assert_eq!(markdown("a < b"), "<p>a &lt; b</p>\n");
}

#[test]
fn descriptions_are_rendered_where_there_are_any() {
    assert_eq!(
        description_html(Some(&"**bold**".to_string())),
        Some("<p><strong>bold</strong></p>\n".to_string())
    );
    assert_eq!(description_html(None), None);
}
