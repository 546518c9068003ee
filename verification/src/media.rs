//! The files of an upload: what kind of media a content type announces, and the
//! names under which the media and its thumbnail are stored.

use crate::error::SameyError;
use crate::text::{push_chars, same_text};
use std::str::FromStr;
use vstd::prelude::*;

verus! {

/// `image::ImageFormat`, the formats that the image decoder tells apart. A value
/// is carried through as it is; nothing is read of it here.
#[verifier::external_type_specification]
#[verifier::external_body]
pub struct ExImageFormat(image::ImageFormat);

/// Whether `image::ImageFormat::from_mime_type` knows a format for the content type.
pub uninterp spec fn is_image_type(content_type: Seq<char>) -> bool;

/// `image::ImageFormat::from_mime_type`: the image format that a MIME type names,
/// looked up in a fixed table; none for a type that is not in the table.
#[verifier::external_body]
fn image_format_of(content_type: &str) -> (format: Option<image::ImageFormat>)
    ensures
        format.is_some() == is_image_type(content_type@),
{
    image::ImageFormat::from_mime_type(content_type)
}

/// `image::ImageFormat::extensions_str`: the file extensions of a format, the usual
/// one first. The list may be empty.
#[verifier::external_body]
fn extensions_of(format: &image::ImageFormat) -> (extensions: &'static [&'static str]) {
    format.extensions_str()
}

/// Whether `c` is an ASCII letter or digit.
pub open spec fn is_alphanumeric(c: char) -> bool {
    'a' <= c <= 'z' || 'A' <= c <= 'Z' || '0' <= c <= '9'
}

/// `rand::Rng::sample` of `rand::distr::Alphanumeric` on the thread's generator:
/// one of the ASCII letters and digits, which one is left to chance.
#[verifier::external_body]
fn sample_alphanumeric() -> (c: char)
    ensures
        is_alphanumeric(c),
{
    char::from(rand::Rng::sample(&mut rand::rng(), rand::distr::Alphanumeric))
}

/// The number of characters in the random part of a file name.
pub const STEM_LENGTH: usize = 8;

/// The extension of the thumbnail of a video, which is always a PNG image.
pub const VIDEO_THUMBNAIL_EXTENSION: &'static str = "png";

/// What was uploaded.
#[derive(Debug, PartialEq, Eq)]
pub enum Format {
    /// A video, with the extension of its file, dot included.
    Video(&'static str),
    /// An image in this format.
    Image(image::ImageFormat),
}

/// The file extension, dot included, of the video that a content type announces;
/// none where it announces no video.
pub open spec fn video_extension(content_type: Seq<char>) -> Option<Seq<char>> {
    if content_type == "video/mp4"@ {
        Some(".mp4"@)
    } else if content_type == "video/webm"@ {
        Some(".webm"@)
    } else if content_type == "application/x-matroska"@ || content_type == "video/mastroska"@ {
        Some(".mkv"@)
    } else if content_type == "video/quicktime"@ {
        Some(".mov"@)
    } else {
        None
    }
}

/// The names of the file of an image and of its thumbnail.
pub open spec fn image_names(stem: Seq<char>, extension: Seq<char>) -> (Seq<char>, Seq<char>) {
    (stem + "."@ + extension, "thumb-"@ + stem + "."@ + extension)
}

/// The names of the file of a video and of its thumbnail. The extension of the
/// video brings its dot.
pub open spec fn video_names(stem: Seq<char>, extension: Seq<char>) -> (Seq<char>, Seq<char>) {
    (stem + extension, "thumb-"@ + stem + "."@ + VIDEO_THUMBNAIL_EXTENSION@)
}

impl Format {
    /// The kind of media, as it is stored with the post.
    pub open spec fn media_type_of(&self) -> Seq<char> {
        match self {
            Format::Video(_) => "video"@,
            Format::Image(_) => "image"@,
        }
    }

    /// The kind of media, as it is stored with the post.
    pub fn media_type(&self) -> (kind: &'static str)
        ensures
            kind@ == self.media_type_of(),
    {
        match self {
            Format::Video(_) => "video",
            Format::Image(_) => "image",
        }
    }

    /// Decides what a content type announces: one of the known videos, or an
    /// image in a format that the image decoder knows. Anything else is refused.
    pub fn from_content_type(content_type: &str) -> (format: Result<Format, SameyError>)
        ensures
            match video_extension(content_type@) {
                Some(extension) => format matches Ok(Format::Video(found)) && found@ == extension,
                None => if is_image_type(content_type@) {
                    format matches Ok(Format::Image(_))
                } else {
                    format matches Err(SameyError::Other(reason)) && reason@
                        == "Unknown content type: "@ + content_type@
                },
            },
    {
        if same_text(content_type, "video/mp4") {
            Ok(Format::Video(".mp4"))
        } else if same_text(content_type, "video/webm") {
            Ok(Format::Video(".webm"))
        } else if same_text(content_type, "application/x-matroska") || same_text(
            content_type,
            "video/mastroska",
        ) {
            Ok(Format::Video(".mkv"))
        } else if same_text(content_type, "video/quicktime") {
            Ok(Format::Video(".mov"))
        } else {
            match image_format_of(content_type) {
                Some(format) => Ok(Format::Image(format)),
                None => {
                    let mut reason = String::new();
                    push_chars(&mut reason, "Unknown content type: ");
                    push_chars(&mut reason, content_type);
                    assert(reason@ =~= "Unknown content type: "@ + content_type@);
                    Err(SameyError::Other(reason))
                },
            }
        }
    }
}

impl FromStr for Format {
    type Err = SameyError;

    fn from_str(content_type: &str) -> (format: Result<Self, Self::Err>)
        ensures
            match video_extension(content_type@) {
                Some(extension) => format matches Ok(Format::Video(found)) && found@ == extension,
                None => if is_image_type(content_type@) {
                    format matches Ok(Format::Image(_))
                } else {
                    format matches Err(SameyError::Other(reason)) && reason@
                        == "Unknown content type: "@ + content_type@
                },
            },
    {
        Format::from_content_type(content_type)
    }
}

/// The names under which an image and its thumbnail are stored.
pub fn image_file_names(stem: &str, extension: &str) -> (names: (String, String))
    ensures
        (names.0@, names.1@) == image_names(stem@, extension@),
{
    let mut file_name = String::new();
    push_chars(&mut file_name, stem);
    push_chars(&mut file_name, ".");
    push_chars(&mut file_name, extension);
    let mut thumbnail = String::new();
    push_chars(&mut thumbnail, "thumb-");
    push_chars(&mut thumbnail, file_name.as_str());
    assert(file_name@ =~= stem@ + "."@ + extension@);
    assert(thumbnail@ =~= "thumb-"@ + stem@ + "."@ + extension@);
    (file_name, thumbnail)
}

/// The names under which a video and its thumbnail are stored.
pub fn video_file_names(stem: &str, extension: &str) -> (names: (String, String))
    ensures
        (names.0@, names.1@) == video_names(stem@, extension@),
{
    let mut file_name = String::new();
    push_chars(&mut file_name, stem);
    push_chars(&mut file_name, extension);
    let mut thumbnail = String::new();
    push_chars(&mut thumbnail, "thumb-");
    push_chars(&mut thumbnail, stem);
    push_chars(&mut thumbnail, ".");
    push_chars(&mut thumbnail, VIDEO_THUMBNAIL_EXTENSION);
    assert(file_name@ =~= stem@ + extension@);
    assert(thumbnail@ =~= "thumb-"@ + stem@ + "."@ + VIDEO_THUMBNAIL_EXTENSION@);
    (file_name, thumbnail)
}

/// The names under which an upload and its thumbnail are stored: those of a
/// video by its extension, those of an image by the usual extension of its
/// format. A format without an extension gets no names.
pub fn media_file_names(stem: &str, format: &Format) -> (names: Option<(String, String)>)
    ensures
        match format {
            Format::Video(extension) => names matches Some(names) && (names.0@, names.1@)
                == video_names(stem@, extension@),
            Format::Image(_) => names matches Some(names) ==> exists|extension: Seq<char>|
                (names.0@, names.1@) == #[trigger] image_names(stem@, extension),
        },
{
    match format {
        Format::Video(extension) => Some(video_file_names(stem, extension)),
        Format::Image(image_format) => {
            let extensions = extensions_of(image_format);
            if extensions.len() > 0 {
                let names = image_file_names(stem, extensions[0]);
                assert((names.0@, names.1@) == image_names(stem@, extensions[0]@));
                Some(names)
            } else {
                None
            }
        },
    }
}

/// A fresh random stem for the names of an upload: eight ASCII letters and digits.
pub fn random_stem() -> (stem: String)
    ensures
        stem@.len() == STEM_LENGTH,
        forall|i: int| 0 <= i < stem@.len() ==> is_alphanumeric(#[trigger] stem@[i]),
{
    let mut stem = String::new();
    let mut i: usize = 0;
    while i < STEM_LENGTH
        invariant
            i <= STEM_LENGTH,
            stem@.len() == i,
            forall|k: int| 0 <= k < stem@.len() ==> is_alphanumeric(#[trigger] stem@[k]),
        decreases STEM_LENGTH - i,
    {
        let c = sample_alphanumeric();
        stem.push(c);
        i += 1;
    }
    stem
}

/// What was stored of an upload: the two files, and their dimensions as they were
/// measured.
#[derive(Clone, Debug, PartialEq, Eq)]
pub struct StoredMedia {
    pub media: String,
    pub media_type: String,
    pub thumbnail: String,
    pub width: u32,
    pub height: u32,
    pub thumbnail_width: u32,
    pub thumbnail_height: u32,
}

/// The row of a post that was just uploaded. It is private, unrated, untitled and
/// has no parent until it is edited.
#[derive(Clone, Debug, PartialEq, Eq)]
pub struct NewPost {
    pub uploader_id: i32,
    pub media: String,
    pub media_type: String,
    pub thumbnail: String,
    pub width: i32,
    pub height: i32,
    pub thumbnail_width: i32,
    pub thumbnail_height: i32,
    /// The code of the rating.
    pub rating: String,
    pub is_public: bool,
}

/// Whether a measured dimension can be stored: it fits the column.
pub open spec fn fits(dimension: u32) -> bool {
    dimension <= i32::MAX
}

/// Whether every dimension of the media can be stored.
pub open spec fn all_fit(media: &StoredMedia) -> bool {
    fits(media.width) && fits(media.height) && fits(media.thumbnail_width) && fits(
        media.thumbnail_height,
    )
}

/// Whether no dimension of the media is zero.
pub open spec fn none_empty(media: &StoredMedia) -> bool {
    media.width > 0 && media.height > 0 && media.thumbnail_width > 0 && media.thumbnail_height
        > 0
}

/// Whether `post` is the row for `media`, uploaded by `uploader_id`.
pub open spec fn is_row_for(post: NewPost, uploader_id: i32, media: &StoredMedia) -> bool {
    &&& post.uploader_id == uploader_id
    &&& post.media@ == media.media@
    &&& post.media_type@ == media.media_type@
    &&& post.thumbnail@ == media.thumbnail@
    &&& post.width == media.width
    &&& post.height == media.height
    &&& post.thumbnail_width == media.thumbnail_width
    &&& post.thumbnail_height == media.thumbnail_height
    &&& post.rating@ == seq!['u']
    &&& !post.is_public
}

/// Puts the row of a new post together once the form of an upload was read.
/// A dimension that does not fit is an error of its own; an upload without its
/// tags field, without its file, or with a file of no width or height lacks
/// parameters.
pub fn assemble_upload(uploader_id: i32, tags_given: bool, media: Option<StoredMedia>) -> (post:
    Result<NewPost, SameyError>)
    ensures
        match media {
            Some(media) => if !all_fit(&media) {
                post matches Err(SameyError::Other(reason)) && reason@
                    == "Dimension out of range"@
            } else if tags_given && none_empty(&media) {
                post matches Ok(post) && is_row_for(post, uploader_id, &media)
            } else {
                post matches Err(SameyError::Other(reason)) && reason@
                    == "Missing parameters for upload"@
            },
            None => post matches Err(SameyError::Other(reason)) && reason@
                == "Missing parameters for upload"@,
        },
{
    let mut missing = String::new();
    push_chars(&mut missing, "Missing parameters for upload");
    assert(missing@ =~= "Missing parameters for upload"@);
    let media = match media {
        Some(media) => media,
        None => {
            return Err(SameyError::Other(missing));
        },
    };
    let limit: u32 = 0x7fff_ffff;
    if media.width > limit || media.height > limit || media.thumbnail_width > limit
        || media.thumbnail_height > limit {
        let mut reason = String::new();
        push_chars(&mut reason, "Dimension out of range");
        assert(reason@ =~= "Dimension out of range"@);
        return Err(SameyError::Other(reason));
    }
    if !tags_given || media.width == 0 || media.height == 0 || media.thumbnail_width == 0
        || media.thumbnail_height == 0 {
        return Err(SameyError::Other(missing));
    }
    let mut rating = String::new();
    rating.push('u');
    assert(rating@ =~= seq!['u']);
    Ok(
        NewPost {
            uploader_id,
            width: media.width as i32,
            height: media.height as i32,
            thumbnail_width: media.thumbnail_width as i32,
            thumbnail_height: media.thumbnail_height as i32,
            media: media.media,
            media_type: media.media_type,
            thumbnail: media.thumbnail,
            rating,
            is_public: false,
        },
    )
}

} // verus!
