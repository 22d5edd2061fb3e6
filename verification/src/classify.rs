//! Which files qualify: an image by its extension, of a size within bounds.
//!
//! Two tables read the extension and are kept apart: the one that says what
//! is an image, which belongs to the `image` crate, and the one that names
//! the content type of an upload, which is written out here.

use crate::text::str_eq;
use image::ImageFormat;
use vstd::prelude::*;

verus! {

/// `image::ImageFormat`, the formats that the `image` crate knows. Nothing
/// here looks inside a value of it.
#[verifier::external_type_specification]
#[verifier::external_body]
pub struct ExImageFormat(image::ImageFormat);

/// Whether the `image` crate knows a format for `extension`.
pub uninterp spec fn image_format_known(extension: Seq<char>) -> bool;

/// The extensions that every table of image formats holds.
pub open spec fn is_common_image_extension(extension: Seq<char>) -> bool {
    ||| extension == "jpg"@
    ||| extension == "jpeg"@
    ||| extension == "png"@
    ||| extension == "gif"@
}

/// What is known of a file when it is looked at.
pub struct FileRecord {
    /// The path of the file.
    pub path: String,
    /// The extension of the path, without the dot; empty where it has none.
    pub extension: String,
    /// The length of the file in bytes; `None` where it could not be read.
    pub size: Option<u64>,
    /// When the file was created, in seconds since 1970; `None` where that is
    /// not to be had.
    pub creation_time: Option<u64>,
}

/// `size` was read and lies between `min_size` and `max_size`, both counted
/// in.
pub open spec fn size_in_bounds(size: Option<u64>, min_size: u64, max_size: u64) -> bool {
    match size {
        Some(bytes) => min_size <= bytes <= max_size,
        None => false,
    }
}

/// The content type sent with a file of the given extension.
pub open spec fn content_type_of(extension: Seq<char>) -> Seq<char> {
    if extension == "jpg"@ || extension == "jpeg"@ {
        "image/jpeg"@
    } else if extension == "png"@ {
        "image/png"@
    } else if extension == "gif"@ {
        "image/gif"@
    } else {
        "application/octet-stream"@
    }
}

/// A file that may be uploaded: an image of a size within the bounds.
pub open spec fn eligible(file: FileRecord, min_size: u64, max_size: u64) -> bool {
    image_format_known(file.extension@) && size_in_bounds(file.size, min_size, max_size)
}

/// Calls `image::ImageFormat::from_extension`. The crate lowers the ASCII
/// letters of the extension and looks it up in its table of formats; the
/// result is a format exactly where the table holds the extension. The table
/// holds `jpg`, `jpeg`, `png` and `gif`, and not the empty extension.
#[verifier::external_body]
fn format_of_extension(extension: &str) -> (format: Option<ImageFormat>)
    ensures
        format.is_some() == image_format_known(extension@),
        is_common_image_extension(extension@) ==> format.is_some(),
        extension@.len() == 0 ==> format.is_none(),
{
    ImageFormat::from_extension(extension)
}

/// Whether a file with this extension is an image.
pub fn is_image(extension: &str) -> (image: bool)
    ensures
        image == image_format_known(extension@),
        is_common_image_extension(extension@) ==> image,
        extension@.len() == 0 ==> !image,
{
    format_of_extension(extension).is_some()
}

/// Whether a size that was read lies within the bounds; a size that could
/// not be read does not.
pub fn is_valid_size(size: Option<u64>, min_size: u64, max_size: u64) -> (valid: bool)
    ensures
        valid == size_in_bounds(size, min_size, max_size),
{
    match size {
        Some(bytes) => bytes >= min_size && bytes <= max_size,
        None => false,
    }
}

/// Whether a file may be uploaded.
pub fn is_eligible(file: &FileRecord, min_size: u64, max_size: u64) -> (yes: bool)
    ensures
        yes == eligible(*file, min_size, max_size),
        yes ==> file.extension@.len() > 0,
{
    is_image(file.extension.as_str()) && is_valid_size(file.size, min_size, max_size)
}

/// The content type sent with a file of the given extension. Only the
/// extension as written counts: `JPG` is no `jpg` here.
pub fn content_type(extension: &str) -> (name: &'static str)
    ensures
        name@ == content_type_of(extension@),
{
    if str_eq(extension, "jpg") || str_eq(extension, "jpeg") {
        "image/jpeg"
    } else if str_eq(extension, "png") {
        "image/png"
    } else if str_eq(extension, "gif") {
        "image/gif"
    } else {
        "application/octet-stream"
    }
}

} // verus!
