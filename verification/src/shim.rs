//! The library's few trusted ties to code it does not verify: checked UTF-8
//! decoding from std, the image crate's format recognition and decoding, and
//! one random draw. Each wrapper's contract states only what the relied-upon
//! function's source or documentation shows.

use vstd::prelude::*;
use vstd::utf8::{decode_utf8, valid_utf8};

verus! {

/// Relies on core::str::from_utf8: it succeeds exactly on valid UTF-8 input
/// and yields the characters that the bytes encode.
#[verifier::external_body]
pub(crate) fn bytes_to_string(v: &[u8]) -> (r: Option<String>)
    ensures
        r is Some <==> valid_utf8(v@),
        r matches Some(s) ==> s@ == decode_utf8(v@),
{
    match core::str::from_utf8(v) {
        Ok(s) => Some(s.to_owned()),
        Err(_) => None,
    }
}

/// Whether an extension names a raster image format the image crate
/// recognizes. Recognition is a function of the extension string alone.
pub uninterp spec fn is_recognized_image_ext(ext: Seq<char>) -> bool;

/// Relies on image::ImageFormat::from_extension: it returns a format exactly
/// for the extensions of the raster formats the crate knows, by the extension
/// string alone.
#[verifier::external_body]
pub(crate) fn ext_format_recognized(ext: &str) -> (r: bool)
    ensures
        r == is_recognized_image_ext(ext@),
{
    image::ImageFormat::from_extension(ext).is_some()
}

/// Whether bytes decode as the raster format named by an extension; a
/// function of the extension and the bytes alone.
pub uninterp spec fn is_decodable_image(ext: Seq<char>, data: Seq<u8>) -> bool;

/// Relies on image::ImageFormat::from_extension and
/// image::load_from_memory_with_format: looking the format up and decoding
/// the bytes as it are functions of the extension and the bytes alone.
#[verifier::external_body]
pub(crate) fn image_decodes(ext: &str, data: &[u8]) -> (r: bool)
    requires
        is_recognized_image_ext(ext@),
    ensures
        r == is_decodable_image(ext@, data@),
{
    match image::ImageFormat::from_extension(ext) {
        Some(format) => image::load_from_memory_with_format(data, format).is_ok(),
        None => false,
    }
}

/// An ASCII letter or digit.
pub open spec fn is_ascii_alphanumeric(c: char) -> bool {
    (97 <= c as u32 && c as u32 <= 122) || (65 <= c as u32 && c as u32 <= 90) || (48 <= c as u32
        && c as u32 <= 57)
}

/// Relies on fastrand::alphanumeric: every drawn character is one of
/// a-z, A-Z, 0-9. Which ones come out is chance, so nothing more is claimed.
#[verifier::external_body]
pub(crate) fn random_alphanumeric_string(len: usize) -> (s: String)
    ensures
        s@.len() == len as nat,
        forall|i: int| 0 <= i < s@.len() ==> is_ascii_alphanumeric(#[trigger] s@[i]),
{
    core::iter::repeat_with(fastrand::alphanumeric).take(len).collect()
}

} // verus!
