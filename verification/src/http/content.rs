//! The content classifier's policy: which media type a file is served as.
//!
//! The leading bytes of the file are looked at first; where they carry a
//! known signature, its media type is the answer.  Otherwise the extension of
//! the file's name decides, by a fixed table, and `text/plain` is the default.

use vstd::prelude::*;
use vstd::slice::slice_subrange;
use crate::http::path::extension;
use crate::http::path::file_extension;
use crate::text::text_eq;

verus! {

/// How many leading bytes of a file are looked at for a signature.
pub const SNIFF_LIMIT: usize = 8192;

/// The media type of the first signature known to `infer` that the bytes
/// `leading` match, or `None` where they match none.
pub uninterp spec fn sniffed_type(leading: Seq<u8>) -> Option<Seq<char>>;

/// Looks for a known signature at the start of a file.
///
/// Trusted: the body calls `infer::get`, which tries its built-in matchers in
/// a fixed order on the bytes it is given, and `Type::mime_type` on what it
/// finds.  The contract gives the result a name and claims only that it
/// depends on the bytes alone.
#[verifier::external_body]
pub(crate) fn sniff(leading: &[u8]) -> (found: Option<String>)
    ensures
        match found {
            Some(media_type) => sniffed_type(leading@) == Some(media_type@),
            None => sniffed_type(leading@) is None,
        },
{
    match infer::get(leading) {
        Some(kind) => Some(String::from(kind.mime_type())),
        None => None,
    }
}

/// The part of a file's content that is looked at for a signature.
pub open spec fn leading_bytes(content: Seq<u8>) -> Seq<u8> {
    if content.len() <= SNIFF_LIMIT {
        content
    } else {
        content.take(SNIFF_LIMIT as int)
    }
}

/// The media type that the table gives to the extension `ext`.
pub open spec fn extension_type(ext: Seq<char>) -> Seq<char> {
    if ext == "html"@ {
        "text/html"@
    } else if ext == "css"@ {
        "text/css"@
    } else if ext == "js"@ {
        "application/javascript"@
    } else if ext == "png"@ {
        "image/png"@
    } else if ext == "jpg"@ || ext == "jpeg"@ {
        "image/jpeg"@
    } else if ext == "mp4"@ {
        "video/mp4"@
    } else if ext == "gif"@ {
        "image/gif"@
    } else if ext == "pdf"@ {
        "application/pdf"@
    } else {
        "text/plain"@
    }
}

/// The media type of a file by its name alone.
pub open spec fn type_by_name(path: Seq<char>) -> Seq<char> {
    match extension(path) {
        Some(ext) => extension_type(ext),
        None => "text/plain"@,
    }
}

/// The media type of a file, given what its leading bytes were found to be.
pub open spec fn chosen_type(sniffed: Option<Seq<char>>, path: Seq<char>) -> Seq<char> {
    match sniffed {
        Some(media_type) => media_type,
        None => type_by_name(path),
    }
}

/// The media type that the file at `path` with the given content is served as.
pub open spec fn content_type_of(path: Seq<char>, content: Seq<u8>) -> Seq<char> {
    chosen_type(sniffed_type(leading_bytes(content)), path)
}

/// Looks an extension up in the table.
pub fn type_of_extension(ext: &str) -> (media_type: &'static str)
    ensures
        media_type@ == extension_type(ext@),
{
    if text_eq(ext, "html") {
        "text/html"
    } else if text_eq(ext, "css") {
        "text/css"
    } else if text_eq(ext, "js") {
        "application/javascript"
    } else if text_eq(ext, "png") {
        "image/png"
    } else if text_eq(ext, "jpg") || text_eq(ext, "jpeg") {
        "image/jpeg"
    } else if text_eq(ext, "mp4") {
        "video/mp4"
    } else if text_eq(ext, "gif") {
        "image/gif"
    } else if text_eq(ext, "pdf") {
        "application/pdf"
    } else {
        "text/plain"
    }
}

/// Chooses the media type of the file at `path`, given what its leading
/// bytes were found to be.
pub fn choose_content_type(sniffed: Option<String>, path: &str) -> (media_type: String)
    ensures
        media_type@ == chosen_type(
            match sniffed {
                Some(s) => Some(s@),
                None => None,
            },
            path@,
        ),
{
    match sniffed {
        Some(media_type) => media_type,
        None => match file_extension(path) {
            Some(ext) => String::from_str(type_of_extension(ext)),
            None => String::from_str("text/plain"),
        },
    }
}

/// The media type that the file at `path` with the given content is served as.
pub fn content_type(path: &str, content: &[u8]) -> (media_type: String)
    ensures
        media_type@ == content_type_of(path@, content@),
{
    let leading = if content.len() <= SNIFF_LIMIT {
        content
    } else {
        slice_subrange(content, 0, SNIFF_LIMIT)
    };
    assert(leading@ =~= leading_bytes(content@));
    choose_content_type(sniff(leading), path)
}

} // verus!
