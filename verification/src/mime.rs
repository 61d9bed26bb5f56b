//! The table from file extensions to content types.

use vstd::prelude::*;
use vstd::string::StringSliceAdditionalSpecFns;
use crate::bytes::{bytes_eq, is_trimmed};
use crate::path::{extension, extension_of};
use crate::reader::on_one_line;

verus! {

/// The content type of a file of unknown kind.
pub open spec fn default_type() -> Seq<u8> {
    "application/octet-stream".spec_bytes()
}

/// The content type that the table gives for an extension; the default for
/// a file without one and for an extension that the table does not hold.
/// Extensions are told apart by case.
pub open spec fn mime_type(ext: Option<Seq<u8>>) -> Seq<u8> {
    if ext == Some("txt".spec_bytes()) {
        "text/plain; charset=utf-8".spec_bytes()
    } else if ext == Some("html".spec_bytes()) {
        "text/html; charset=utf-8".spec_bytes()
    } else if ext == Some("css".spec_bytes()) {
        "text/css; charset=utf-8".spec_bytes()
    } else if ext == Some("js".spec_bytes()) {
        "text/javascript; charset=utf-8".spec_bytes()
    } else if ext == Some("jpg".spec_bytes()) {
        "image/jpeg".spec_bytes()
    } else if ext == Some("jpeg".spec_bytes()) {
        "image/jpeg".spec_bytes()
    } else if ext == Some("png".spec_bytes()) {
        "image/png".spec_bytes()
    } else if ext == Some("zip".spec_bytes()) {
        "application/zip".spec_bytes()
    } else {
        default_type()
    }
}

/// The content type of the file that `path` names, by its extension.
pub open spec fn content_type_of(path: Seq<u8>) -> Seq<u8> {
    mime_type(extension(path))
}

/// Looks up the content type of the file that `path` names.
pub fn content_type(path: &[u8]) -> (r: &'static str)
    ensures
        r.spec_bytes() == content_type_of(path@),
{
    match extension_of(path) {
        None => "application/octet-stream",
        Some(ext) => {
            if bytes_eq(ext, "txt".as_bytes()) {
                "text/plain; charset=utf-8"
            } else if bytes_eq(ext, "html".as_bytes()) {
                "text/html; charset=utf-8"
            } else if bytes_eq(ext, "css".as_bytes()) {
                "text/css; charset=utf-8"
            } else if bytes_eq(ext, "js".as_bytes()) {
                "text/javascript; charset=utf-8"
            } else if bytes_eq(ext, "jpg".as_bytes()) {
                "image/jpeg"
            } else if bytes_eq(ext, "jpeg".as_bytes()) {
                "image/jpeg"
            } else if bytes_eq(ext, "png".as_bytes()) {
                "image/png"
            } else if bytes_eq(ext, "zip".as_bytes()) {
                "application/zip"
            } else {
                "application/octet-stream"
            }
        },
    }
}

/// An extension that the table does not hold gives the default type, and
/// so does a file without extension.
pub proof fn lemma_unlisted_extension(ext: Option<Seq<u8>>)
    requires
        ext != Some("txt".spec_bytes()),
        ext != Some("html".spec_bytes()),
        ext != Some("css".spec_bytes()),
        ext != Some("js".spec_bytes()),
        ext != Some("jpg".spec_bytes()),
        ext != Some("jpeg".spec_bytes()),
        ext != Some("png".spec_bytes()),
        ext != Some("zip".spec_bytes()),
    ensures
        mime_type(ext) == default_type(),
        mime_type(None) == default_type(),
{
}

/// Every content type of the table, the default too, is free of line
/// feeds and of surrounding white space.
pub proof fn lemma_mime_type_fits(ext: Option<Seq<u8>>)
    ensures
        on_one_line(mime_type(ext)),
        is_trimmed(mime_type(ext)),
{
    reveal_strlit("text/plain; charset=utf-8");
    reveal_strlit("text/html; charset=utf-8");
    reveal_strlit("text/css; charset=utf-8");
    reveal_strlit("text/javascript; charset=utf-8");
    reveal_strlit("image/jpeg");
    reveal_strlit("image/png");
    reveal_strlit("application/zip");
    reveal_strlit("application/octet-stream");
    vstd::string::is_ascii_spec_bytes("text/plain; charset=utf-8");
    vstd::string::is_ascii_spec_bytes("text/html; charset=utf-8");
    vstd::string::is_ascii_spec_bytes("text/css; charset=utf-8");
    vstd::string::is_ascii_spec_bytes("text/javascript; charset=utf-8");
    vstd::string::is_ascii_spec_bytes("image/jpeg");
    vstd::string::is_ascii_spec_bytes("image/png");
    vstd::string::is_ascii_spec_bytes("application/zip");
    vstd::string::is_ascii_spec_bytes("application/octet-stream");
}

} // verus!
