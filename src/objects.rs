use vstd::prelude::*;

use crate::text::{opt_chars, same_text};

verus! {

/// The MIME type that `infer` reads from the leading bytes of a file.
pub uninterp spec fn sniffed_mime(bytes: Seq<u8>) -> Option<Seq<char>>;

/// Relies on `infer::get`: the MIME type of the first of its magic-number
/// rules that the bytes meet; it depends on the bytes alone.
#[verifier::external_body]
fn sniff_mime(bytes: &[u8]) -> (r: Option<String>)
    ensures
        opt_chars(r) == sniffed_mime(bytes@),
{
    infer::get(bytes).map(|t| t.mime_type().to_string())
}

/// The MIME types of executables and shared libraries.
pub open spec fn is_object_type(m: Seq<char>) -> bool {
    m == "application/x-executable"@ || m == "application/x-sharedlib"@
}

/// Whether a sniffed MIME type marks an executable or a shared library.
pub fn is_object_mime(mime: &Option<String>) -> (r: bool)
    ensures
        r == (opt_chars(*mime) matches Some(m) && is_object_type(m)),
{
    match mime {
        Some(m) => same_text(m.as_str(), "application/x-executable") || same_text(
            m.as_str(),
            "application/x-sharedlib",
        ),
        None => false,
    }
}

/// Whether a file that starts with `head` is an executable or a shared
/// library, by its content.
pub fn is_linkable_object(head: &Vec<u8>) -> (r: bool)
    ensures
        r == (sniffed_mime(head@) matches Some(m) && is_object_type(m)),
{
    let mime = sniff_mime(head.as_slice());
    is_object_mime(&mime)
}

} // verus!
