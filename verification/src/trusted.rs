//! What is taken on trust: types and functions of `bytes` and of the standard
//! library, each with what is claimed of it.

use vstd::prelude::*;
use vstd::string::StringSliceAdditionalSpecFns;
use vstd::utf8::valid_utf8;

verus! {

/// A chunk of bytes as a producer hands it over.
#[verifier::external_type_specification]
#[verifier::external_body]
pub struct ExBytes(bytes::Bytes);

/// The bytes that a chunk holds, in their order.
pub uninterp spec fn bytes_contents(chunk: bytes::Bytes) -> Seq<u8>;

/// `<bytes::Bytes as AsRef<[u8]>>::as_ref`: the slice that it gives is the
/// chunk's contents, all of them and in their order.
#[verifier::external_body]
pub(crate) fn bytes_as_slice(chunk: &bytes::Bytes) -> (slice: &[u8])
    ensures
        slice@ == bytes_contents(*chunk),
{
    chunk.as_ref()
}

/// Why bytes are no UTF-8 text, as `core::str::from_utf8` reports it.
#[verifier::external_type_specification]
#[verifier::external_body]
pub struct ExUtf8Error(core::str::Utf8Error);

/// `core::str::from_utf8` succeeds on well-formed UTF-8 and on nothing else,
/// and the text that it gives is made of the very bytes that it was given.
pub assume_specification[ core::str::from_utf8 ](bytes: &[u8]) -> (text: Result<
    &str,
    core::str::Utf8Error,
>)
    ensures
        text is Ok <==> valid_utf8(bytes@),
        text matches Ok(s) ==> s.spec_bytes() == bytes@,
;

/// `pattern` stands somewhere in `text`, character for character.
pub open spec fn occurs_in(pattern: Seq<char>, text: Seq<char>) -> bool {
    exists|i: int|
        0 <= i && i + pattern.len() <= text.len() && #[trigger] text.subrange(
            i,
            i + pattern.len(),
        ) == pattern
}

/// `str::contains` with a string as its pattern: whether the pattern stands
/// somewhere in the text.
#[verifier::external_body]
pub(crate) fn str_contains(text: &str, pattern: &str) -> (found: bool)
    ensures
        found == occurs_in(pattern@, text@),
{
    text.contains(pattern)
}

/// A path in the file system, as `std::path` holds it.
#[verifier::external_type_specification]
#[verifier::external_body]
pub struct ExPathBuf(std::path::PathBuf);

/// `Clone::clone` of a path. Nothing is claimed of the copy.
pub assume_specification[ <std::path::PathBuf as Clone>::clone ](
    path: &std::path::PathBuf,
) -> (copy: std::path::PathBuf)
;

} // verus!
