//! The daemon's verdict on what it scanned.

use crate::trusted::{occurs_in, str_contains};
use vstd::prelude::*;
use vstd::string::StringSliceAdditionalSpecFns;
use vstd::utf8::{
    decode_utf8, encode_utf8, encode_utf8_decode_utf8, encode_utf8_valid_utf8, is_ascii_chars,
    is_ascii_chars_encode_utf8, valid_utf8,
};

verus! {

/// A response that is no UTF-8 text.
#[derive(Clone, Copy, Debug, PartialEq, Eq)]
pub struct DecodeFailure;

/// Whether what was scanned is clean, where the response can be read.
pub type Utf8Result = Result<bool, DecodeFailure>;

/// The word by which the daemon reports that it found nothing.
pub open spec fn ok_mark() -> Seq<char> {
    seq!['O', 'K']
}

/// The word by which the daemon reports a signature.
pub open spec fn found_mark() -> Seq<char> {
    seq!['F', 'O', 'U', 'N', 'D']
}

/// What a response says of the content that was scanned: clean where its
/// text holds `OK` and does not hold `FOUND`; no verdict where it is no text.
pub open spec fn verdict(response: Seq<u8>) -> Utf8Result {
    if valid_utf8(response) {
        let text = decode_utf8(response);
        Ok(occurs_in(ok_mark(), text) && !occurs_in(found_mark(), text))
    } else {
        Err(DecodeFailure)
    }
}

/// The bytes of a text of ASCII characters: one byte for each character.
pub open spec fn ascii_bytes(text: Seq<char>) -> Seq<u8> {
    Seq::new(text.len(), |i: int| text[i] as u8)
}

/// Reads the daemon's response to a scan.
pub fn clean(response: &[u8]) -> (result: Utf8Result)
    ensures
        result == verdict(response@),
{
    match core::str::from_utf8(response) {
        Ok(text) => {
            proof {
                reveal_strlit("OK");
                reveal_strlit("FOUND");
                encode_utf8_decode_utf8(text@);
                assert("OK"@ =~= ok_mark());
                assert("FOUND"@ =~= found_mark());
            }
            Ok(str_contains(text, "OK") && !str_contains(text, "FOUND"))
        },
        Err(_) => Err(DecodeFailure),
    }
}

/// The verdict goes by the bytes of the response and by nothing else:
/// responses that are equal byte for byte have the same verdict.
pub proof fn verdict_follows_bytes(a: Seq<u8>, b: Seq<u8>)
    requires
        a.len() == b.len(),
        forall|i: int| 0 <= i < a.len() ==> a[i] == b[i],
    ensures
        verdict(a) == verdict(b),
{
    assert(a =~= b);
}

/// A response of ASCII characters has a verdict, and it is read from the
/// characters as they stand.
pub proof fn verdict_of_ascii(text: Seq<char>)
    requires
        is_ascii_chars(text),
    ensures
        verdict(ascii_bytes(text)) == Ok::<bool, DecodeFailure>(
            occurs_in(ok_mark(), text) && !occurs_in(found_mark(), text),
        ),
{
    is_ascii_chars_encode_utf8(text);
    assert(encode_utf8(text) =~= ascii_bytes(text));
    encode_utf8_valid_utf8(text);
    encode_utf8_decode_utf8(text);
}

} // verus!
