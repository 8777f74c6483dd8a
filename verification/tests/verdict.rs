use clamav_client::{clean, DecodeFailure, PONG};

const EICAR_FILE_SIGNATURE_FOUND_RESPONSE: &[u8] = b"stream: Eicar-Signature FOUND\0";
const OK_RESPONSE: &[u8] = b"stream: OK\0";
const SIZE_LIMIT_EXCEEDED_ERROR_RESPONSE: &[u8] = b"INSTREAM size limit exceeded. ERROR\0";

#[test]
fn ok_response_is_clean() {
    assert_eq!(clean(OK_RESPONSE), Ok(true));
}

#[test]
fn found_response_is_not_clean() {
    assert_eq!(clean(EICAR_FILE_SIGNATURE_FOUND_RESPONSE), Ok(false));
}

#[test]
fn size_limit_response_is_not_clean() {
    assert_eq!(clean(SIZE_LIMIT_EXCEEDED_ERROR_RESPONSE), Ok(false));
}

#[test]
fn found_outweighs_ok() {
    assert_eq!(clean(b"stream: OK-Signature FOUND\0"), Ok(false));
    assert_eq!(clean(b"FOUND OK"), Ok(false));
}

#[test]
fn empty_response_is_not_clean() {
    assert_eq!(clean(b""), Ok(false));
}

#[test]
fn marks_are_matched_by_case() {
    assert_eq!(clean(b"stream: ok\0"), Ok(false));
    assert_eq!(clean(b"stream: O K\0"), Ok(false));
    assert_eq!(clean(b"stream: OK found\0"), Ok(true));
    assert_eq!(clean(b"OK"), Ok(true));
    assert_eq!(clean(b"TOKEN"), Ok(true));
}

#[test]
fn text_beyond_ascii_is_read() {
    assert_eq!(clean("stream: \u{00e9}t\u{00e9} OK\0".as_bytes()), Ok(true));
    assert_eq!(clean("\u{1f980} FOUND \u{1f980}".as_bytes()), Ok(false));
}

#[test]
fn response_that_is_no_text_has_no_verdict() {
    assert_eq!(clean(&[0xff, 0xfe, 0xfd]), Err(DecodeFailure));
    assert_eq!(clean(&[b'O', b'K', 0x80]), Err(DecodeFailure));
    assert_eq!(clean(&[0xc3]), Err(DecodeFailure));
    assert_eq!(clean(&[0xed, 0xa0, 0x80]), Err(DecodeFailure));
    assert_eq!(clean(&[0xc0, 0xaf, b'O', b'K']), Err(DecodeFailure));
}

#[test]
fn pong_is_five_bytes() {
    assert_eq!(PONG.len(), 5);
    assert_eq!(&PONG, b"PONG\0");
}

#[test]
fn verdict_goes_by_the_bytes_alone() {
    for response in [
        OK_RESPONSE,
        EICAR_FILE_SIGNATURE_FOUND_RESPONSE,
        SIZE_LIMIT_EXCEEDED_ERROR_RESPONSE,
        &[0xff, 0x00][..],
    ] {
        let first = clean(response);
        let second = clean(response);
        assert_eq!(first, second);
        let copy: Vec<u8> = response.iter().copied().collect();
        assert_eq!(copy.as_slice(), response);
        assert_eq!(clean(&copy), first);
    }
}
