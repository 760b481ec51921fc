//! Framing, scanning and the query envelope.

use reql::frame::{encode_frame, take_frame, HEADER_LEN};
use reql::json::{escape_json, parse_u64_at, scan_value, unescape_json};
use reql::query::{parse_query_envelope, u64_to_dec, wrap_query, QueryKind};

#[test]
fn frame_layout_is_token_length_payload() {
    let frame = encode_frame(0x0102030405060708, b"abc");
    assert_eq!(frame.len(), HEADER_LEN + 3);
    // token, little-endian
    assert_eq!(&frame[0..8], &[8, 7, 6, 5, 4, 3, 2, 1]);
    // length, little-endian
    assert_eq!(&frame[8..12], &[3, 0, 0, 0]);
    assert_eq!(&frame[12..], b"abc");
}

#[test]
fn frame_round_trips_with_trailing_bytes() {
    let mut buf = encode_frame(42, b"hello");
    buf.extend_from_slice(b"rest");
    let (token, payload, used) = take_frame(&buf).unwrap();
    assert_eq!(token, 42);
    assert_eq!(payload, b"hello".to_vec());
    assert_eq!(used, HEADER_LEN + 5);
}

#[test]
fn partial_frame_is_not_exposed() {
    let frame = encode_frame(7, b"abcdef");
    // header alone, and header plus a short payload: no frame yet
    assert!(take_frame(&frame[..11]).is_none());
    assert!(take_frame(&frame[..HEADER_LEN + 3]).is_none());
    assert!(take_frame(&frame).is_some());
}

#[test]
fn scan_value_finds_value_extents() {
    // scanning starts inside `[`..`]`: extents end at top-level commas
    let s = b"{\"a\":[1,2]},\"x,y\",3]";
    assert_eq!(scan_value(s, 0), 11);
    assert_eq!(scan_value(s, 12), 17);
    assert_eq!(scan_value(s, 18), 19);
}

#[test]
fn decimal_renders_and_parses() {
    assert_eq!(u64_to_dec(0), b"0".to_vec());
    assert_eq!(u64_to_dec(4100000), b"4100000".to_vec());
    assert_eq!(u64_to_dec(u64::MAX), b"18446744073709551615".to_vec());
    assert_eq!(parse_u64_at(b"4100000,", 0), Some((4100000, 7)));
    assert_eq!(parse_u64_at(b"x12", 0), None);
    // one past the largest u64
    assert_eq!(parse_u64_at(b"18446744073709551616", 0), None);
}

#[test]
fn string_escapes_round_trip() {
    let escaped = escape_json(b"a\"b\\c");
    assert_eq!(escaped, b"a\\\"b\\\\c".to_vec());
    assert_eq!(unescape_json(&escaped), Some(b"a\"b\\c".to_vec()));
    assert_eq!(unescape_json(b"line\\nbreak"), Some(b"line\nbreak".to_vec()));
    assert_eq!(unescape_json(b"dangling\\"), None);
    assert_eq!(unescape_json(b"bad\\q"), None);
}

#[test]
fn unicode_escapes_decode_to_utf8() {
    // one-, two- and three-byte code points, either hex case
    assert_eq!(unescape_json(b"ok\\u0041!"), Some(b"okA!".to_vec()));
    assert_eq!(unescape_json(b"\\u00e9"), Some(vec![0xC3, 0xA9]));
    assert_eq!(unescape_json(b"x\\u20ACy"), Some(b"x\xE2\x82\xACy".to_vec()));
    // a surrogate pair joins to one four-byte code point
    assert_eq!(
        unescape_json(b"\\uD83D\\uDE00"),
        Some(vec![0xF0, 0x9F, 0x98, 0x80])
    );
    // surrogates must come whole and paired
    assert_eq!(unescape_json(b"\\uD83D"), None);
    assert_eq!(unescape_json(b"\\uD83Dxx"), None);
    assert_eq!(unescape_json(b"\\uDE00"), None);
    assert_eq!(unescape_json(b"\\uD83D\\u0041"), None);
    // short or malformed hex runs are refused
    assert_eq!(unescape_json(b"\\u12"), None);
    assert_eq!(unescape_json(b"\\uZZZZ"), None);
}

#[test]
fn query_envelope_shapes() {
    let term = b"{\"a\":1}".to_vec();
    let opts = b"{\"db\":\"blog\"}".to_vec();
    assert_eq!(
        wrap_query(QueryKind::Start, Some(&term), Some(&opts)),
        b"[1,{\"a\":1},{\"db\":\"blog\"}]".to_vec()
    );
    assert_eq!(
        wrap_query(QueryKind::Start, Some(&term), None),
        b"[1,{\"a\":1}]".to_vec()
    );
    assert_eq!(wrap_query(QueryKind::Continue, None, None), b"[2]".to_vec());
    assert_eq!(wrap_query(QueryKind::Stop, None, None), b"[3]".to_vec());
    assert_eq!(wrap_query(QueryKind::NoreplyWait, None, None), b"[4]".to_vec());
}

#[test]
fn query_envelope_round_trips() {
    let term = b"{\"a\":[1,2,{\"b\":\"x,]\"}]}".to_vec();
    let opts = b"{\"db\":\"blog\"}".to_vec();
    let envelope = wrap_query(QueryKind::Start, Some(&term), Some(&opts));
    let (code, term2, opts2) = parse_query_envelope(&envelope).unwrap();
    assert_eq!(code, 1);
    assert_eq!(term2, Some(term));
    assert_eq!(opts2, Some(opts));

    let bare = wrap_query(QueryKind::Continue, None, None);
    assert_eq!(parse_query_envelope(&bare), Some((2, None, None)));
}

#[test]
fn malformed_envelopes_are_refused() {
    assert!(parse_query_envelope(b"").is_none());
    assert!(parse_query_envelope(b"[]").is_none());
    assert!(parse_query_envelope(b"[x]").is_none());
    assert!(parse_query_envelope(b"[1,]").is_none());
    assert!(parse_query_envelope(b"1,2]").is_none());
}
