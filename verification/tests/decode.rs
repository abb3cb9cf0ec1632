use leaky_snowflake_observer::api::{Tweet, User};
use leaky_snowflake_observer::json::parse_timeline;
use leaky_snowflake_observer::response::{check_status, decode_body, is_gzip_encoding, ResponseError};

fn tw(id: u64, uid: u64) -> Tweet {
    Tweet {
        id,
        user: User { id: uid },
    }
}

fn parse(body: &[u8]) -> Option<Vec<Tweet>> {
    let mut timeline = Vec::new();
    if parse_timeline(body, &mut timeline) {
        Some(timeline)
    } else {
        None
    }
}

fn gzip(data: &[u8]) -> Vec<u8> {
    let mut enc = flate2::write::GzEncoder::new(Vec::new(), flate2::Compression::default());
    std::io::Write::write_all(&mut enc, data).expect("compress");
    enc.finish().expect("finish")
}

#[test]
fn parses_empty_array() {
    assert_eq!(parse(b"[]"), Some(vec![]));
    assert_eq!(parse(b"  [ ]  "), Some(vec![]));
}

#[test]
fn parses_minimal_items() {
    let body = br#"[{"id": 3, "user": {"id": 4}}, {"id": 1, "user": {"id": 2}}]"#;
    assert_eq!(parse(body), Some(vec![tw(3, 4), tw(1, 2)]));
}

#[test]
fn parses_reordered_members() {
    let body = br#"[{"user": {"id": 4}, "id": 3}]"#;
    assert_eq!(parse(body), Some(vec![tw(3, 4)]));
}

#[test]
fn skips_unknown_fields_of_any_shape() {
    let body = "[{\"text\": \"a \\\"quoted\\\" \u{e9}\u{2014}string\", \"id\": 3, \"nums\": [1, -2.5e3, true, null], \"meta\": {\"deep\": {\"x\": [], \"u\": \"\\u0041\"}}, \"user\": {\"name\": \"n\", \"id\": 4, \"verified\": false}}]";
    assert_eq!(parse(body.as_bytes()), Some(vec![tw(3, 4)]));
}

#[test]
fn parses_max_u64_id() {
    let body = br#"[{"id": 18446744073709551615, "user": {"id": 0}}]"#;
    assert_eq!(parse(body), Some(vec![tw(u64::MAX, 0)]));
}

#[test]
fn rejects_id_overflow() {
    let body = br#"[{"id": 18446744073709551616, "user": {"id": 0}}]"#;
    assert_eq!(parse(body), None);
}

#[test]
fn rejects_non_array_top_level() {
    assert_eq!(parse(br#"{"id": 1}"#), None);
    assert_eq!(parse(b"17"), None);
    assert_eq!(parse(b""), None);
    assert_eq!(parse(b"   "), None);
}

#[test]
fn rejects_trailing_content() {
    assert_eq!(parse(b"[] []"), None);
    assert_eq!(parse(br#"[{"id": 1, "user": {"id": 2}}] x"#), None);
    // Trailing whitespace alone is fine.
    assert_eq!(
        parse(b"[{\"id\": 1, \"user\": {\"id\": 2}}] \n\t"),
        Some(vec![tw(1, 2)])
    );
}

#[test]
fn rejects_missing_or_duplicate_fields() {
    assert_eq!(parse(br#"[{"id": 1}]"#), None);
    assert_eq!(parse(br#"[{"user": {"id": 2}}]"#), None);
    assert_eq!(parse(br#"[{"id": 1, "id": 1, "user": {"id": 2}}]"#), None);
    assert_eq!(parse(br#"[{"id": 1, "user": {}}]"#), None);
    assert_eq!(parse(br#"[{"id": 1, "user": {"id": 2, "id": 2}}]"#), None);
}

#[test]
fn rejects_malformed_syntax() {
    assert_eq!(parse(b"["), None);
    assert_eq!(parse(br#"[{"id": 1, "user": {"id": 2}},]"#), None);
    assert_eq!(parse(br#"[{"id": -1, "user": {"id": 2}}]"#), None);
    assert_eq!(parse(br#"[{"id": 1.5, "user": {"id": 2}}]"#), None);
    assert_eq!(parse(br#"[{"id": 01, "user": {"id": 2}}]"#), None);
    assert_eq!(parse(br#"[{"id" 1, "user": {"id": 2}}]"#), None);
    assert_eq!(parse(br#"[{"id": 1, "user": {"id": 2}"#), None);
    assert_eq!(parse(br#"[{"id": 1, "user": {"id": 2}} {"id": 3}]"#), None);
    assert_eq!(parse(br#"[{"bad escape": "\x", "id": 1, "user": {"id": 2}}]"#), None);
}

#[test]
fn rejects_bad_strings_in_skipped_fields() {
    // A unicode escape needs four hex digits.
    assert_eq!(parse(br#"[{"x": "\u00g1", "id": 1, "user": {"id": 2}}]"#), None);
    // An unescaped control byte may not stand in a string.
    assert_eq!(
        parse(b"[{\"x\": \"a\x01b\", \"id\": 1, \"user\": {\"id\": 2}}]"),
        None
    );
    // An unterminated string runs off the input.
    assert_eq!(parse(br#"[{"x": "abc"#), None);
}

#[test]
fn buffer_reuse_leaves_no_residue() {
    // Re-running the decode stage on the same buffer produces the same
    // timeline as a fresh buffer: the buffer is cleared, not appended to.
    let body = br#"[{"id": 3, "user": {"id": 4}}]"#;
    let mut reused = vec![tw(99, 98), tw(97, 96)];
    assert!(parse_timeline(body, &mut reused));
    let mut fresh = Vec::new();
    assert!(parse_timeline(body, &mut fresh));
    assert_eq!(reused, fresh);
    assert_eq!(reused, vec![tw(3, 4)]);
    // A failed parse also leaves nothing behind.
    assert!(!parse_timeline(b"[", &mut reused));
    assert!(reused.is_empty());
}

#[test]
fn gzip_response_decodes_to_timeline() {
    // A 200 response with Content-Encoding: gzip and a gzip-compressed
    // array of two items decodes to a two-element timeline in original
    // order.
    assert!(check_status(200).is_ok());
    let gz_flag = is_gzip_encoding(b"gzip");
    assert!(gz_flag);
    let body = gzip(br#"[{"id": 3, "user": {"id": 4}}, {"id": 1, "user": {"id": 2}}]"#);
    let mut timeline = Vec::new();
    assert_eq!(decode_body(gz_flag, &body, &mut timeline), Ok(()));
    assert_eq!(timeline, vec![tw(3, 4), tw(1, 2)]);
}

#[test]
fn identity_body_is_used_as_is() {
    assert!(!is_gzip_encoding(b"identity"));
    assert!(!is_gzip_encoding(b"GZIP"));
    assert!(!is_gzip_encoding(b""));
    let mut timeline = Vec::new();
    let body = br#"[{"id": 5, "user": {"id": 6}}]"#;
    assert_eq!(decode_body(false, body, &mut timeline), Ok(()));
    assert_eq!(timeline, vec![tw(5, 6)]);
}

#[test]
fn gzip_flag_with_plain_bytes_is_an_error() {
    let mut timeline = Vec::new();
    assert_eq!(
        decode_body(true, b"[]", &mut timeline),
        Err(ResponseError::Gzip)
    );
}

#[test]
fn gzip_body_with_bad_payload_is_a_format_error() {
    let mut timeline = Vec::new();
    let body = gzip(br#"{"not": "an array"}"#);
    assert_eq!(
        decode_body(true, &body, &mut timeline),
        Err(ResponseError::Format)
    );
    assert!(timeline.is_empty());
}

#[test]
fn bad_status_ends_the_cycle() {
    assert_eq!(check_status(404), Err(ResponseError::Protocol(404)));
    assert_eq!(check_status(429), Err(ResponseError::Protocol(429)));
    assert!(check_status(200).is_ok());
}
