use floaty_notes::codec::{decode_note, encode_note};
use floaty_notes::Note;

fn note(ts: &str, title: &str, content: &str) -> Note {
    Note { ts: ts.to_string(), title: title.to_string(), content: content.to_string() }
}

fn assert_round_trip(n: &Note) {
    let line = encode_note(n);
    assert!(!line.contains('\n'), "encoded line must stay on one line: {line:?}");
    let back = decode_note(&line).expect("round trip must decode");
    assert_eq!(back.ts, n.ts);
    assert_eq!(back.title, n.title);
    assert_eq!(back.content, n.content);
}

#[test]
fn round_trip_simple() {
    assert_round_trip(&note("2024-01-02 03:04:05", "groceries", "milk and eggs"));
}

#[test]
fn round_trip_empty_fields() {
    assert_round_trip(&note("", "", ""));
}

#[test]
fn round_trip_multiline_content() {
    assert_round_trip(&note("2024-01-02 03:04:05", "plan", "first line\nsecond line\n\nfourth"));
}

#[test]
fn round_trip_quotes_and_backslashes() {
    assert_round_trip(&note("t", "say \"hi\"", "a\\b\\\\c \"quoted\" end"));
}

#[test]
fn round_trip_tabs_and_carriage_returns() {
    assert_round_trip(&note("t", "col\tumn", "line\r\nnext\twide"));
}

#[test]
fn round_trip_unicode() {
    assert_round_trip(&note("2024-06-01 10:00:00", "naïve café", "日本語のメモ — ünïcode"));
}

#[test]
fn encode_exact_form() {
    let line = encode_note(&note("t", "a", "b"));
    assert_eq!(line, "{\"ts\":\"t\",\"title\":\"a\",\"content\":\"b\"}");
}

#[test]
fn encode_escapes_newline() {
    let line = encode_note(&note("t", "a", "x\ny"));
    assert_eq!(line, "{\"ts\":\"t\",\"title\":\"a\",\"content\":\"x\\ny\"}");
}

#[test]
fn decode_rejects_garbage() {
    assert!(decode_note("not a record at all").is_none());
    assert!(decode_note("").is_none());
    assert!(decode_note("{}").is_none());
    assert!(decode_note("{\"ts\":\"t\"}").is_none());
}

#[test]
fn decode_rejects_truncated_line() {
    let line = encode_note(&note("t", "a", "b"));
    let cut = &line[..line.len() - 1];
    assert!(decode_note(cut).is_none());
}

#[test]
fn decode_rejects_bad_escape() {
    assert!(decode_note("{\"ts\":\"\\q\",\"title\":\"a\",\"content\":\"b\"}").is_none());
}

#[test]
fn decode_rejects_trailing_junk() {
    assert!(decode_note("{\"ts\":\"t\",\"title\":\"a\",\"content\":\"b\"} ").is_none());
}

#[test]
fn decode_accepts_escaped_fields() {
    let n = decode_note("{\"ts\":\"t\",\"title\":\"a\\\"b\",\"content\":\"x\\ny\"}").unwrap();
    assert_eq!(n.title, "a\"b");
    assert_eq!(n.content, "x\ny");
}
