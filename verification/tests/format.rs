//! The durable form: emitted payloads and accepted payloads.

use zellij_harpoon::codec::{encode_bookmarks, parse_bookmarks};
use zellij_harpoon::model::PaneBookmark;

fn bookmark(tab: &str, title: &str) -> PaneBookmark {
    PaneBookmark { tab_name: String::from(tab), pane_title: String::from(title) }
}

#[test]
fn encode_empty_list() {
    assert_eq!(encode_bookmarks(&vec![]), "[]");
}

#[test]
fn encode_two_bookmarks_exactly() {
    let payload = encode_bookmarks(&vec![bookmark("work", "server"), bookmark("mail", "inbox")]);
    assert_eq!(
        payload,
        "[{\"tab_name\":\"work\",\"pane_title\":\"server\"},{\"tab_name\":\"mail\",\"pane_title\":\"inbox\"}]"
    );
}

#[test]
fn encode_escapes_quotes_and_backslashes() {
    let payload = encode_bookmarks(&vec![bookmark("a\"b", "c\\d")]);
    assert_eq!(payload, "[{\"tab_name\":\"a\\\"b\",\"pane_title\":\"c\\\\d\"}]");
}

#[test]
fn encode_escapes_control_characters() {
    let payload = encode_bookmarks(&vec![bookmark("l1\nl2", "t\tr\r")]);
    assert_eq!(payload, "[{\"tab_name\":\"l1\\nl2\",\"pane_title\":\"t\\tr\\r\"}]");
}

#[test]
fn parse_empty_array() {
    let parsed = parse_bookmarks("[]").expect("empty array parses");
    assert!(parsed.is_empty());
    let spaced = parse_bookmarks("  [ ]  ").expect("whitespace is accepted");
    assert!(spaced.is_empty());
}

#[test]
fn parse_canonical_payload() {
    let parsed = parse_bookmarks(
        "[{\"tab_name\":\"work\",\"pane_title\":\"server\"},{\"tab_name\":\"mail\",\"pane_title\":\"inbox\"}]",
    )
    .expect("canonical payload parses");
    assert_eq!(parsed.len(), 2);
    assert_eq!(parsed[0].tab_name, "work");
    assert_eq!(parsed[0].pane_title, "server");
    assert_eq!(parsed[1].tab_name, "mail");
    assert_eq!(parsed[1].pane_title, "inbox");
}

#[test]
fn parse_accepts_whitespace_and_swapped_keys() {
    let parsed = parse_bookmarks(
        " [ { \"pane_title\" : \"server\" , \"tab_name\" : \"work\" } ] ",
    )
    .expect("either key order is accepted");
    assert_eq!(parsed.len(), 1);
    assert_eq!(parsed[0].tab_name, "work");
    assert_eq!(parsed[0].pane_title, "server");
}

#[test]
fn parse_decodes_escapes() {
    let parsed = parse_bookmarks(
        "[{\"tab_name\":\"a\\\"b\\\\c\\/d\",\"pane_title\":\"x\\ny\\tz\\r\\b\\f\"}]",
    )
    .expect("escapes decode");
    assert_eq!(parsed[0].tab_name, "a\"b\\c/d");
    assert_eq!(parsed[0].pane_title, "x\ny\tz\r\u{8}\u{c}");
}

#[test]
fn round_trip_preserves_bookmarks() {
    let original = vec![
        bookmark("work", "server"),
        bookmark("tab \"2\"", "a\\b"),
        bookmark("lines", "one\ntwo\tthree"),
        bookmark("", ""),
    ];
    let parsed = parse_bookmarks(&encode_bookmarks(&original)).expect("round trip parses");
    assert_eq!(parsed.len(), original.len());
    for (a, b) in original.iter().zip(parsed.iter()) {
        assert_eq!(a.tab_name, b.tab_name);
        assert_eq!(a.pane_title, b.pane_title);
    }
}

#[test]
fn parse_rejects_unknown_escape() {
    assert!(parse_bookmarks("[{\"tab_name\":\"a\\u0041\",\"pane_title\":\"b\"}]").is_none());
}

#[test]
fn parse_rejects_trailing_content() {
    assert!(parse_bookmarks("[] extra").is_none());
    assert!(parse_bookmarks("[][]").is_none());
}

#[test]
fn parse_rejects_wrong_or_missing_keys() {
    assert!(parse_bookmarks("[{\"tab\":\"a\",\"pane_title\":\"b\"}]").is_none());
    assert!(parse_bookmarks("[{\"tab_name\":\"a\"}]").is_none());
    assert!(
        parse_bookmarks("[{\"tab_name\":\"a\",\"tab_name\":\"b\"}]").is_none()
    );
}

#[test]
fn parse_rejects_malformed_structure() {
    assert!(parse_bookmarks("").is_none());
    assert!(parse_bookmarks("{").is_none());
    assert!(parse_bookmarks("[,]").is_none());
    assert!(parse_bookmarks("[{\"tab_name\":\"a\",\"pane_title\":\"b\"}").is_none());
    assert!(parse_bookmarks("[{\"tab_name\":\"a\",\"pane_title\":\"b\"},]").is_none());
    assert!(parse_bookmarks("[{\"tab_name\":\"a\",\"pane_title\":\"b\"]").is_none());
    assert!(parse_bookmarks("[{\"tab_name\":\"a\",\"pane_title\":\"b}]").is_none());
}

#[test]
fn parse_accepts_raw_non_ascii_text() {
    let parsed = parse_bookmarks("[{\"tab_name\":\"caf\u{e9}\",\"pane_title\":\"\u{1f600}\"}]")
        .expect("raw text outside ASCII is accepted");
    assert_eq!(parsed[0].tab_name, "caf\u{e9}");
    assert_eq!(parsed[0].pane_title, "\u{1f600}");
}
