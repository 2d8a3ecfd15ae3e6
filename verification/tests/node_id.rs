use fig2json::schema::{parse_node_id, NodeId};

fn id(session_id: u64, local_id: u64) -> NodeId {
    NodeId { session_id, local_id }
}

#[test]
fn error_quotes_the_input() {
    let err = NodeId::parse("garbage").unwrap_err();
    assert_eq!(err, "expected sessionID:localID, e.g. 6886:48774, got \"garbage\"");
    let err = "a\"b".parse::<NodeId>().unwrap_err();
    assert_eq!(err, "expected sessionID:localID, e.g. 6886:48774, got \"a\\\"b\"");
}

#[test]
fn from_str_and_parse_node_id_agree() {
    for s in ["1:2", "3-4", " 5 : 6 ", "x", "7:", "+8:9"] {
        assert_eq!(s.parse::<NodeId>().ok(), parse_node_id(s));
    }
}

#[test]
fn rest_form_reads_back() {
    for (a, b) in [(0, 0), (6886, 48774), (u64::MAX, 1), (10, u64::MAX), (100, 9)] {
        let shown = id(a, b).to_string();
        assert_eq!(parse_node_id(&shown), Some(id(a, b)));
    }
}

#[test]
fn renders_zero_and_extremes() {
    assert_eq!(id(0, 0).to_string(), "0:0");
    assert_eq!(id(u64::MAX, 10).to_string(), "18446744073709551615:10");
}

#[test]
fn splits_at_the_first_separator() {
    assert_eq!(parse_node_id("1-2:3"), None);
    assert_eq!(parse_node_id("1:2-3"), None);
    assert_eq!(parse_node_id("12:34"), Some(id(12, 34)));
}

#[test]
fn accepts_a_leading_plus_and_leading_zeros() {
    assert_eq!(parse_node_id("+5:007"), Some(id(5, 7)));
    assert_eq!(parse_node_id("+:1"), None);
    assert_eq!(parse_node_id("++5:1"), None);
}

#[test]
fn accepts_u64_max_and_rejects_one_more() {
    assert_eq!(parse_node_id("18446744073709551615:1"), Some(id(u64::MAX, 1)));
    assert_eq!(parse_node_id("18446744073709551616:1"), None);
    assert_eq!(parse_node_id("1:18446744073709551616"), None);
}

#[test]
fn trims_unicode_white_space() {
    assert_eq!(parse_node_id("\t1\u{3000}-\u{a0}2\n"), Some(id(1, 2)));
    // Inner white space is not trimmed.
    assert_eq!(parse_node_id("1 2:3"), None);
}

#[test]
fn rejects_non_ascii_digits() {
    assert_eq!(parse_node_id("\u{0661}:2"), None);
    assert_eq!(parse_node_id("1:\u{ff12}"), None);
}

#[test]
fn rejects_empty_and_blank_halves() {
    assert_eq!(parse_node_id(""), None);
    assert_eq!(parse_node_id(":"), None);
    assert_eq!(parse_node_id("  : 1"), None);
}
