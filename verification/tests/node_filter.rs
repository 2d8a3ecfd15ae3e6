use fig2json::json::{Json, JsonNumber};
use fig2json::schema::{find_node, parse_node_id, NodeId};

fn id(session_id: u64, local_id: u64) -> NodeId {
    NodeId { session_id, local_id }
}

fn text(s: &str) -> Json {
    Json::Text(s.to_string())
}

fn uint(n: u64) -> Json {
    Json::Number(JsonNumber::PosInt(n))
}

/// An object with its entries in the order the decoder's maps walk them
/// (ascending keys).
fn object(entries: Vec<(&str, Json)>) -> Json {
    let mut entries: Vec<(String, Json)> =
        entries.into_iter().map(|(k, v)| (k.to_string(), v)).collect();
    entries.sort_by(|a, b| a.0.cmp(&b.0));
    Json::Object(entries)
}

fn guid(local_id: u64, session_id: u64) -> Json {
    object(vec![("localID", uint(local_id)), ("sessionID", uint(session_id))])
}

fn name_of(node: &Json) -> String {
    match node.get("name") {
        Some(Json::Text(s)) => s.clone(),
        _ => panic!("node has no name"),
    }
}

#[test]
fn parses_rest_colon_form() {
    assert_eq!(parse_node_id("6886:48774"), Some(id(6886, 48774)));
}

#[test]
fn parses_url_dash_form() {
    assert_eq!(parse_node_id("6886-48774"), Some(id(6886, 48774)));
}

#[test]
fn accepts_surrounding_whitespace() {
    assert_eq!(parse_node_id("  6886 : 48774 "), Some(id(6886, 48774)));
}

#[test]
fn rejects_unparseable_id() {
    assert_eq!(parse_node_id("not-a-pair-of-ints"), None);
    assert_eq!(parse_node_id("6886"), None);
}

#[test]
fn rejects_missing_half() {
    assert_eq!(parse_node_id("6886:"), None);
    assert_eq!(parse_node_id(":48774"), None);
}

#[test]
fn rejects_negative_id() {
    // Figma session/local ids are unsigned; a negative can never match a node,
    // so it should be rejected at parse time rather than become a phantom miss.
    assert_eq!(parse_node_id("5:-3"), None);
}

#[test]
fn from_str_error_names_the_expected_form() {
    let err = "garbage".parse::<NodeId>().unwrap_err();
    assert!(err.contains("sessionID:localID"), "unhelpful error: {err}");
}

#[test]
fn displays_as_session_colon_local() {
    assert_eq!(id(6886, 48774).to_string(), "6886:48774");
}

#[test]
fn finds_nested_node_with_its_subtree_excluding_siblings() {
    let tree = object(vec![(
        "document",
        object(vec![
            ("guid", guid(0, 0)),
            (
                "children",
                Json::Array(vec![
                    object(vec![
                        ("guid", guid(48774, 6886)),
                        ("name", text("Target")),
                        (
                            "children",
                            Json::Array(vec![object(vec![
                                ("guid", guid(1, 6886)),
                                ("name", text("Kid")),
                            ])]),
                        ),
                    ]),
                    object(vec![("guid", guid(2, 6886)), ("name", text("Sibling"))]),
                ]),
            ),
        ]),
    )]);

    let found = find_node(&tree, &id(6886, 48774)).unwrap();

    assert_eq!(name_of(&found), "Target");
    // The returned subtree carries the node's own children and excludes siblings.
    let children = match found.get("children") {
        Some(Json::Array(items)) => items,
        _ => panic!("no children"),
    };
    assert_eq!(children.len(), 1, "subtree must not include siblings");
    assert_eq!(name_of(&children[0]), "Kid");
}

#[test]
fn returns_first_match_in_depth_first_order() {
    let tree = object(vec![(
        "children",
        Json::Array(vec![
            object(vec![("guid", guid(7, 1)), ("name", text("First"))]),
            object(vec![("guid", guid(7, 1)), ("name", text("Second"))]),
        ]),
    )]);

    let found = find_node(&tree, &id(1, 7)).unwrap();

    assert_eq!(name_of(&found), "First");
}

#[test]
fn returns_none_when_no_node_matches() {
    let tree = object(vec![("guid", guid(0, 0))]);
    assert!(find_node(&tree, &id(9, 9)).is_none());
}

#[test]
fn ignores_matching_ids_that_are_not_node_guids() {
    // Only a node's own `guid` identity may match — a same-valued symbolID must
    // not. The decoy is visited first, so an over-eager matcher would wrongly
    // return it.
    let tree = object(vec![(
        "children",
        Json::Array(vec![
            object(vec![
                ("name", text("Decoy")),
                ("guid", guid(1, 6886)),
                ("symbolID", guid(48774, 6886)),
            ]),
            object(vec![("name", text("Real")), ("guid", guid(48774, 6886))]),
        ]),
    )]);

    let found = find_node(&tree, &id(6886, 48774)).unwrap();

    assert_eq!(name_of(&found), "Real");
}

#[test]
fn rejects_out_of_range_id() {
    assert_eq!(parse_node_id("99999999999999999999:1"), None);
}
