use fig2json::json::{text_equal, Json, JsonNumber};
use fig2json::schema::{find_node, guid_matches, scope_to_node, NodeId};

fn id(session_id: u64, local_id: u64) -> NodeId {
    NodeId { session_id, local_id }
}

fn entry(key: &str, value: Json) -> (String, Json) {
    (key.to_string(), value)
}

fn uint(n: u64) -> Json {
    Json::Number(JsonNumber::PosInt(n))
}

fn guid(local_id: Json, session_id: Json) -> Json {
    Json::Object(vec![entry("localID", local_id), entry("sessionID", session_id)])
}

fn node(name: &str, g: Json, children: Vec<Json>) -> Json {
    Json::Object(vec![
        entry("children", Json::Array(children)),
        entry("guid", g),
        entry("name", Json::Text(name.to_string())),
    ])
}

fn name_of(node: &Json) -> String {
    match node.get("name") {
        Some(Json::Text(s)) => s.clone(),
        _ => panic!("node has no name"),
    }
}

#[test]
fn get_reads_objects_only() {
    let obj = Json::Object(vec![entry("a", uint(1)), entry("b", uint(2)), entry("a", uint(3))]);
    assert_eq!(obj.get("a").and_then(Json::as_u64), Some(1));
    assert_eq!(obj.get("b").and_then(Json::as_u64), Some(2));
    assert!(obj.get("c").is_none());
    assert!(Json::Array(vec![uint(1)]).get("a").is_none());
    assert!(Json::Null.get("a").is_none());
}

#[test]
fn as_u64_reads_non_negative_integers_only() {
    assert_eq!(uint(7).as_u64(), Some(7));
    assert_eq!(Json::Number(JsonNumber::NegInt(-7)).as_u64(), None);
    assert_eq!(Json::Number(JsonNumber::Float(7.0f64.to_bits())).as_u64(), None);
    assert_eq!(Json::Text("7".to_string()).as_u64(), None);
}

#[test]
fn clone_copies_the_whole_tree() {
    let tree = node("Root", guid(uint(0), uint(0)), vec![node("Kid", guid(uint(1), uint(0)), vec![])]);
    let copy = tree.clone();
    assert_eq!(format!("{:?}", copy), format!("{:?}", tree));
}

#[test]
fn text_equal_compares_characters() {
    assert!(text_equal("guid", "guid"));
    assert!(!text_equal("guid", "guidPath"));
    assert!(!text_equal("a", "b"));
    assert!(text_equal("", ""));
}

#[test]
fn guid_matches_needs_both_halves_as_unsigned_integers() {
    assert!(guid_matches(&guid(uint(2), uint(1)), &id(1, 2)));
    assert!(!guid_matches(&guid(uint(1), uint(2)), &id(1, 2)));
    assert!(!guid_matches(&guid(Json::Number(JsonNumber::Float(2.0f64.to_bits())), uint(1)), &id(1, 2)));
    assert!(!guid_matches(&guid(uint(2), Json::Text("1".to_string())), &id(1, 2)));
    assert!(!guid_matches(&Json::Object(vec![entry("localID", uint(2))]), &id(0, 2)));
    assert!(!guid_matches(&uint(2), &id(1, 2)));
}

#[test]
fn targeting_the_root_returns_the_whole_tree() {
    let tree = node("Root", guid(uint(0), uint(0)), vec![node("Child", guid(uint(1), uint(0)), vec![])]);
    let found = find_node(&tree, &id(0, 0)).unwrap();
    assert_eq!(name_of(&found), "Root");
    assert!(found.get("children").is_some());
    assert_eq!(format!("{:?}", found), format!("{:?}", tree));
}

#[test]
fn searches_top_level_arrays_and_nested_objects() {
    let tree = Json::Array(vec![
        Json::Null,
        Json::Object(vec![entry("wrapper", node("Deep", guid(uint(5), uint(4)), vec![]))]),
    ]);
    assert_eq!(name_of(&find_node(&tree, &id(4, 5)).unwrap()), "Deep");
    assert!(find_node(&uint(3), &id(4, 5)).is_none());
}

#[test]
fn a_node_before_its_contents() {
    let tree = node("Outer", guid(uint(1), uint(1)), vec![node("Inner", guid(uint(1), uint(1)), vec![])]);
    assert_eq!(name_of(&find_node(&tree, &id(1, 1)).unwrap()), "Outer");
}

#[test]
fn scope_without_target_keeps_the_document() {
    let tree = node("Root", guid(uint(0), uint(0)), vec![]);
    let scoped = scope_to_node(tree.clone(), None).unwrap();
    assert_eq!(format!("{:?}", scoped), format!("{:?}", tree));
}

#[test]
fn scope_to_a_target_keeps_its_subtree() {
    let tree = node("Root", guid(uint(0), uint(0)), vec![node("Frame", guid(uint(3), uint(2)), vec![])]);
    let scoped = scope_to_node(tree, Some(&id(2, 3))).unwrap();
    assert_eq!(name_of(&scoped), "Frame");
}

#[test]
fn scope_to_a_missing_target_names_it() {
    let tree = node("Root", guid(uint(0), uint(0)), vec![]);
    let missing = id(9, 9);
    assert_eq!(scope_to_node(tree, Some(&missing)).err(), Some(missing));
}
