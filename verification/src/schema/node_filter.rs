//! Targeting a single node within a built document tree.
//!
//! A node's identity is its `guid` `{sessionID, localID}`. Users pass the id as
//! copied from Figma: REST form uses a colon (`6886:48774`), a figma.com URL uses
//! a dash (`?node-id=6886-48774`). Both separators are accepted; the first number
//! is matched against `sessionID`, the second against `localID`.

use vstd::prelude::*;

use crate::json::{JsonNumber, entries_wf, items_wf, entries_model, items_model, json_model, lemma_entries_model, lemma_items_model, Json, JsonModel};
use crate::text::{
    all_digits, all_white_space, chars_of, decimal_digits, decimal_value, is_digit, is_white_space,
    lemma_decimal_digits, lemma_parse_decimal_digits, lemma_parse_digits, parse_u64,
    parse_u64_range, push_decimal, trim, trimmed_range,
};

verus! {

/// A Figma node identifier, matching a `guid` `{sessionID, localID}`. Both halves
/// are unsigned, like the values the `.fig` decoder produces.
#[derive(Debug, Clone, Copy, PartialEq, Eq, Structural)]
pub struct NodeId {
    pub session_id: u64,
    pub local_id: u64,
}

/// The two characters that separate the halves of an id: `:` (REST) and `-` (URL).
pub open spec fn is_separator(c: char) -> bool {
    c == ':' || c == '-'
}

/// The position of the first separator in `s`, if there is one.
pub open spec fn separator_index(s: Seq<char>) -> Option<int>
    decreases s.len(),
{
    if s.len() == 0 {
        None
    } else if is_separator(s[0]) {
        Some(0)
    } else {
        match separator_index(s.drop_first()) {
            Some(i) => Some(i + 1),
            None => None,
        }
    }
}

/// The id that the text `s` denotes: the text is split at its first separator,
/// each half is trimmed of white space and read as an unsigned decimal number.
pub open spec fn node_id_from_text(s: Seq<char>) -> Option<NodeId> {
    match separator_index(s) {
        None => None,
        Some(i) => match (parse_u64(trim(s.take(i))), parse_u64(trim(s.skip(i + 1)))) {
            (Some(session_id), Some(local_id)) => Some(NodeId { session_id, local_id }),
            _ => None,
        },
    }
}

/// The REST form `sessionID:localID` of an id.
pub open spec fn rest_form(id: NodeId) -> Seq<char> {
    decimal_digits(id.session_id as nat) + seq![':'] + decimal_digits(id.local_id as nat)
}

/// What `format!("{:?}", s)` writes for a `str`: the text quoted, with escapes.
pub uninterp spec fn debug_rendering(s: Seq<char>) -> Seq<char>;

/// The error that explains the expected form of an id, for the text `s`.
pub open spec fn invalid_id_message(s: Seq<char>) -> Seq<char> {
    "expected sessionID:localID, e.g. 6886:48774, got "@ + debug_rendering(s)
}

/// `<str as Debug>::fmt` through `format!("{:?}", s)`. Its result is named by
/// `debug_rendering` and nothing more is claimed of it.
#[verifier::external_body]
fn debug_quoted(s: &str) -> (r: String)
    ensures
        r@ == debug_rendering(s@),
{
    format!("{:?}", s)
}

/// The position of the first separator in `chars`.
fn separator_position(chars: &Vec<char>) -> (r: Option<usize>)
    ensures
        match r {
            Some(i) => separator_index(chars@) == Some(i as int) && i < chars@.len(),
            None => separator_index(chars@) is None,
        },
{
    let mut i: usize = 0;
    assert(chars@.skip(0) =~= chars@);
    while i < chars.len()
        invariant
            i <= chars@.len(),
            match separator_index(chars@.skip(i as int)) {
                Some(k) => separator_index(chars@) == Some(k + i),
                None => separator_index(chars@) is None,
            },
        decreases chars@.len() - i,
    {
        assert(chars@.skip(i as int)[0] == chars@[i as int]);
        if chars[i] == ':' || chars[i] == '-' {
            return Some(i);
        }
        assert(chars@.skip(i as int).drop_first() =~= chars@.skip(i + 1));
        i = i + 1;
    }
    assert(chars@.skip(i as int) =~= Seq::<char>::empty());
    None
}

impl NodeId {
    /// Parses `sessionID:localID` (REST) or `sessionID-localID` (URL), with
    /// optional white space around each half. On failure the error names the
    /// expected form and quotes the input.
    pub fn parse(s: &str) -> (r: Result<NodeId, String>)
        ensures
            match node_id_from_text(s@) {
                Some(id) => r == Ok::<NodeId, String>(id),
                None => r matches Err(m) && m@ == invalid_id_message(s@),
            },
    {
        let chars = chars_of(s);
        let parsed = match separator_position(&chars) {
            None => None,
            Some(i) => {
                let (lo, hi) = trimmed_range(&chars, 0, i);
                let (lo2, hi2) = trimmed_range(&chars, i + 1, chars.len());
                assert(chars@.subrange(0, i as int) =~= chars@.take(i as int));
                assert(chars@.subrange(i + 1, chars@.len() as int) =~= chars@.skip(i + 1));
                match (parse_u64_range(&chars, lo, hi), parse_u64_range(&chars, lo2, hi2)) {
                    (Some(session_id), Some(local_id)) => Some(NodeId { session_id, local_id }),
                    _ => None,
                }
            },
        };
        match parsed {
            Some(id) => Ok(id),
            None => {
                let mut m = String::from_str("expected sessionID:localID, e.g. 6886:48774, got ");
                let q = debug_quoted(s);
                m.append(q.as_str());
                Err(m)
            },
        }
    }

    /// Renders the id in its REST form, `sessionID:localID`.
    pub fn to_string(&self) -> (r: String)
        ensures
            r@ == rest_form(*self),
    {
        let mut out = String::new();
        push_decimal(&mut out, self.session_id);
        out.push(':');
        push_decimal(&mut out, self.local_id);
        out
    }
}

impl std::str::FromStr for NodeId {
    type Err = String;

    /// Accepts `sessionID:localID` (REST) or `sessionID-localID` (URL), with
    /// optional surrounding white space around each half; see `NodeId::parse`.
    fn from_str(s: &str) -> (r: Result<Self, Self::Err>)
        ensures
            match node_id_from_text(s@) {
                Some(id) => r == Ok::<NodeId, String>(id),
                None => r matches Err(m) && m@ == invalid_id_message(s@),
            },
    {
        NodeId::parse(s)
    }
}

/// Parse a node id in REST form `sessionID:localID` or URL form `sessionID-localID`,
/// returning `None` if it does not parse.
pub fn parse_node_id(s: &str) -> (r: Option<NodeId>)
    ensures
        r == node_id_from_text(s@),
{
    match NodeId::parse(s) {
        Ok(id) => Some(id),
        Err(_) => None,
    }
}

/// The guid `guid` is that of `id`: its `localID` and `sessionID` are the
/// non-negative integers of `id`.
pub open spec fn guid_matches_model(guid: JsonModel, id: NodeId) -> bool {
    &&& (match guid.get("localID"@) {
        Some(v) => v.as_u64(),
        None => None,
    }) == Some(id.local_id)
    &&& (match guid.get("sessionID"@) {
        Some(v) => v.as_u64(),
        None => None,
    }) == Some(id.session_id)
}

/// `node` is an object whose own `guid` matches `id`.
pub open spec fn is_target(node: JsonModel, id: NodeId) -> bool {
    match node.get("guid"@) {
        Some(guid) => guid_matches_model(guid, id),
        None => false,
    }
}

/// The first node in depth-first order (a node before its contents, contents
/// in order) whose guid matches `id`, with its subtree.
pub open spec fn find_in(v: JsonModel, id: NodeId) -> Option<JsonModel>
    decreases v,
{
    match v {
        JsonModel::Object(es) => if is_target(v, id) {
            Some(v)
        } else {
            find_in_entries(es, id)
        },
        JsonModel::Array(items) => find_in_items(items, id),
        _ => None,
    }
}

/// The first match within a sequence of values.
pub open spec fn find_in_items(s: Seq<JsonModel>, id: NodeId) -> Option<JsonModel>
    decreases s,
{
    if s.len() == 0 {
        None
    } else {
        match find_in(s[0], id) {
            Some(n) => Some(n),
            None => find_in_items(s.drop_first(), id),
        }
    }
}

/// The first match within the values of a sequence of object entries.
pub open spec fn find_in_entries(s: Seq<(Seq<char>, JsonModel)>, id: NodeId) -> Option<JsonModel>
    decreases s,
{
    if s.len() == 0 {
        None
    } else {
        match find_in(s[0].1, id) {
            Some(n) => Some(n),
            None => find_in_entries(s.drop_first(), id),
        }
    }
}

/// Whether `guid` is the guid `{sessionID, localID}` of `id`.
pub fn guid_matches(guid: &Json, id: &NodeId) -> (r: bool)
    ensures
        r == guid_matches_model(guid@, *id),
        r == (guid@.get("sessionID"@) == Some(JsonModel::Number(JsonNumber::PosInt(id.session_id)))
            && guid@.get("localID"@) == Some(JsonModel::Number(JsonNumber::PosInt(id.local_id)))),
{
    let local = match guid.get("localID") {
        Some(v) => v.as_u64(),
        None => None,
    };
    let local_ok = match local {
        Some(n) => n == id.local_id,
        None => false,
    };
    if !local_ok {
        return false;
    }
    let session = match guid.get("sessionID") {
        Some(v) => v.as_u64(),
        None => None,
    };
    match session {
        Some(n) => n == id.session_id,
        None => false,
    }
}

/// Find the node whose `guid` matches `id`, returning a copy of that node and
/// its subtree. Searches depth-first and returns the first match (guids are
/// unique within a document); returns `None` when no node matches.
#[verifier::loop_isolation(false)]
pub fn find_node(value: &Json, id: &NodeId) -> (r: Option<Json>)
    ensures
        match find_in(value@, *id) {
            Some(n) => r matches Some(x) && x@ == n,
            None => r is None,
        },
        r matches Some(x) ==> (x@.get("guid"@) matches Some(g) && g.get("sessionID"@) == Some(
            JsonModel::Number(JsonNumber::PosInt(id.session_id)),
        ) && g.get("localID"@) == Some(JsonModel::Number(JsonNumber::PosInt(id.local_id)))),
    decreases value,
{
    proof {
        lemma_found_node_has_the_guid(value@, *id);
    }
    match value {
        Json::Object(entries) => {
            let is_match = match value.get("guid") {
                Some(guid) => guid_matches(guid, id),
                None => false,
            };
            if is_match {
                return Some(value.clone());
            }
            let ghost es = entries_model(entries@);
            proof {
                lemma_entries_model(entries@);
                assert(es.skip(0) =~= es);
            }
            let mut i: usize = 0;
            while i < entries.len()
                invariant
                    i <= entries@.len(),
                    find_in_entries(es, *id) == find_in_entries(es.skip(i as int), *id),
                decreases entries@.len() - i,
            {
                assert(es.skip(i as int)[0] == es[i as int]);
                proof {
                    assert(decreases_to!(*entries => entries[i as int]));
                    assert(decreases_to!(entries[i as int] => entries[i as int].1));
                }
                match find_node(&entries[i].1, id) {
                    Some(n) => {
                        return Some(n);
                    },
                    None => {},
                }
                assert(es.skip(i as int).drop_first() =~= es.skip(i + 1));
                i = i + 1;
            }
            assert(es.skip(i as int) =~= Seq::<(Seq<char>, JsonModel)>::empty());
            None
        },
        Json::Array(items) => {
            let ghost ms = items_model(items@);
            proof {
                lemma_items_model(items@);
                assert(ms.skip(0) =~= ms);
            }
            let mut i: usize = 0;
            while i < items.len()
                invariant
                    i <= items@.len(),
                    find_in_items(ms, *id) == find_in_items(ms.skip(i as int), *id),
                decreases items@.len() - i,
            {
                assert(ms.skip(i as int)[0] == ms[i as int]);
                proof {
                    assert(decreases_to!(*items => items[i as int]));
                }
                match find_node(&items[i], id) {
                    Some(n) => {
                        return Some(n);
                    },
                    None => {},
                }
                assert(ms.skip(i as int).drop_first() =~= ms.skip(i + 1));
                i = i + 1;
            }
            assert(ms.skip(i as int) =~= Seq::<JsonModel>::empty());
            None
        },
        _ => None,
    }
}

/// Scopes a document to one node: without a target the whole document; with
/// one, the subtree of the first node whose guid matches it, or the target
/// back as the error when no node matches.
pub fn scope_to_node(document: Json, target: Option<&NodeId>) -> (r: Result<Json, NodeId>)
    ensures
        match target {
            None => r matches Ok(d) && d@ == document@,
            Some(id) => match find_in(document@, *id) {
                Some(n) => r matches Ok(d) && d@ == n,
                None => r == Err::<Json, NodeId>(*id),
            },
        },
{
    match target {
        None => Ok(document),
        Some(id) => match find_node(&document, id) {
            Some(node) => Ok(node),
            None => Err(*id),
        },
    }
}

/// `n` is `v` itself or a value somewhere within it.
pub open spec fn occurs_in(n: JsonModel, v: JsonModel) -> bool
    decreases v,
{
    n == v || match v {
        JsonModel::Array(items) => occurs_in_items(n, items),
        JsonModel::Object(es) => occurs_in_entries(n, es),
        _ => false,
    }
}

/// `n` occurs within one of the values `s`.
pub open spec fn occurs_in_items(n: JsonModel, s: Seq<JsonModel>) -> bool
    decreases s,
{
    s.len() > 0 && (occurs_in(n, s[0]) || occurs_in_items(n, s.drop_first()))
}

/// `n` occurs within one of the values of the entries `s`.
pub open spec fn occurs_in_entries(n: JsonModel, s: Seq<(Seq<char>, JsonModel)>) -> bool
    decreases s,
{
    s.len() > 0 && (occurs_in(n, s[0].1) || occurs_in_entries(n, s.drop_first()))
}

proof fn lemma_find_in_sound(v: JsonModel, id: NodeId)
    ensures
        find_in(v, id) matches Some(n) ==> is_target(n, id) && occurs_in(n, v),
    decreases v,
{
    match v {
        JsonModel::Object(es) => {
            lemma_find_in_entries_sound(es, id);
        },
        JsonModel::Array(items) => {
            lemma_find_in_items_sound(items, id);
        },
        _ => {},
    }
}

proof fn lemma_find_in_items_sound(s: Seq<JsonModel>, id: NodeId)
    ensures
        find_in_items(s, id) matches Some(n) ==> is_target(n, id) && occurs_in_items(n, s),
    decreases s,
{
    if s.len() > 0 {
        lemma_find_in_sound(s[0], id);
        lemma_find_in_items_sound(s.drop_first(), id);
    }
}

proof fn lemma_find_in_entries_sound(s: Seq<(Seq<char>, JsonModel)>, id: NodeId)
    ensures
        find_in_entries(s, id) matches Some(n) ==> is_target(n, id) && occurs_in_entries(n, s),
    decreases s,
{
    if s.len() > 0 {
        lemma_find_in_sound(s[0].1, id);
        lemma_find_in_entries_sound(s.drop_first(), id);
    }
}

proof fn lemma_find_in_complete(v: JsonModel, id: NodeId, n: JsonModel)
    requires
        occurs_in(n, v),
        is_target(n, id),
    ensures
        find_in(v, id) is Some,
    decreases v,
{
    if n != v {
        match v {
            JsonModel::Object(es) => {
                lemma_find_in_entries_complete(es, id, n);
            },
            JsonModel::Array(items) => {
                lemma_find_in_items_complete(items, id, n);
            },
            _ => {},
        }
    }
}

proof fn lemma_find_in_items_complete(s: Seq<JsonModel>, id: NodeId, n: JsonModel)
    requires
        occurs_in_items(n, s),
        is_target(n, id),
    ensures
        find_in_items(s, id) is Some,
    decreases s,
{
    if occurs_in(n, s[0]) {
        lemma_find_in_complete(s[0], id, n);
    } else {
        lemma_find_in_items_complete(s.drop_first(), id, n);
    }
}

proof fn lemma_find_in_entries_complete(s: Seq<(Seq<char>, JsonModel)>, id: NodeId, n: JsonModel)
    requires
        occurs_in_entries(n, s),
        is_target(n, id),
    ensures
        find_in_entries(s, id) is Some,
    decreases s,
{
    if occurs_in(n, s[0].1) {
        lemma_find_in_complete(s[0].1, id, n);
    } else {
        lemma_find_in_entries_complete(s.drop_first(), id, n);
    }
}

/// What `find_node` returns is a node of the tree whose own guid matches the id.
pub proof fn lemma_found_node_matches(tree: JsonModel, id: NodeId)
    ensures
        find_in(tree, id) matches Some(n) ==> is_target(n, id) && occurs_in(n, tree),
{
    lemma_find_in_sound(tree, id);
}

/// `find_node` returns nothing only when no node of the tree has a matching guid.
pub proof fn lemma_absent_only_without_match(tree: JsonModel, id: NodeId, node: JsonModel)
    requires
        occurs_in(node, tree),
        is_target(node, id),
    ensures
        find_in(tree, id) is Some,
{
    lemma_find_in_complete(tree, id, node);
}

proof fn lemma_occurs_in_wf(n: JsonModel, v: JsonModel)
    requires
        occurs_in(n, v),
        v.wf(),
    ensures
        n.wf(),
    decreases v,
{
    if n != v {
        match v {
            JsonModel::Object(es) => lemma_occurs_in_entries_wf(n, es),
            JsonModel::Array(items) => lemma_occurs_in_items_wf(n, items),
            _ => {},
        }
    }
}

proof fn lemma_occurs_in_items_wf(n: JsonModel, s: Seq<JsonModel>)
    requires
        occurs_in_items(n, s),
        items_wf(s),
    ensures
        n.wf(),
    decreases s,
{
    if occurs_in(n, s[0]) {
        lemma_occurs_in_wf(n, s[0]);
    } else {
        lemma_occurs_in_items_wf(n, s.drop_first());
    }
}

proof fn lemma_occurs_in_entries_wf(n: JsonModel, s: Seq<(Seq<char>, JsonModel)>)
    requires
        occurs_in_entries(n, s),
        entries_wf(s),
    ensures
        n.wf(),
    decreases s,
{
    if occurs_in(n, s[0].1) {
        lemma_occurs_in_wf(n, s[0].1);
    } else {
        lemma_occurs_in_entries_wf(n, s.drop_first());
    }
}

/// The node found in a well-formed tree is itself well formed.
pub proof fn lemma_found_node_well_formed(tree: JsonModel, id: NodeId)
    requires
        tree.wf(),
    ensures
        find_in(tree, id) matches Some(n) ==> n.wf(),
{
    lemma_find_in_sound(tree, id);
    if let Some(n) = find_in(tree, id) {
        lemma_occurs_in_wf(n, tree);
    }
}

/// A guid matches an id exactly when its `sessionID` is the id's session id
/// and its `localID` the id's local id, both as non-negative integers.
pub proof fn lemma_guid_match_compares_both_halves(guid: JsonModel, id: NodeId)
    ensures
        guid_matches_model(guid, id) <==> (guid.get("sessionID"@) == Some(
            JsonModel::Number(JsonNumber::PosInt(id.session_id)),
        ) && guid.get("localID"@) == Some(JsonModel::Number(JsonNumber::PosInt(id.local_id)))),
{
}

/// The node found for an id carries, under its own `guid`, the id's session id
/// as `sessionID` and its local id as `localID`.
pub proof fn lemma_found_node_has_the_guid(tree: JsonModel, id: NodeId)
    ensures
        find_in(tree, id) matches Some(n) ==> (n.get("guid"@) matches Some(g) && g.get(
            "sessionID"@,
        ) == Some(JsonModel::Number(JsonNumber::PosInt(id.session_id))) && g.get("localID"@)
            == Some(JsonModel::Number(JsonNumber::PosInt(id.local_id)))),
{
    lemma_find_in_sound(tree, id);
    if let Some(n) = find_in(tree, id) {
        if let Some(g) = n.get("guid"@) {
            lemma_guid_match_compares_both_halves(g, id);
        }
    }
}

/// A node of the tree whose own `guid` has the id's session id as `sessionID`
/// and its local id as `localID` is never missed.
pub proof fn lemma_node_with_the_guid_is_found(
    tree: JsonModel,
    id: NodeId,
    node: JsonModel,
    guid: JsonModel,
)
    requires
        occurs_in(node, tree),
        node.get("guid"@) == Some(guid),
        guid.get("sessionID"@) == Some(JsonModel::Number(JsonNumber::PosInt(id.session_id))),
        guid.get("localID"@) == Some(JsonModel::Number(JsonNumber::PosInt(id.local_id))),
    ensures
        find_in(tree, id) is Some,
{
    lemma_guid_match_compares_both_halves(guid, id);
    lemma_find_in_complete(tree, id, node);
}

/// A tree whose root matches is found whole.
pub proof fn lemma_matching_root_is_whole_tree(tree: JsonModel, id: NodeId)
    requires
        is_target(tree, id),
    ensures
        find_in(tree, id) == Some(tree),
{
}

/// Text without a separator followed by a separator splits right there.
proof fn lemma_separator_index_after(p: Seq<char>, sep: char, q: Seq<char>)
    requires
        forall|i: int| 0 <= i < p.len() ==> !is_separator(#[trigger] p[i]),
        is_separator(sep),
    ensures
        separator_index(p + seq![sep] + q) == Some(p.len() as int),
    decreases p.len(),
{
    let s = p + seq![sep] + q;
    if p.len() == 0 {
        assert(s[0] == sep);
    } else {
        assert(s[0] == p[0]);
        assert(s.drop_first() =~= p.drop_first() + seq![sep] + q);
        lemma_separator_index_after(p.drop_first(), sep, q);
    }
}

/// A decimal number with white space around it holds no separator.
proof fn lemma_no_separator(w1: Seq<char>, n: u64, w2: Seq<char>)
    requires
        all_white_space(w1),
        all_white_space(w2),
    ensures
        forall|i: int|
            0 <= i < (w1 + decimal_digits(n as nat) + w2).len() ==> !is_separator(
                #[trigger] (w1 + decimal_digits(n as nat) + w2)[i],
            ),
{
    let d = decimal_digits(n as nat);
    let p = w1 + d + w2;
    lemma_decimal_digits(n as nat);
    assert forall|i: int| 0 <= i < p.len() implies !is_separator(#[trigger] p[i]) by {
        if i < w1.len() {
            assert(is_white_space(w1[i]));
        } else if i < w1.len() + d.len() {
            assert(p[i] == d[i - w1.len()]);
            assert(all_digits(d));
            assert(crate::text::is_digit(d[i - w1.len()]));
        } else {
            assert(is_white_space(w2[i - w1.len() - d.len()]));
        }
    }
}

/// Both separators are accepted, with optional white space around each half;
/// the first number is the session id and the second the local id.
pub proof fn lemma_parse_id_text(
    session_id: u64,
    local_id: u64,
    sep: char,
    w1: Seq<char>,
    w2: Seq<char>,
    w3: Seq<char>,
    w4: Seq<char>,
)
    requires
        is_separator(sep),
        all_white_space(w1),
        all_white_space(w2),
        all_white_space(w3),
        all_white_space(w4),
    ensures
        node_id_from_text(
            w1 + decimal_digits(session_id as nat) + w2 + seq![sep] + w3 + decimal_digits(
                local_id as nat,
            ) + w4,
        ) == Some(NodeId { session_id, local_id }),
{
    let p = w1 + decimal_digits(session_id as nat) + w2;
    let q = w3 + decimal_digits(local_id as nat) + w4;
    let text = w1 + decimal_digits(session_id as nat) + w2 + seq![sep] + w3 + decimal_digits(
        local_id as nat,
    ) + w4;
    assert(text =~= p + seq![sep] + q);
    lemma_no_separator(w1, session_id, w2);
    lemma_separator_index_after(p, sep, q);
    assert(text.take(p.len() as int) =~= p);
    assert(text.skip(p.len() as int + 1) =~= q);
    lemma_parse_decimal_digits(session_id, w1, w2);
    lemma_parse_decimal_digits(local_id, w3, w4);
}

/// Digits with white space around them hold no separator.
proof fn lemma_digits_no_separator(w1: Seq<char>, d: Seq<char>, w2: Seq<char>)
    requires
        all_white_space(w1),
        all_white_space(w2),
        all_digits(d),
    ensures
        forall|i: int|
            0 <= i < (w1 + d + w2).len() ==> !is_separator(#[trigger] (w1 + d + w2)[i]),
{
    let p = w1 + d + w2;
    assert forall|i: int| 0 <= i < p.len() implies !is_separator(#[trigger] p[i]) by {
        if i < w1.len() {
            assert(is_white_space(w1[i]));
        } else if i < w1.len() + d.len() {
            assert(p[i] == d[i - w1.len()]);
            assert(is_digit(d[i - w1.len()]));
        } else {
            assert(is_white_space(w2[i - w1.len() - d.len()]));
        }
    }
}

/// Any two runs of ASCII digits whose values fit in a `u64`, joined by either
/// separator and with white space around each, read as the id whose session id
/// is the value of the first run and whose local id is the value of the second.
pub proof fn lemma_parse_id_digits(
    d1: Seq<char>,
    d2: Seq<char>,
    sep: char,
    w1: Seq<char>,
    w2: Seq<char>,
    w3: Seq<char>,
    w4: Seq<char>,
)
    requires
        d1.len() > 0,
        d2.len() > 0,
        all_digits(d1),
        all_digits(d2),
        decimal_value(d1) <= u64::MAX,
        decimal_value(d2) <= u64::MAX,
        is_separator(sep),
        all_white_space(w1),
        all_white_space(w2),
        all_white_space(w3),
        all_white_space(w4),
    ensures
        node_id_from_text(w1 + d1 + w2 + seq![sep] + w3 + d2 + w4) == Some(
            NodeId {
                session_id: decimal_value(d1) as u64,
                local_id: decimal_value(d2) as u64,
            },
        ),
{
    let p = w1 + d1 + w2;
    let q = w3 + d2 + w4;
    let text = w1 + d1 + w2 + seq![sep] + w3 + d2 + w4;
    assert(text =~= p + seq![sep] + q);
    lemma_digits_no_separator(w1, d1, w2);
    lemma_separator_index_after(p, sep, q);
    assert(text.take(p.len() as int) =~= p);
    assert(text.skip(p.len() as int + 1) =~= q);
    lemma_parse_digits(d1, w1, w2);
    lemma_parse_digits(d2, w3, w4);
}

/// The REST form of an id reads back as the same id.
pub proof fn lemma_rest_form_round_trip(id: NodeId)
    ensures
        node_id_from_text(rest_form(id)) == Some(id),
{
    let e = Seq::<char>::empty();
    lemma_parse_id_text(id.session_id, id.local_id, ':', e, e, e, e);
    assert(e + decimal_digits(id.session_id as nat) + e + seq![':'] + e + decimal_digits(
        id.local_id as nat,
    ) + e =~= rest_form(id));
}

} // verus!
