//! The document tree: node identifiers and targeting a single node.

pub mod node_filter;

pub use node_filter::{find_node, guid_matches, parse_node_id, scope_to_node, NodeId};
