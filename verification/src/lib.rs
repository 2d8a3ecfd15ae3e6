//! # fig2json
//!
//! The verified core of a converter from Figma `.fig` files to JSON: node
//! identifiers and their text forms, the JSON document model, scoping a
//! document to one node, and the decisions of the command line.

pub mod cli;
pub mod json;
pub mod schema;
pub mod text;
