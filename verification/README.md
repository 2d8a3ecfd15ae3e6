# fig2json

The verified core of `fig2json`, a converter from Figma `.fig` files to JSON.

- `src/schema/node_filter.rs` — node identifiers (`NodeId`), their REST
  (`6886:48774`) and URL (`6886-48774`) text forms, and finding a node by its
  `guid` in a document tree, with the proofs that the REST form reads back and
  that the search is sound and complete.
- `src/json.rs` — the JSON document model that the node filter reads.
- `src/text.rs` — decimal rendering and parsing of `u64`, Unicode white space
  and trimming.
- `src/cli.rs` — the decisions of the command line: option conflicts, the mode
  for an input, and the run over the `.fig` files of a ZIP archive.
- `app/` — the command line itself (argument parsing, files, the conversion
  pipeline); it is ordinary Rust and is not verified. The pipeline's own
  modules (`parser`, `blobs`, `error`, `types`, and `decoder`,
  `transformations` and `tree` under `schema`) are not part of this crate, so
  `app/` does not build until they are supplied.
