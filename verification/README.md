# rust2genshin

The asset side of a compiler that turns Rust functions into node graphs of
the game's editor, written as a verified library: every function in `src/`
carries a contract that Verus proves.

## Layout

- `src/ids.rs`, `src/message.rs`: identifiers and the message tree of the
  asset format.
- `src/value.rs`: the values a pin, a variable or a field can hold, their
  types and their encodings.
- `src/graph.rs`: node graphs whose links are kept on both ends, over a
  `slab` store; every operation keeps the graph well formed.
- `src/encode.rs`: a graph as an encoded asset, with its blackboard.
- `src/bundle.rs`, `src/gia.rs`: asset bundles, their identifiers and the
  `.gia` file frame.
- `src/decl.rs`, `src/structure.rs`, `src/composite.rs`,
  `src/composite_node.rs`: node declarations, user structures and composite
  graphs with their interfaces.
- `src/optimize.rs`: local simplifications of a compiled function's graph,
  and the pruning of its interface.
- `src/nodes.rs`: the game's generic nodes and their type variants.
- `src/raw_graph.rs`: the plain form of a graph, close to the encoded one.
- `src/project.rs`: a target's names and entry file, and the compiler's
  arguments.
- `src/metadata.rs`: what `cargo metadata` and `cargo check` report, read
  with `serde_json`: the package and target a build takes, and the outside
  crates it links.
- `src/game.rs`: the handle types and events of the game library.
- `app/main.rs`: the command line program: arguments, files and the
  compiler driver.
- `tests/`: tests of the library on concrete values.
