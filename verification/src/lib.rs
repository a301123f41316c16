//! Building blocks of the node-graph asset compiler: value encodings,
//! node graphs, node declarations and structures, the simplifications of
//! compiled graphs, and the container format of asset bundles.

pub mod gia;
pub mod ids;
pub mod message;
pub mod value;
pub mod graph;
pub mod encode;
pub mod bundle;
pub mod decl;
pub mod structure;
pub mod composite;
pub mod composite_node;
pub mod optimize;
pub mod nodes;
pub mod raw_graph;
pub mod project;
pub mod metadata;
pub mod game;
