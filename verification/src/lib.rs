//! A minimal persistent graph store: an in-memory directed graph (nodes with
//! unique identifiers and names, directed typed edges) together with a codec
//! for its durable JSON representation and a store that pairs a file path
//! with that codec. All file access is left to the embedding program.

pub mod codec;
pub mod graph;
pub mod parse;
pub mod roundtrip;
pub mod store;
