//! Discovers relationships among files in a directory tree (hyperlink-style
//! references and free-form tags) and lays them out as an explorable graph.
//!
//! The crate is organised as three layers that data flows through in order:
//! the scanner (`scan`, with `parse` and `paths` below it) turns file contents
//! into per-file facts, the graph builders (`graph`) turn those facts into a
//! reference graph and a tag graph, and the layout engine (`physics`) advances
//! a force-directed simulation over whichever graph view is active.

pub mod fixed;
pub mod graph;
pub mod parse;
pub mod paths;
pub mod physics;
pub mod scan;
