//! A declarative render-graph compiler and executor.
//!
//! A pipeline is described as named passes wired into a dependency graph.
//! The front end interprets a flat declarative script into validated,
//! typed pass instances; the graph layer builds, verifies and executes
//! the resulting dependency graph against a caller-supplied input image.

pub mod image;
pub mod parser;
pub mod pass;
pub mod render_graph;
pub mod table;
pub mod text;
