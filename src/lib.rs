//! Incremental builder for a tree of document sites: configuration parsing, site
//! discovery, build plans, staleness diffing and execution order.
pub mod text;
pub mod parser;
pub mod model;
pub mod build_rules;
pub mod build_graph;
pub mod build_executor;
pub mod discovery;
