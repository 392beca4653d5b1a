//! Search, summarise and edit JSON documents as bounded, machine-readable
//! responses: documents are split into addressable records, queried through a
//! full-text engine, pruned of redundant ancestor matches, and materialised
//! either as a windowed, byte-budgeted result payload or as a field/facet
//! plan when the match set overflows a threshold.

pub mod text;
pub mod pointer;
pub mod digits;
pub mod json;
pub mod extract;
pub mod results;
pub mod render;
pub mod options;
pub mod engine;
pub mod output;
pub mod plan;
pub mod search;
pub mod edit;
pub mod paths;
pub mod query_check;
pub mod fields;
pub mod patch;
