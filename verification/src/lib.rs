//! Resident graph snapshots of a Rust workspace: the decisions behind a semantic graph export.
#![allow(unused_imports)]

pub mod accounting;
pub mod cache;
pub mod capturing;
pub mod checkpoint;
pub mod commit;
pub mod consistency;
pub mod covering;
pub mod describing;
pub mod detailing;
pub mod digest;
pub mod disk;
pub mod drawing;
pub mod edges;
pub mod ensure;
pub mod error;
pub mod exports;
pub mod external;
pub mod files;
pub mod fingerprints;
pub mod fx;
pub mod gaps;
pub mod graph;
pub mod grounding;
pub mod handle;
pub mod housing;
pub mod identity;
pub mod indexing;
pub mod interfaces;
pub mod json;
pub mod judging;
pub mod keys;
pub mod linking;
pub mod listing;
pub mod modules;
pub mod moniker;
pub mod nodes;
pub mod order;
pub mod outlining;
pub mod parsing;
pub mod paths;
pub mod placing;
pub mod plain;
pub mod reading;
pub mod recording;
pub mod relating;
pub mod relations;
pub mod restoring;
pub mod roles;
pub mod sealing;
pub mod separation;
pub mod shards;
pub mod snapshot;
pub mod sorting;
pub mod sourcing;
pub mod static_index;
pub mod stepping;
pub mod symlinks;
pub mod table;
pub mod telling;
pub mod text;
pub mod universe;
pub mod unresolved;
pub mod wire;
