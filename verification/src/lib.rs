//! Verified core of an audio-graph integration: routing decisions,
//! bounded histories and the bookkeeping around audio nodes.

pub mod activity;
pub mod configuration;
pub mod context;
pub mod fixed_vec;
pub mod incremental_max;
pub mod edge;
pub mod error;
pub mod node_label;
pub mod param;
pub mod send;
