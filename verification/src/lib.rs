//! Synapse topic toolkit.

pub mod text;
pub mod ordered;
pub mod error;
pub mod catalog;
pub mod payload;
pub mod zenoh_util;
pub mod types;
pub mod framing;
pub mod container;
pub mod bag;
pub mod contract_warning;
pub mod playback;
pub mod json;
pub mod admin;
pub mod graph;
pub mod http;
pub mod topic;
pub mod cli;
pub mod report;
