//! Verified core of a command-line tool for inspecting a distributed
//! publish/subscribe message broker cluster.
//!
//! The broker client itself (connections, metadata RPCs, polling) lives
//! outside this crate; what is verified here is every place where the tool
//! does real algorithmic work on the data the client hands back:
//!
//! * decoding the binary consumer-group member-assignment payload,
//! * aggregating partition ownership across group members,
//! * computing per-partition consumer lag,
//! * planning the starting offset of a bounded historical tail,
//! * evaluating dot-path filter expressions against JSON-like values.

pub mod admin;
pub mod aggregate;
pub mod assignment;
pub mod cli;
pub mod config;
pub mod filter;
pub mod lag;
pub mod metadata;
pub mod numfmt;
pub mod tail;
pub mod wire;
