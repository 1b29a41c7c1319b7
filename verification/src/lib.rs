//! A declarative, file-driven HTTP request runner: request entries are read
//! from a JSON descriptor, one entry is selected by tag or index, and the
//! request it describes is assembled, sent, and its response fields persisted
//! to variable files for later runs.
//!
//! This crate holds the verified core: JSON path resolution, file-write
//! planning, structure-mapping parsing, placeholder substitution, and
//! request assembly. The surrounding I/O (file system, HTTP transport,
//! terminal output) lives outside it and exchanges plain values with it.

pub mod descriptor;
pub mod dispatch;
pub mod json;
pub mod path;
pub mod placeholder;
pub mod render;
pub mod store;
pub mod text;
