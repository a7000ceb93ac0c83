//! Kilo Code support: its transcripts, its hook events and the plugin that reports them.
//!
//! The library computes on plain values. Databases, files and the environment belong to the
//! application around it, which hands in what they hold and carries out what comes back.
pub mod agent;
pub mod errors;
pub mod host_path;
pub mod installer;
pub mod json;
pub mod mention_laws;
pub mod paging;
pub mod plugin;
pub mod preset;
pub mod storage;
pub mod text;
pub mod tool_paths;
pub mod transcript;
pub mod transcript_laws;
pub mod watermark;
