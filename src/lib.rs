//! A single-stream resumable downloader's rules: collision-free names on
//! disk, the session's counters and requests, and the record that lets a
//! session be rebuilt after a restart.

pub mod file2dl;
pub mod metadata;
pub mod naming;
