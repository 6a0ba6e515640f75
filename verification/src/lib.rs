//! A minimal "paste and fetch" service core.
//!
//! Clients push raw bytes over TCP; each connection's payload is decoded
//! leniently as UTF-8 and persisted to a randomly named file. A tiny HTTP
//! front end serves those files back, guarded by an optional hidden path
//! prefix and a two-phase path-traversal defense.
//!
//! This crate holds the verified core: request-line parsing, target
//! resolution, path-containment checking, response rendering, the ingestion
//! session's decoding discipline, and random filename generation. The
//! listeners, sockets and filesystem calls live outside the library and drive
//! these functions with plain values.

pub mod bytescan;
pub mod filename;
pub mod http;
pub mod ingest;
