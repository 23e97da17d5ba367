//! A music-catalog backend core: duration bookkeeping for uploaded audio,
//! multipart-upload ingestion decisions, and an in-memory catalog store
//! over tracks, playlists and users, with verified contracts for every
//! operation.
//!
//! The store is held in memory and lives for the process lifetime; a
//! service that must keep its catalog across restarts has to lay its own
//! persistence over these operations.

pub mod catalog;
pub mod duration;
pub mod ingest;
pub mod response;
