//! Keeps a local `.env` file and a shared, versioned cache in step with a remote
//! store of variables: reading and writing the file, merging remote and local
//! entries, framing snapshots in a shared memory region, and the decisions of the
//! commands and of the live sync loop.
pub mod api;
pub mod config;
pub mod env_parser;
pub mod i18n;
pub mod merge;
pub mod order;
pub mod rotation;
pub mod round_trip;
pub mod storage;
pub mod sync;
pub mod text;
pub mod vars;
