//! Verified core of the magneto media torrent client: the wire protocol
//! types, configuration rules, file classification, range parsing, the
//! per-file and per-torrent state machine, and the DLNA library tree.

pub mod control;
pub mod text;
pub mod paths;
pub mod media;
pub mod range;
pub mod config;
pub mod protocol;
pub mod state;
pub mod targets;
pub mod library;
pub mod metadata;
pub mod render;
pub mod stats;
pub mod lifecycle;
pub mod store;
pub mod supervisor;
pub mod spawn_env;
pub mod sources;
pub mod theme;
pub mod policy;
pub mod stream;
pub mod json;
pub mod events;
pub mod play;
pub mod bootstrap;
pub mod requests;
pub mod browse;
pub mod removal;
pub mod settings;
