//! Verified core of the fast-down Python binding: download settings,
//! progress events, the chunk-merging pusher and the error texts.
pub mod chunk_map;
pub mod pusher;
pub mod text;
pub mod error;
pub mod event;
pub mod config;
pub mod target;
pub mod session;
