//! The decisions of a personal music library server, verified.

pub mod api;
pub mod clock;
pub mod config;
pub mod ingest;
pub mod libraries;
pub mod order;
pub mod paths;
pub mod text;
pub mod users;
