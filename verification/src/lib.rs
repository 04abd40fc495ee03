//! The notes engine: user logins, per-user access rules and the decisions
//! behind each page of the notes server.

pub mod access;
pub mod admin;
pub mod config;
pub mod handlers;
pub mod logins;
pub mod paths;
pub mod sessions;
pub mod templates;
pub mod user;
