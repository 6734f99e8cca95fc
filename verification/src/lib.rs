//! Verified core of a small reverse proxy: configuration parsing, request
//! routing decisions, session and cache bookkeeping, and response building.

pub mod text;
pub mod config;
pub mod keyed;
pub mod global;
pub mod statistics;
pub mod colors;
pub mod request;
pub mod dashboard;
pub mod api;
pub mod proxy;
pub mod tls;
