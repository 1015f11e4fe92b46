//! The verified core of the MEEV messenger backend: validation, limits,
//! realtime routing, the media pipeline, suggestions and configuration.
pub mod text;
pub mod error;
pub mod ids;
pub mod validate;
pub mod clock;
pub mod rate_limit;
pub mod dedup;
pub mod hub;
pub mod laws;
pub mod auth;
pub mod mqtt;
pub mod media;
pub mod config;
pub mod routes;
pub mod ws;
pub mod db;
pub mod suggest;
pub mod requests;
pub mod jwt;
