//! Data plane of a dynamic reverse proxy: routing snapshot, HTTP filter
//! decisions, certificate selection, L4 stream bookkeeping and certificate
//! lifecycle planning.
pub mod acme;
pub mod auth;
pub mod certs;
pub mod config;
pub mod filters;
pub mod loader;
pub mod metrics;
pub mod proxy;
pub mod rows;
pub mod streams;
pub mod text;
pub mod trusted;
