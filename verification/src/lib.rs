//! Event-sourced RFQ (request-for-quote) messaging backend.
//!
//! The core of the library is an append-only event log per RFQ aggregate,
//! stored in a key-value blob store with prefix scans as the only query
//! primitive.  The library owns the key layout, the chronological ordering
//! of events, pagination, idempotent command handling, and the wire format
//! of every persisted record; all of it is verified.  Process edges (HTTP,
//! S3, SES) live outside the library and reach it through narrow traits.

pub mod auth;
pub mod codec;
pub mod config;
pub mod dto;
pub mod dto_codec;
pub mod entities;
pub mod error;
pub mod errors;
pub mod event_codec;
pub mod events;
pub mod guard;
pub mod hashing;
pub mod ids;
pub mod infra;
pub mod keys;
pub mod meta_codec;
pub mod models;
pub mod polyfill;
pub mod ports;
pub mod repo;
pub mod service;
pub mod store;
pub mod text;
pub mod time;
pub mod unicode;
pub mod utils;
pub mod value_objects;

pub use error::DomainError;
