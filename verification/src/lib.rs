//! A verified compiler from a restricted SQL-like statement dialect to
//! operations against a key-attribute table store: an OData read query,
//! single-entity write statements keyed by a two-part primary key, a typed
//! value marshaller for the store's wire JSON, and a request signer.

pub mod auth;
pub mod b64;
pub mod config;
pub mod chars;
pub mod classify;
pub mod error;
pub mod identity;
pub mod json;
pub mod num_text;
pub mod query;
pub mod stmt;
pub mod text;
pub mod value;
pub mod wire;
