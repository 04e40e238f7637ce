//! Translation gateway: language detection, request fingerprinting, a bounded
//! time-to-live cache and the decisions around a pluggable translation backend;
//! beside it, the logic of the hash, Base64 and timestamp tools.

pub mod lang;
pub mod text;
pub mod fingerprint;
pub mod cache;
pub mod error;
pub mod gateway;
pub mod provider;
pub mod tools;
