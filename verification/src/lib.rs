//! A small credential-and-counter service core.
//!
//! The library issues opaque bearer credentials tied to an email identity and
//! lets the holder of a valid credential atomically increment named counters
//! scoped to that identity.  All shared state lives in a relational store; the
//! store's committed rows are modeled here and every operation on them is
//! verified, while connection handling and transport stay outside the library.

pub mod api_v1;
pub mod db;
pub mod laws;
pub mod text;
pub mod token;
pub mod util;
