//! Reconciliation core for a service that relays batch work requests to an
//! issue tracker and normalises the tracker's answers.

pub mod bulk;
pub mod config;
pub mod encoding;
pub mod error;
pub mod json;
pub mod payload;
pub mod service;
pub mod story;
pub mod text;
pub mod verification;
