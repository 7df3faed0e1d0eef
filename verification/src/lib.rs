//! Data-access core of a social donation-tracking service.
//!
//! The library resolves external identities (provider + subject) to internal
//! subscriber ids with idempotent account creation, keeps a per-subscriber
//! friend graph with cached display names, stores a one-record profile per
//! subscriber, and stores per-subscriber, per-category item collections in a
//! hash-oriented key-value model.

pub mod auth;
pub mod class;
pub mod errors;
pub mod store;
pub mod subscriber;
