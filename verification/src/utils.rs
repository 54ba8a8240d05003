//! Shared helpers.

pub mod profile;
