//! Browser bookmark resolution and extraction.
//!
//! Resolves compact identifiers of the form `<browser>://bookmarks[/<selector>]`
//! to a browser's on-disk bookmark storage, and normalizes two incompatible
//! on-disk schemas — the standard Chromium `Bookmarks` JSON tree and the Arc
//! sidebar/container graph — into a canonical bookmark tree or a merged
//! linked-data document.

pub mod bookmarks;
pub mod brave;
pub mod browsers;
pub mod chrome;
pub mod chromium;
pub mod edge;
pub mod error;
pub mod json;
pub mod num;
pub mod specialized;
pub mod text;
pub mod utils;
