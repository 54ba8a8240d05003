//! Browser-specific storage schemas that need their own extraction
//! logic.

pub mod arc;
