//! The nested statement document.

pub mod format;
