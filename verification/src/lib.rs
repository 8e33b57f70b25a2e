//! A small picture-paging library: it keeps an ordered list of picture
//! paths scanned from a directory, a one-based cursor persisted between
//! runs as two small pieces of text, and computes the previous, next,
//! random or default selection.

pub mod paginator;
pub mod text;
