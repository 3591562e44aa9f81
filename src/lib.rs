//! A directory-listing engine: collection of entries, name quoting and
//! column layout, with a depth-first walk over pending directories.

pub mod config;
pub mod entry;
pub mod matchers;
pub mod names;
pub mod layout;
pub mod collect;
pub mod order;
pub mod walk;
