//! File-backed article store: front matter, Markdown parsing, slugs.

pub mod front_matter;
pub mod loader;
pub mod util;
pub mod slug;
pub mod markdown;
pub mod parser;
