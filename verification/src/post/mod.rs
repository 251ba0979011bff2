//! The on-disk post contract: slugs, front matter and post locations.

pub mod frontmatter;
pub mod project;
pub mod slug;
pub mod datetime;
pub mod document;
