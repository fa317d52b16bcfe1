//! The parsers: inline emphasis, header/body separation and header entries.

pub mod document;
pub mod frontmatter;
pub mod inline;
