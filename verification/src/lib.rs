//! A lightweight markup document, read into a structured model.
//!
//! A document is a header block of `key: value` lines between two lines of dashes,
//! followed by body text with markdown-style emphasis. [`parser::document`] parts the
//! header block from the body, [`parser::frontmatter`] reads the header into a map, and
//! [`parser::inline`] splits one run of body text into plain, strong, italic and code
//! spans. [`types`] holds the model that these pieces are put into.

pub mod chars;
pub mod parser;
pub mod pattern;
pub mod types;
