//! A small content-site library whose core is a lightweight-markup-to-HTML
//! transformer: named link references and image directives, written in a
//! restricted reStructuredText-like syntax, are rewritten into HTML fragments.
//!
//! Two independent, composable text transforms are offered:
//! [`rst_parser::parse_links`] resolves inline named references against
//! out-of-line target definitions, and [`rst_parser::parse_images`] rewrites
//! block-style image directives into `<img>` tags. Both are pure functions
//! from text to text, specified exactly down to the character.
//!
//! Around that core, [`pages`] decides how the server's directory listing
//! splits and orders page file names, and [`pipeline`] decides what the
//! server answers for each well-known middleware failure. The server itself —
//! routing, templating, file reading — stays outside this library.

pub mod pages;
pub mod pipeline;
pub mod rst_parser;
