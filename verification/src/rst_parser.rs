//! The markup transformer: link resolution and image directives.
//!
//! The grammar handled here (informally, one construct per line):
//!
//! ```text
//! link-definition  ::= "\n"? ".. _" NAME ": " TARGET "\n"
//! link-reference   ::= "`" NAME "`_"
//! image-directive  ::= ".. image:: " PATH "\n" field-line*
//! field-line       ::= " "* ":" FIELD-KIND ": " VALUE "\n"
//! FIELD-KIND       ::= "height" | "width" | "scale" | "alt" | "align"
//! ```
//!
//! Matching follows leftmost scanning with maximal (greedy) runs: a name or a
//! target extends to the last occurrence of its delimiter on the line.

pub mod images;
pub mod links;
pub mod rst_error;
pub mod text;

pub use images::parse_images;
pub use images::RSTImage;
pub use links::parse_links;
pub use rst_error::RSTError;
