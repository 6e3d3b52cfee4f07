//! Page selectors such as `1-3,5,9-`: their grammar, the set of pages that
//! one denotes, and the split of a document's pages into those to keep and
//! those to remove.
//!
//! A selector is a list of entries separated by commas. An entry is a
//! single page `N`, a closed range `N-M`, or a range that is open at one
//! side, `N-` or `-M`. The pages of a document are numbered from one.
//!
//! - [`grammar`] says, on sequences of characters, what a selector is and
//!   which entries it has.
//! - [`parser`] reads a selector from text: [`cli_pages_value_parser`] gives
//!   the set of its pages, or tells where the text stops being a selector.
//! - [`range`] holds the entries, [`PageRange`], and the pages that they
//!   cover.
//! - [`pages`] holds the set of pages, [`Pages`], which lists the pages of a
//!   document to keep and those to remove.
//! - [`laws`] proves what holds of every selector and of every such list.

pub mod grammar;
pub mod laws;
mod lemmas;
pub mod pages;
pub mod parser;
pub mod range;

pub use pages::Pages;
pub use parser::{cli_pages_value_parser, parse_page_list, parse_page_range, ParseError};
pub use range::PageRange;
