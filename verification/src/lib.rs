//! A small verified line-search library.
//!
//! The library splits a text into lines and returns the lines in which a
//! query occurs as a contiguous substring, either exactly ([`search`]) or
//! after lowercase normalisation ([`search_case_insensitive`]).  It also
//! holds the pure parts of the surrounding command-line tool: building a
//! [`Config`] from the argument list and the cosmetic rewriting of matched
//! lines before display.

mod config;
mod matcher;
mod output;
mod text;

pub use config::Config;
pub use config::help_requested;
pub use matcher::search;
pub use matcher::search_case_insensitive;
pub use output::format_line;
pub use text::contains_str;
pub use text::split_lines;
