//! Collecting the newest titles of several Japanese paperback series into one feed.
//!
//! The text rules (white-space folding, author prefixes, ISBN digits), the
//! calendar dates, the book store and the feed ordering are verified here; the
//! network, the files and the command line live in the application around it.

pub mod book;
pub mod date;
pub mod error;
pub mod feed;
pub mod html;
pub mod links;
pub mod pattern;
pub mod sources;
pub mod json;
pub mod text;
