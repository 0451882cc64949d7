//! Verified extraction of structured fields from raw HTML text.
//!
//! The library turns an untrusted HTML document into discrete fields --
//! title, hyperlinks, visible text, meta tags -- with single-pass scanners
//! rather than a full parser. Malformed or truncated markup never causes a
//! failure: every missing structure degrades to a documented default, and
//! each scanner's result is pinned down by a specification function over the
//! document's characters.

pub mod helpers;
pub mod links;
pub mod meta;
pub mod result;
pub mod scan;
pub mod text;
pub mod title;
