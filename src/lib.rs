//! Turns HTML release announcements into short text records: a decoration
//! policy for rendering inline markup, a line filter that extracts a summary
//! and trims boilerplate, and the assembly of release records from feed entries.

pub mod decorators;
pub mod filter;
pub mod markup;
pub mod release;
pub mod text;
