//! A small URL value: an origin, a path and query parameters, parsed from
//! text and rendered back to text, with every step verified.

pub mod text;
pub mod url;
pub mod laws;

pub use url::{ParseError, Url};
