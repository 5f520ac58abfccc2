//! Resolution of player pages into direct, playable stream links.
//!
//! The library extracts the identity of a video and the location of the
//! link endpoint from page text, keeps the endpoint and the cipher rotation
//! in caches that callers own, and decodes the obfuscated stream links.

pub mod decoder;
pub mod error;
pub mod parser;
pub mod resolve;
pub mod scraper;
pub mod text;

pub use error::{Error, Field};
pub use scraper::{KodikResponse, Link, Links};
