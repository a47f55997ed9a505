//! The on-disk protocol: byte-level helpers, type fingerprints and the
//! record codec.

pub mod entries;
pub mod laws;
pub mod records;
pub mod util;
