//! Ergonomic paths: lexical path arithmetic with verified contracts.
//!
//! Paths are modelled by their components, the way `std::path::Path::components`
//! yields them on Unix.

pub mod path;
pub mod error;
pub mod ops;
pub mod abs;
pub mod arc;
pub mod dir;
pub mod file;
pub mod ty;
pub mod ser;
pub mod laws;
pub mod monotonic_path_preview;
