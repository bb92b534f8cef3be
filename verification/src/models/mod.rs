//! The records the crawler reads and produces.
pub mod products;
pub mod utils;
