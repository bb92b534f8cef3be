//! Shops in Italy.
pub mod jdsports_it;
pub mod trony_it;
