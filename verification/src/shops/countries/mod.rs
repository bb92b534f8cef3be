//! The shops, by country.
pub mod it;
pub mod uk;
