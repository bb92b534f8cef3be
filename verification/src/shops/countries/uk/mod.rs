//! Shops in the United Kingdom.
pub mod currys_co_uk;
pub mod johnlewis_com;
pub mod laptopsdirect_co_uk;
pub mod nordicnest_com;
pub mod technoworld_com;
