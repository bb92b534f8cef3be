//! Helpers for reading sitemaps and pages, and for naming files.
pub mod builder;
pub mod conf_loader;
pub mod create_sitemap;
pub mod json;
pub mod url_reader;
pub mod website;
