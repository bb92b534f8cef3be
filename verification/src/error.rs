//! Why a page could not be read.
use vstd::prelude::*;

verus! {

/// Why a page or a response could not be turned into what was asked for.
#[derive(Clone, Copy, Debug, PartialEq, Eq, Structural)]
pub enum CrawlError {
    /// A gzip response did not hold gzip-compressed UTF-8 text.
    Gzip,
    /// A product's `application/ld+json` script was not JSON.
    Json,
    /// A value the shop's pages always carry was missing or of another kind.
    MissingField,
    /// An address could not be parsed as a URL.
    Url,
    /// A parsed address has no host.
    NoHost,
}

} // verus!
