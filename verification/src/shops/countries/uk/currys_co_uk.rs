//! Currys (currys.co.uk).
use crate::utilities::website::{document_debug, document_outline};
use vstd::prelude::*;

verus! {

broadcast use vstd::string::group_string_axioms;

/// The Currys shop.
#[derive(Debug)]
pub struct CurrysCoUk;

impl CurrysCoUk {
    pub fn new() -> (s: Self) {
        CurrysCoUk
    }

    /// A product page as the crawl prints it: the `Debug` form of the parsed
    /// page.
    pub fn page_outline(page: &str) -> (outline: String)
        ensures
            outline@ == document_outline(page@),
    {
        document_debug(page)
    }

    /// The shop's display name.
    pub fn to_string(&self) -> (s: String)
        ensures
            s@ == "CurrysCoUk"@,
    {
        String::from_str("CurrysCoUk")
    }
}

} // verus!
