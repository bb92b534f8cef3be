//! Nordic Nest (nordicnest.com).
use crate::utilities::website::{document_debug, document_outline};
use vstd::prelude::*;

verus! {

broadcast use vstd::string::group_string_axioms;

/// The Nordic Nest shop.
#[derive(Debug)]
pub struct NordicnestCom;

impl NordicnestCom {
    pub fn new() -> (s: Self) {
        NordicnestCom
    }

    /// The sitemap that lists the products: the second one of the sitemap
    /// index, if there is one.
    pub fn product_sitemap(sitemaps: &Vec<String>) -> (s: Option<String>)
        ensures
            match s {
                Some(t) => sitemaps@.len() >= 2 && t@ == sitemaps@[1]@,
                None => sitemaps@.len() < 2,
            },
    {
        if sitemaps.len() >= 2 {
            Some(sitemaps[1].clone())
        } else {
            None
        }
    }

    /// A product page as the crawl prints it: the `Debug` form of the parsed
    /// page.
    pub fn page_outline(page: &str) -> (outline: String)
        ensures
            outline@ == document_outline(page@),
    {
        document_debug(page)
    }

    /// The shop's display name.
    pub fn to_string(&self) -> (s: String)
        ensures
            s@ == "NordicnestCom"@,
    {
        String::from_str("NordicnestCom")
    }
}

} // verus!
