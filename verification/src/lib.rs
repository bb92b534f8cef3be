//! Pricy: the verified core of a shop crawler.
//!
//! The crawler looks shops up by name or by address, reads their sitemaps,
//! picks the product pages out of them and turns product pages into product
//! records. Everything here computes on plain values; fetching pages,
//! reading files and printing is left to the program around this library.
pub mod error;
pub mod models;
pub mod run;
pub mod shops;
pub mod text;
pub mod utilities;

use vstd::prelude::*;

verus! {

/// The crawl limits and filters given on the command line.
pub struct DynamicArgs {
    pub limit_products: usize,
    pub filter_keyword: String,
    pub filter_url: String,
}

impl DynamicArgs {
    /// The arguments with their defaults filled in: one product, and no
    /// keyword or address filter (the empty text, which every text contains).
    pub fn from_options(
        limit_products: Option<usize>,
        filter_keyword: Option<String>,
        filter_url: Option<String>,
    ) -> (args: DynamicArgs)
        ensures
            args.limit_products == (match limit_products {
                Some(n) => n,
                None => 1,
            }),
            args.filter_keyword@ == (match filter_keyword {
                Some(k) => k@,
                None => Seq::<char>::empty(),
            }),
            args.filter_url@ == (match filter_url {
                Some(u) => u@,
                None => Seq::<char>::empty(),
            }),
    {
        let limit_products = match limit_products {
            Some(n) => n,
            None => 1,
        };
        let filter_keyword = match filter_keyword {
            Some(k) => k,
            None => String::new(),
        };
        let filter_url = match filter_url {
            Some(u) => u,
            None => String::new(),
        };
        DynamicArgs { limit_products, filter_keyword, filter_url }
    }
}

} // verus!
