//! Laptops Direct (laptopsdirect.co.uk).
use crate::text::views;
use vstd::prelude::*;

verus! {

broadcast use vstd::string::group_string_axioms;

/// The `Debug` forms of the nodes of a page whose `id` attribute is exactly
/// `products`, in document order, as `select` finds them.
pub uninterp spec fn product_section_nodes(page: Seq<char>) -> Seq<Seq<char>>;

/// `select`: `find(Attr("id", "products"))`, each node written with `{:?}`.
/// The result is named `product_section_nodes`.
#[verifier::external_body]
fn product_section_texts(page: &str) -> (v: Vec<String>)
    ensures
        views(v@) == product_section_nodes(page@),
{
    select::document::Document::from(page)
        .find(select::predicate::Attr("id", "products"))
        .map(|n| format!("{:?}", n))
        .collect()
}

/// The Laptops Direct shop.
#[derive(Debug)]
pub struct LaptopsdirectCoUk;

impl LaptopsdirectCoUk {
    pub fn new() -> (s: Self) {
        LaptopsdirectCoUk
    }

    /// The product sections of a category page, as the crawl prints them.
    pub fn product_sections(page: &str) -> (v: Vec<String>)
        ensures
            views(v@) == product_section_nodes(page@),
    {
        product_section_texts(page)
    }

    /// The shop's display name.
    pub fn to_string(&self) -> (s: String)
        ensures
            s@ == "LaptopsdirectCoUk"@,
    {
        String::from_str("LaptopsdirectCoUk")
    }
}

} // verus!
