//! JD Sports Italy (jdsports.it).
use crate::error::CrawlError;
use crate::models::products::{keeps_defaults, Currency, Product};
use crate::utilities::json::{
    index_keys, nested_or_null,
    as_str, element_or_null, index_key, index_position, is_json, json_string, json_valid,
    member_or_null,
};
use crate::utilities::website::{crawled_count, is_wanted_page, ld_json_scripts, ld_json_texts, wanted_page};
use crate::DynamicArgs;
use vstd::prelude::*;

verus! {

broadcast use vstd::string::group_string_axioms;

/// What reading the JD Sports product page `page` at `url` gives: a blank
/// product for a page that is not wanted or has no JSON document, the
/// product the first JSON document describes, or an error when that
/// document is not JSON or lacks what a listing needs.
pub open spec fn jdsports_page(
    r: Result<Product, CrawlError>,
    url: Seq<char>,
    page: Seq<char>,
    args: DynamicArgs,
) -> bool {
    let scripts = ld_json_scripts(page);
    let doc = scripts[0];
    if !wanted_page(page, url, jdsports_gone_notice(), args.filter_keyword@, args.filter_url@)
        || scripts.len() == 0 {
        r matches Ok(p) && crate::models::products::is_blank_product(p)
    } else if !json_valid(doc) {
        r == Err::<Product, CrawlError>(CrawlError::Json)
    } else if !jdsports_complete(doc) {
        r == Err::<Product, CrawlError>(CrawlError::MissingField)
    } else {
        r matches Ok(p) && jdsports_listing(p, url, doc)
    }
}

/// The JD Sports page `page` at `url` gives a product, not an error.
pub open spec fn jdsports_page_reads(url: Seq<char>, page: Seq<char>, args: DynamicArgs) -> bool {
    exists|p: Product| jdsports_page(Ok(p), url, page, args)
}

/// The JD Sports Italy shop.
#[derive(Debug)]
pub struct JdsportsIt;

/// What a JD Sports page says when it shows no product.
pub open spec fn jdsports_gone_notice() -> Seq<char> {
    "Nessun prodotto corrisponde alla tua ricerca."@
}

/// The texts a JD Sports document gives for a product, each a JSON string:
/// first image, name, description, brand name and colour.
pub open spec fn jdsports_image(doc: Seq<char>) -> Option<Seq<char>> {
    json_string(element_or_null(member_or_null(doc, "image"@), 0))
}

pub open spec fn jdsports_name(doc: Seq<char>) -> Option<Seq<char>> {
    json_string(member_or_null(doc, "name"@))
}

pub open spec fn jdsports_description(doc: Seq<char>) -> Option<Seq<char>> {
    json_string(member_or_null(doc, "description"@))
}

pub open spec fn jdsports_brand(doc: Seq<char>) -> Option<Seq<char>> {
    json_string(nested_or_null(doc, "brand"@, "name"@))
}

pub open spec fn jdsports_color(doc: Seq<char>) -> Option<Seq<char>> {
    json_string(member_or_null(doc, "color"@))
}

/// Every text a JD Sports document must give is there.
pub open spec fn jdsports_complete(doc: Seq<char>) -> bool {
    &&& jdsports_image(doc) is Some
    &&& jdsports_name(doc) is Some
    &&& jdsports_description(doc) is Some
    &&& jdsports_brand(doc) is Some
    &&& jdsports_color(doc) is Some
}

/// The product a JD Sports page describes in its JSON document `doc`. The
/// price is the offer's price written as JSON.
pub open spec fn jdsports_listing(p: Product, url: Seq<char>, doc: Seq<char>) -> bool {
    &&& keeps_defaults(p)
    &&& p.link@ == url
    &&& p.image@ == jdsports_image(doc)->Some_0 + ".jpg"@
    &&& p.name@ == jdsports_name(doc)->Some_0
    &&& p.currency == Currency::Euro
    &&& p.price@ == nested_or_null(doc, "offers"@, "price"@)
    &&& p.description@ == jdsports_description(doc)->Some_0
    &&& p.brand@ == jdsports_brand(doc)->Some_0
    &&& p.color@ == jdsports_color(doc)->Some_0
}

impl JdsportsIt {
    pub fn new() -> (s: Self) {
        JdsportsIt
    }

    /// The shop's display name.
    pub fn to_string(&self) -> (s: String)
        ensures
            s@ == "JdsportsIt"@,
    {
        String::from_str("JdsportsIt")
    }

    /// The product of a JD Sports product page at `url`. A page that is not
    /// wanted, or has no JSON document, gives a blank product; the first
    /// JSON document gives the rest (in euros). It is an error when that
    /// document is not JSON, or lacks one of the texts it must give.
    pub fn product_from_page(url: &str, page: &str, args: &DynamicArgs) -> (r: Result<
        Product,
        CrawlError,
    >)
        ensures
            jdsports_page(r, url@, page@, *args),
    {
        let mut product = Product::default();
        if !is_wanted_page(
            page,
            url,
            "Nessun prodotto corrisponde alla tua ricerca.",
            args.filter_keyword.as_str(),
            args.filter_url.as_str(),
        ) {
            return Ok(product);
        }
        let scripts = ld_json_texts(page);
        if scripts.len() == 0 {
            return Ok(product);
        }
        let doc = scripts[0].as_str();
        assert(doc@ == ld_json_scripts(page@)[0]);
        if !is_json(doc) {
            return Err(CrawlError::Json);
        }
        product.link = String::from_str(url);
        let images = index_key(doc, "image");
        let mut image = match as_str(index_position(images.as_str(), 0).as_str()) {
            Some(s) => s,
            None => return Err(CrawlError::MissingField),
        };
        image.append(".jpg");
        product.image = image;
        product.name = match as_str(index_key(doc, "name").as_str()) {
            Some(s) => s,
            None => return Err(CrawlError::MissingField),
        };
        product.currency = Currency::Euro;
        product.price = index_keys(doc, "offers", "price");
        product.description = match as_str(index_key(doc, "description").as_str()) {
            Some(s) => s,
            None => return Err(CrawlError::MissingField),
        };
        product.brand = match as_str(index_keys(doc, "brand", "name").as_str()) {
            Some(s) => s,
            None => return Err(CrawlError::MissingField),
        };
        product.color = match as_str(index_key(doc, "color").as_str()) {
            Some(s) => s,
            None => return Err(CrawlError::MissingField),
        };
        Ok(product)
    }

    /// A crawl of JD Sports: the products of the pages of its first `limit`
    /// links (`pages[i]` is the page at `links[i]`), in their order. The
    /// first page that gives an error stops the crawl with that error.
    pub fn products_from_pages(
        links: &Vec<String>,
        limit: usize,
        pages: &Vec<String>,
        args: &DynamicArgs,
    ) -> (r: Result<Vec<Product>, CrawlError>)
        requires
            pages.len() == crawled_count(links@, limit),
        ensures
            match r {
                Ok(ps) => {
                    &&& ps.len() == pages.len()
                    &&& forall|i: int|
                        0 <= i < ps.len() ==> jdsports_page(
                            Ok(#[trigger] ps@[i]),
                            links@[i]@,
                            pages@[i]@,
                            *args,
                        )
                },
                Err(e) => exists|k: int|
                    {
                        &&& 0 <= k < pages.len()
                        &&& jdsports_page(Err(e), links@[k]@, pages@[k]@, *args)
                        &&& forall|i: int|
                            0 <= i < k ==> #[trigger] jdsports_page_reads(
                                links@[i]@,
                                pages@[i]@,
                                *args,
                            )
                    },
            },
    {
        let mut out: Vec<Product> = Vec::new();
        let mut i: usize = 0;
        while i < pages.len()
            invariant
                i <= pages.len(),
                pages.len() <= links.len(),
                out.len() == i,
                forall|j: int|
                    0 <= j < i ==> jdsports_page(Ok(#[trigger] out@[j]), links@[j]@, pages@[j]@, *args),
            decreases pages.len() - i,
        {
            match JdsportsIt::product_from_page(links[i].as_str(), pages[i].as_str(), args) {
                Ok(p) => {
                    out.push(p);
                },
                Err(e) => {
                    assert forall|j: int| 0 <= j < i implies #[trigger] jdsports_page_reads(
                        links@[j]@,
                        pages@[j]@,
                        *args,
                    ) by {
                        assert(jdsports_page(Ok(out@[j]), links@[j]@, pages@[j]@, *args));
                    }
                    assert(jdsports_page(Err(e), links@[i as int]@, pages@[i as int]@, *args));
                    return Err(e);
                },
            }
            i += 1;
        }
        Ok(out)
    }
}

} // verus!
