//! Trony (trony.it).
use crate::error::CrawlError;
use crate::models::products::{keeps_defaults, Currency, Product};
use crate::utilities::json::{
    index_keys, nested_or_null,as_str, index_key, is_json, json_string, json_valid, member_or_null};
use crate::utilities::website::{crawled_count, ld_json_scripts, ld_json_texts};
use vstd::prelude::*;

verus! {

broadcast use vstd::string::group_string_axioms;

/// What reading the Trony product page `page` at `link` gives: nothing for
/// a page without a JSON document, the product the first JSON document
/// describes, or an error when that document is not JSON or lacks what a
/// listing needs.
pub open spec fn trony_page(r: Result<Option<Product>, CrawlError>, link: Seq<char>, page: Seq<char>) -> bool {
    let scripts = ld_json_scripts(page);
    let doc = scripts[0];
    if scripts.len() == 0 {
        r == Ok::<Option<Product>, CrawlError>(None)
    } else if !json_valid(doc) {
        r == Err::<Option<Product>, CrawlError>(CrawlError::Json)
    } else if !trony_complete(doc) {
        r == Err::<Option<Product>, CrawlError>(CrawlError::MissingField)
    } else {
        r matches Ok(Some(p)) && trony_listing(p, link, doc)
    }
}

/// The Trony page `page` at `link` gives a product or nothing, not an error.
pub open spec fn trony_page_reads(link: Seq<char>, page: Seq<char>) -> bool {
    exists|p: Option<Product>| trony_page(Ok(p), link, page)
}

/// The products among `qs`, in their order.
pub open spec fn present_products(qs: Seq<Option<Product>>) -> Seq<Product>
    decreases qs.len(),
{
    if qs.len() == 0 {
        Seq::<Product>::empty()
    } else {
        match qs.last() {
            Some(p) => present_products(qs.drop_last()).push(p),
            None => present_products(qs.drop_last()),
        }
    }
}

/// A page with a product gives that product; a page without one gives
/// nothing.
pub proof fn lemma_present_single(q: Option<Product>)
    ensures
        present_products(seq![q]) == (match q {
            Some(p) => seq![p],
            None => Seq::<Product>::empty(),
        }),
{
    assert(seq![q].drop_last() =~= Seq::<Option<Product>>::empty());
    assert(seq![q].last() == q);
    assert(present_products(Seq::<Option<Product>>::empty()) == Seq::<Product>::empty());
    match q {
        Some(p) => {
            assert(Seq::<Product>::empty().push(p) =~= seq![p]);
        },
        None => {},
    }
}

/// The products of two runs of pages, one after the other, are the products
/// of each run put together.
pub proof fn lemma_present_concat(a: Seq<Option<Product>>, b: Seq<Option<Product>>)
    ensures
        present_products(a + b) == present_products(a) + present_products(b),
    decreases b.len(),
{
    if b.len() == 0 {
        assert(a + b =~= a);
        assert(present_products(a) + present_products(b) =~= present_products(a));
    } else {
        lemma_present_concat(a, b.drop_last());
        assert((a + b).drop_last() =~= a + b.drop_last());
        assert((a + b).last() == b.last());
        match b.last() {
            Some(p) => {
                assert(present_products(a + b) =~= present_products(a) + present_products(b));
            },
            None => {},
        }
    }
}

/// The Trony shop.
#[derive(Debug)]
pub struct TronyIt;

/// The texts a Trony document gives for a product, each a JSON string:
/// image, name, offer price, description and brand name.
pub open spec fn trony_image(doc: Seq<char>) -> Option<Seq<char>> {
    json_string(member_or_null(doc, "image"@))
}

pub open spec fn trony_name(doc: Seq<char>) -> Option<Seq<char>> {
    json_string(member_or_null(doc, "name"@))
}

pub open spec fn trony_price(doc: Seq<char>) -> Option<Seq<char>> {
    json_string(nested_or_null(doc, "offers"@, "price"@))
}

pub open spec fn trony_description(doc: Seq<char>) -> Option<Seq<char>> {
    json_string(member_or_null(doc, "description"@))
}

pub open spec fn trony_brand(doc: Seq<char>) -> Option<Seq<char>> {
    json_string(nested_or_null(doc, "brand"@, "name"@))
}

/// Every text a Trony document must give is there.
pub open spec fn trony_complete(doc: Seq<char>) -> bool {
    &&& trony_image(doc) is Some
    &&& trony_name(doc) is Some
    &&& trony_price(doc) is Some
    &&& trony_description(doc) is Some
    &&& trony_brand(doc) is Some
}

/// The product a Trony page describes in its JSON document `doc`.
pub open spec fn trony_listing(p: Product, link: Seq<char>, doc: Seq<char>) -> bool {
    &&& keeps_defaults(p)
    &&& p.link@ == link
    &&& p.image@ == trony_image(doc)->Some_0
    &&& p.name@ == trony_name(doc)->Some_0
    &&& p.currency == Currency::Euro
    &&& p.price@ == trony_price(doc)->Some_0
    &&& p.description@ == trony_description(doc)->Some_0
    &&& p.brand@ == trony_brand(doc)->Some_0
    &&& p.color@ == Seq::<char>::empty()
}

impl TronyIt {
    pub fn new() -> (s: Self) {
        TronyIt
    }

    /// The shop's display name.
    pub fn to_string(&self) -> (s: String)
        ensures
            s@ == "TronyIt"@,
    {
        String::from_str("TronyIt")
    }

    /// The product of the Trony page at `link`: none when the page has no
    /// JSON document, else the one its first JSON document describes (in
    /// euros). It is an error when that document is not JSON, or lacks one
    /// of the texts it must give.
    pub fn product_from_page(link: &str, page: &str) -> (r: Result<Option<Product>, CrawlError>)
        ensures
            trony_page(r, link@, page@),
    {
        let scripts = ld_json_texts(page);
        if scripts.len() == 0 {
            return Ok(None);
        }
        let mut product = Product::default();
        let doc = scripts[0].as_str();
        assert(doc@ == ld_json_scripts(page@)[0]);
        if !is_json(doc) {
            return Err(CrawlError::Json);
        }
        product.link = String::from_str(link);
        product.image = match as_str(index_key(doc, "image").as_str()) {
            Some(s) => s,
            None => return Err(CrawlError::MissingField),
        };
        product.name = match as_str(index_key(doc, "name").as_str()) {
            Some(s) => s,
            None => return Err(CrawlError::MissingField),
        };
        product.currency = Currency::Euro;
        product.price = match as_str(index_keys(doc, "offers", "price").as_str()) {
            Some(s) => s,
            None => return Err(CrawlError::MissingField),
        };
        product.description = match as_str(index_key(doc, "description").as_str()) {
            Some(s) => s,
            None => return Err(CrawlError::MissingField),
        };
        product.brand = match as_str(index_keys(doc, "brand", "name").as_str()) {
            Some(s) => s,
            None => return Err(CrawlError::MissingField),
        };
        Ok(Some(product))
    }

    /// A crawl of Trony: the products of the pages of its first `limit`
    /// links (`pages[i]` is the page at `links[i]`), in their order, leaving
    /// out pages without a product. The first page that gives an error stops
    /// the crawl with that error.
    pub fn products_from_pages(links: &Vec<String>, limit: usize, pages: &Vec<String>) -> (r: Result<
        Vec<Product>,
        CrawlError,
    >)
        requires
            pages.len() == crawled_count(links@, limit),
        ensures
            match r {
                Ok(ps) => exists|qs: Seq<Option<Product>>|
                    {
                        &&& qs.len() == pages.len()
                        &&& forall|i: int|
                            0 <= i < qs.len() ==> trony_page(
                                Ok(#[trigger] qs[i]),
                                links@[i]@,
                                pages@[i]@,
                            )
                        &&& ps@ == present_products(qs)
                    },
                Err(e) => exists|k: int|
                    {
                        &&& 0 <= k < pages.len()
                        &&& trony_page(Err(e), links@[k]@, pages@[k]@)
                        &&& forall|i: int|
                            0 <= i < k ==> #[trigger] trony_page_reads(links@[i]@, pages@[i]@)
                    },
            },
    {
        let ghost mut qs: Seq<Option<Product>> = Seq::empty();
        let mut out: Vec<Product> = Vec::new();
        let mut i: usize = 0;
        while i < pages.len()
            invariant
                i <= pages.len(),
                pages.len() <= links.len(),
                qs.len() == i,
                forall|j: int|
                    0 <= j < i ==> trony_page(Ok(#[trigger] qs[j]), links@[j]@, pages@[j]@),
                out@ == present_products(qs),
            decreases pages.len() - i,
        {
            match TronyIt::product_from_page(links[i].as_str(), pages[i].as_str()) {
                Ok(q) => {
                    proof {
                        assert(qs.push(q).drop_last() =~= qs);
                        qs = qs.push(q);
                    }
                    match q {
                        Some(p) => out.push(p),
                        None => {},
                    }
                },
                Err(e) => {
                    assert forall|j: int| 0 <= j < i implies #[trigger] trony_page_reads(
                        links@[j]@,
                        pages@[j]@,
                    ) by {
                        assert(trony_page(Ok(qs[j]), links@[j]@, pages@[j]@));
                    }
                    assert(trony_page(Err(e), links@[i as int]@, pages@[i as int]@));
                    return Err(e);
                },
            }
            i += 1;
        }
        Ok(out)
    }
}

} // verus!
