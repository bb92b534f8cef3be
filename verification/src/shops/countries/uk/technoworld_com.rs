//! Technoworld (technoworld.com).
use crate::error::CrawlError;
use crate::models::products::{keeps_defaults, Currency, Product};
use crate::text::{to_chars, trim, trimmed, string_from_range, without_chars, remove_chars};
use select::predicate::Predicate;
use vstd::prelude::*;

verus! {

broadcast use vstd::string::group_string_axioms;

/// The Technoworld shop.
#[derive(Debug)]
pub struct TechnoworldCom;

/// An optional text, by its characters.
pub open spec fn opt_view(o: Option<String>) -> Option<Seq<char>> {
    match o {
        Some(s) => Some(s@),
        None => None,
    }
}

/// The `src` attribute of every node whose `class` attribute is exactly
/// `product-image-photo`, in document order, as `select` finds them.
pub uninterp spec fn listing_image_sources(page: Seq<char>) -> Seq<Option<Seq<char>>>;

/// `select`: `find(Attr("class", "product-image-photo"))`, each node's `src`.
/// The result is named `listing_image_sources`.
#[verifier::external_body]
fn image_sources(page: &str) -> (srcs: Vec<Option<String>>)
    ensures
        srcs@.len() == listing_image_sources(page@).len(),
        forall|i: int|
            0 <= i < srcs@.len() ==> opt_view(#[trigger] srcs@[i]) == listing_image_sources(page@)[i],
{
    select::document::Document::from(page)
        .find(select::predicate::Attr("class", "product-image-photo"))
        .map(|n| n.attr("src").map(|s| s.to_string()))
        .collect()
}

/// For every node of class `product-item-name` inside a `div` inside a node
/// of class `product__wrapper`, in document order: the text of the first
/// child of its first `a` node, and that `a` node's `href`.
pub uninterp spec fn listing_item_links(page: Seq<char>) -> Seq<
    (Option<Seq<char>>, Option<Seq<char>>),
>;

/// `select`: the product names and links of a listing page. The result is
/// named `listing_item_links`.
#[verifier::external_body]
fn item_links(page: &str) -> (items: Vec<(Option<String>, Option<String>)>)
    ensures
        items@.len() == listing_item_links(page@).len(),
        forall|i: int|
            0 <= i < items@.len() ==> (opt_view((#[trigger] items@[i]).0), opt_view(items@[i].1))
                == listing_item_links(page@)[i],
{
    let document = select::document::Document::from(page);
    let query = select::predicate::Class("product__wrapper")
        .descendant(select::predicate::Name("div"))
        .descendant(select::predicate::Class("product-item-name"));
    document.find(query).map(|node| {
        let link = node.find(select::predicate::Name("a")).next();
        (
            link.and_then(|a| a.first_child()).map(|c| c.text()),
            link.and_then(|a| a.attr("href")).map(|h| h.to_string()),
        )
    }).collect()
}

/// For every node of class `price` inside a `div` inside a node of class
/// `product__wrapper`, in document order: the text of its first child.
pub uninterp spec fn listing_price_texts(page: Seq<char>) -> Seq<Option<Seq<char>>>;

/// `select`: the price texts of a listing page. The result is named
/// `listing_price_texts`.
#[verifier::external_body]
fn price_texts(page: &str) -> (prices: Vec<Option<String>>)
    ensures
        prices@.len() == listing_price_texts(page@).len(),
        forall|i: int|
            0 <= i < prices@.len() ==> opt_view(#[trigger] prices@[i]) == listing_price_texts(page@)[i],
{
    let document = select::document::Document::from(page);
    let query = select::predicate::Class("product__wrapper")
        .descendant(select::predicate::Name("div"))
        .descendant(select::predicate::Class("price"));
    document.find(query).map(|node| node.first_child().map(|c| c.text())).collect()
}

/// The `Debug` forms of the nodes of class `page-main` of a product page, in
/// document order, as `select` finds them.
pub uninterp spec fn page_main_nodes(page: Seq<char>) -> Seq<Seq<char>>;

/// `select`: `find(Class("page-main"))`, each node written with `{:?}`. The
/// result is named `page_main_nodes`.
#[verifier::external_body]
fn page_main_texts(page: &str) -> (v: Vec<String>)
    ensures
        crate::text::views(v@) == page_main_nodes(page@),
{
    select::document::Document::from(page)
        .find(select::predicate::Class("page-main"))
        .map(|n| format!("{:?}", n))
        .collect()
}

/// A listed price with its thousands separators taken out and its currency
/// sign (the first character) dropped.
pub open spec fn listed_price(t: Seq<char>) -> Seq<char> {
    without_chars(t, seq![',']).drop_first()
}

/// Every image, name, link and price of a listing page is there, and no
/// price is empty once its separators are out.
pub open spec fn listing_complete(page: Seq<char>) -> bool {
    &&& forall|i: int|
        0 <= i < listing_image_sources(page).len() ==> (#[trigger] listing_image_sources(
            page,
        )[i]) is Some
    &&& forall|i: int|
        0 <= i < listing_item_links(page).len() ==> (#[trigger] listing_item_links(page)[i]).0 is Some
            && listing_item_links(page)[i].1 is Some
    &&& forall|i: int|
        0 <= i < listing_price_texts(page).len() ==> (#[trigger] listing_price_texts(page)[i]) is Some
            && without_chars(listing_price_texts(page)[i]->Some_0, seq![',']).len() > 0
}

/// How many products a listing page gives: as many as the shortest of its
/// lists of images, names and prices.
pub open spec fn listing_len(page: Seq<char>) -> int {
    let a = listing_image_sources(page).len() as int;
    let b = listing_item_links(page).len() as int;
    let c = listing_price_texts(page).len() as int;
    let ab = if a < b {
        a
    } else {
        b
    };
    if ab < c {
        ab
    } else {
        c
    }
}

/// The `i`-th product of a complete listing page: its name (trimmed), link,
/// price, image, in euros.
pub open spec fn listing_product(p: Product, page: Seq<char>, i: int) -> bool {
    &&& keeps_defaults(p)
    &&& p.name@ == trimmed(listing_item_links(page)[i].0->Some_0)
    &&& p.link@ == listing_item_links(page)[i].1->Some_0
    &&& p.price@ == listed_price(listing_price_texts(page)[i]->Some_0)
    &&& p.currency == Currency::Euro
    &&& p.image@ == listing_image_sources(page)[i]->Some_0
    &&& p.description@ == Seq::<char>::empty()
    &&& p.color@ == Seq::<char>::empty()
    &&& p.brand@ == Seq::<char>::empty()
}

/// The `i`-th product of a listing is made from the `i`-th entry of each
/// list the page gives: the `i`-th item's trimmed name and its own link, the
/// `i`-th price and the `i`-th image.
pub proof fn lemma_listing_product_entries(p: Product, page: Seq<char>, i: int)
    requires
        listing_product(p, page, i),
    ensures
        p.name@ == trimmed(listing_item_links(page)[i].0->Some_0),
        p.link@ == listing_item_links(page)[i].1->Some_0,
        p.price@ == listed_price(listing_price_texts(page)[i]->Some_0),
        p.image@ == listing_image_sources(page)[i]->Some_0,
        p.currency == Currency::Euro,
{
}

/// Two products of a listing whose items link to different addresses have
/// different links.
pub proof fn lemma_listing_links_apart(p: Product, q: Product, page: Seq<char>, i: int, j: int)
    requires
        listing_product(p, page, i),
        listing_product(q, page, j),
        listing_item_links(page)[i].1 != listing_item_links(page)[j].1,
        listing_item_links(page)[i].1 is Some,
        listing_item_links(page)[j].1 is Some,
    ensures
        p.link@ != q.link@,
{
}

impl TechnoworldCom {
    pub fn new() -> (s: Self) {
        TechnoworldCom
    }

    /// The main sections of a product page, as crawling one address prints
    /// them.
    pub fn page_main_sections(page: &str) -> (v: Vec<String>)
        ensures
            crate::text::views(v@) == page_main_nodes(page@),
    {
        page_main_texts(page)
    }

    /// The shop's display name.
    pub fn to_string(&self) -> (s: String)
        ensures
            s@ == "TechnoworldCom"@,
    {
        String::from_str("TechnoworldCom")
    }

    /// The products of a Technoworld listing page: its images, names, links
    /// and prices taken together, up to the shortest of those lists. It is
    /// an error when any of them is missing or a price is empty.
    pub fn products_from_listing(page: &str) -> (r: Result<Vec<Product>, CrawlError>)
        ensures
            !listing_complete(page@) ==> r == Err::<Vec<Product>, CrawlError>(
                CrawlError::MissingField,
            ),
            listing_complete(page@) ==> (r matches Ok(ps) && ps@.len() == listing_len(page@)
                && forall|i: int| 0 <= i < ps@.len() ==> listing_product(#[trigger] ps@[i], page@, i)),
    {
        let srcs = image_sources(page);
        let ghost lis = listing_image_sources(page@);
        let mut images: Vec<String> = Vec::new();
        let mut i: usize = 0;
        while i < srcs.len()
            invariant
                i <= srcs@.len() == lis.len(),
                lis == listing_image_sources(page@),
                forall|k: int| 0 <= k < srcs@.len() ==> opt_view(#[trigger] srcs@[k]) == lis[k],
                images@.len() == i,
                forall|k: int| 0 <= k < i ==> lis[k] == Some((#[trigger] images@[k])@),
            decreases srcs.len() - i,
        {
            assert(opt_view(srcs@[i as int]) == lis[i as int]);
            match &srcs[i] {
                Some(s) => images.push(s.clone()),
                None => {
                    assert(lis[i as int] is None);
                    return Err(CrawlError::MissingField);
                },
            }
            i += 1;
        }
        let items = item_links(page);
        let ghost lil = listing_item_links(page@);
        let mut names: Vec<String> = Vec::new();
        let mut links: Vec<String> = Vec::new();
        let mut i: usize = 0;
        while i < items.len()
            invariant
                i <= items@.len() == lil.len(),
                lil == listing_item_links(page@),
                forall|k: int|
                    0 <= k < items@.len() ==> (opt_view((#[trigger] items@[k]).0), opt_view(
                        items@[k].1,
                    )) == lil[k],
                names@.len() == i,
                links@.len() == i,
                forall|k: int| 0 <= k < i ==> (#[trigger] lil[k]).0 is Some && lil[k].1 is Some,
                forall|k: int| 0 <= k < i ==> (#[trigger] names@[k])@ == trimmed(lil[k].0->Some_0),
                forall|k: int| 0 <= k < i ==> (#[trigger] links@[k])@ == lil[k].1->Some_0,
            decreases items.len() - i,
        {
            assert((opt_view(items@[i as int].0), opt_view(items@[i as int].1)) == lil[i as int]);
            match &items[i].0 {
                Some(title) => names.push(trim(title.as_str())),
                None => {
                    assert(lil[i as int].0 is None);
                    return Err(CrawlError::MissingField);
                },
            }
            match &items[i].1 {
                Some(href) => links.push(href.clone()),
                None => {
                    assert(lil[i as int].1 is None);
                    return Err(CrawlError::MissingField);
                },
            }
            i += 1;
        }
        let texts = price_texts(page);
        let ghost lpt = listing_price_texts(page@);
        let comma = [','];
        assert(comma@ =~= seq![',']);
        let mut prices: Vec<String> = Vec::new();
        let mut i: usize = 0;
        while i < texts.len()
            invariant
                i <= texts@.len() == lpt.len(),
                lpt == listing_price_texts(page@),
                comma@ == seq![','],
                forall|k: int| 0 <= k < texts@.len() ==> opt_view(#[trigger] texts@[k]) == lpt[k],
                prices@.len() == i,
                forall|k: int|
                    0 <= k < i ==> (#[trigger] lpt[k]) is Some && without_chars(
                        lpt[k]->Some_0,
                        seq![','],
                    ).len() > 0,
                forall|k: int| 0 <= k < i ==> (#[trigger] prices@[k])@ == listed_price(lpt[k]->Some_0),
            decreases texts.len() - i,
        {
            assert(opt_view(texts@[i as int]) == lpt[i as int]);
            match &texts[i] {
                Some(t) => {
                    let cleaned = remove_chars(t.as_str(), &comma);
                    let cs = to_chars(cleaned.as_str());
                    if cs.len() == 0 {
                        assert(without_chars(lpt[i as int]->Some_0, seq![',']).len() == 0);
                        return Err(CrawlError::MissingField);
                    }
                    let price = string_from_range(&cs, 1, cs.len());
                    assert(cs@.subrange(1, cs@.len() as int) =~= cs@.drop_first());
                    prices.push(price);
                },
                None => {
                    assert(lpt[i as int] is None);
                    return Err(CrawlError::MissingField);
                },
            }
            i += 1;
        }
        assert forall|j: int| 0 <= j < lis.len() implies (#[trigger] lis[j]) is Some by {
            assert(lis[j] == Some(images@[j]@));
        }
        assert(listing_complete(page@));
        let mut n = images.len();
        if names.len() < n {
            n = names.len();
        }
        if prices.len() < n {
            n = prices.len();
        }
        let mut products: Vec<Product> = Vec::new();
        let mut k: usize = 0;
        while k < n
            invariant
                k <= n,
                n <= images@.len(),
                n <= names@.len(),
                n <= prices@.len(),
                names@.len() == links@.len(),
                products@.len() == k,
                images@.len() == lis.len(),
                names@.len() == lil.len(),
                prices@.len() == lpt.len(),
                forall|j: int| 0 <= j < images@.len() ==> lis[j] == Some((#[trigger] images@[j])@),
                forall|j: int| 0 <= j < names@.len() ==> (#[trigger] lil[j]).0 is Some && lil[j].1 is Some,
                forall|j: int| 0 <= j < names@.len() ==> (#[trigger] names@[j])@ == trimmed(lil[j].0->Some_0),
                forall|j: int| 0 <= j < names@.len() ==> (#[trigger] links@[j])@ == lil[j].1->Some_0,
                forall|j: int| 0 <= j < prices@.len() ==> (#[trigger] lpt[j]) is Some,
                forall|j: int| 0 <= j < prices@.len() ==> (#[trigger] prices@[j])@ == listed_price(lpt[j]->Some_0),
                lis == listing_image_sources(page@),
                lil == listing_item_links(page@),
                lpt == listing_price_texts(page@),
                forall|j: int| 0 <= j < k ==> listing_product(#[trigger] products@[j], page@, j),
            decreases n - k,
        {
            let mut product = Product::default();
            product.name = names[k].clone();
            product.link = links[k].clone();
            product.price = prices[k].clone();
            product.currency = Currency::Euro;
            product.image = images[k].clone();
            assert(names@[k as int]@ == trimmed(lil[k as int].0->Some_0));
            assert(links@[k as int]@ == lil[k as int].1->Some_0);
            assert(prices@[k as int]@ == listed_price(lpt[k as int]->Some_0));
            assert(lis[k as int] == Some(images@[k as int]@));
            products.push(product);
            k += 1;
        }
        Ok(products)
    }
}

} // verus!
