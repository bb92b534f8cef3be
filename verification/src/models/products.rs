//! Products, shop descriptions and request options.
use crate::models::utils::{title_cased, user_agent, NAME, VERSION};
use crate::utilities::create_sitemap::{is_written_date, now};
use vstd::prelude::*;

verus! {

broadcast use vstd::string::group_string_axioms;

/// The currency of a price.
#[derive(Clone, Copy, Debug, PartialEq, Eq, Structural)]
pub enum Currency {
    Euro,
    Dollar,
    Pound,
}

impl Default for Currency {
    /// Prices are in dollars unless a shop says otherwise.
    fn default() -> (c: Currency)
        ensures
            c == Currency::Dollar,
    {
        Currency::Dollar
    }
}

/// A product as a shop lists it. The price is the decimal text the shop
/// gives for it (the program around the library reads it as a number).
#[derive(Clone, Debug)]
pub struct Product {
    pub name: String,
    pub link: String,
    pub price: String,
    pub currency: Currency,
    pub description: String,
    pub updated_at: String,
    pub tags: Vec<String>,
    pub main_cat_link: String,
    pub enable: bool,
    pub discount: u64,
    pub image: String,
    pub color: String,
    pub brand: String,
}

/// The fields that no shop fills in keep their defaults: no tags, no main
/// category, enabled, no discount, and the date of the day it was made,
/// written as a date.
pub open spec fn keeps_defaults(p: Product) -> bool {
    &&& is_written_date(p.updated_at@)
    &&& p.tags@.len() == 0
    &&& p.main_cat_link@ == Seq::<char>::empty()
    &&& p.enable
    &&& p.discount == 0
}

/// A product with nothing filled in but its date: no name, link, texts,
/// tags or discount, a price of zero in dollars, and enabled.
pub open spec fn is_blank_product(p: Product) -> bool {
    &&& keeps_defaults(p)
    &&& p.name@ == Seq::<char>::empty()
    &&& p.link@ == Seq::<char>::empty()
    &&& p.price@ == "0"@
    &&& p.currency == Currency::Dollar
    &&& p.description@ == Seq::<char>::empty()
    &&& p.image@ == Seq::<char>::empty()
    &&& p.color@ == Seq::<char>::empty()
    &&& p.brand@ == Seq::<char>::empty()
}

impl Product {
    /// Whether the product has a name (a crawl lists only such products).
    pub fn is_named(&self) -> (b: bool)
        ensures
            b == (self.name@.len() > 0),
    {
        self.name.unicode_len() > 0
    }
}

/// The products that are listed: those with a name.
pub open spec fn listed(ps: Seq<Product>) -> Seq<Product> {
    ps.filter(|p: Product| p.name@.len() > 0)
}

/// One product is listed when it has a name, and not otherwise.
pub proof fn lemma_listed_single(p: Product)
    ensures
        listed(seq![p]) == (if p.name@.len() > 0 {
            seq![p]
        } else {
            Seq::<Product>::empty()
        }),
{
    Seq::<Product>::empty().lemma_filter_push(p, |q: Product| q.name@.len() > 0);
    assert(Seq::<Product>::empty().push(p) =~= seq![p]);
    assert(Seq::<Product>::empty().filter(|q: Product| q.name@.len() > 0) =~= Seq::<Product>::empty());
}

/// Listing the products of two runs of pages one after the other is
/// listing each run and putting the lists together.
pub proof fn lemma_listed_concat(a: Seq<Product>, b: Seq<Product>)
    ensures
        listed(a + b) == listed(a) + listed(b),
{
    Seq::filter_distributes_over_add(a, b, |q: Product| q.name@.len() > 0);
}

/// When every product has a name, every product is listed, in its order.
pub proof fn lemma_listed_all_named(ps: Seq<Product>)
    requires
        forall|i: int| 0 <= i < ps.len() ==> (#[trigger] ps[i]).name@.len() > 0,
    ensures
        listed(ps) == ps,
    decreases ps.len(),
{
    if ps.len() > 0 {
        let init = ps.drop_last();
        assert forall|i: int| 0 <= i < init.len() implies (#[trigger] init[i]).name@.len() > 0 by {
            assert(init[i] == ps[i]);
        }
        lemma_listed_all_named(init);
        init.lemma_filter_push(ps.last(), |q: Product| q.name@.len() > 0);
        assert(init.push(ps.last()) =~= ps);
        assert(ps[ps.len() - 1] == ps.last());
    }
}

/// The products that a crawl lists, in their order: those with a name.
pub fn listed_products(ps: Vec<Product>) -> (out: Vec<Product>)
    ensures
        out@ == listed(ps@),
{
    let ghost orig = ps@;
    let ghost mut i: int = 0;
    let mut rest = ps;
    let mut out: Vec<Product> = Vec::new();
    assert(orig.skip(0) =~= orig);
    assert(orig.take(0) =~= Seq::<Product>::empty());
    while rest.len() > 0
        invariant
            0 <= i <= orig.len(),
            rest@ == orig.skip(i),
            out@ == listed(orig.take(i)),
        decreases rest.len(),
    {
        let p = rest.remove(0);
        proof {
            assert(p == orig[i]);
            assert(orig.take(i + 1) =~= orig.take(i).push(orig[i]));
            orig.take(i).lemma_filter_push(orig[i], |p: Product| p.name@.len() > 0);
            assert(orig.skip(i).remove(0) =~= orig.skip(i + 1));
        }
        if p.is_named() {
            out.push(p);
        }
        proof {
            i = i + 1;
        }
    }
    assert(orig.take(i) =~= orig);
    out
}

impl Default for Product {
    /// A blank product updated today.
    fn default() -> (p: Product)
        ensures
            is_blank_product(p),
    {
        Product {
            name: String::new(),
            link: String::new(),
            price: String::from_str("0"),
            currency: Currency::Dollar,
            description: String::new(),
            updated_at: now(),
            tags: Vec::new(),
            main_cat_link: String::new(),
            enable: true,
            discount: 0,
            image: String::new(),
            color: String::new(),
            brand: String::new(),
        }
    }
}

/// Where a shop is and where its sitemap is.
#[derive(Clone, Debug)]
pub struct ShopDetail {
    pub country: String,
    pub sitename: String,
    pub site_address: String,
    pub sitemap_address: String,
}

impl Default for ShopDetail {
    /// A shop with every text empty.
    fn default() -> (d: ShopDetail)
        ensures
            d.country@ == Seq::<char>::empty(),
            d.sitename@ == Seq::<char>::empty(),
            d.site_address@ == Seq::<char>::empty(),
            d.sitemap_address@ == Seq::<char>::empty(),
    {
        ShopDetail {
            country: String::new(),
            sitename: String::new(),
            site_address: String::new(),
            sitemap_address: String::new(),
        }
    }
}

/// How a shop is crawled.
#[derive(Clone, Debug)]
pub struct ShopConfig {
    pub is_gzip: bool,
    pub timeout: u64,
    pub delay: i32,
    /// Requests per second.
    pub requests: i64,
}

/// Extra request headers of a shop.
#[derive(Clone, Debug)]
pub struct Headers {
    pub user_agent: String,
}

/// What a shop deals in.
#[derive(Clone, Debug)]
pub struct MetaConfig {
    pub work_field: Vec<String>,
}

/// A shop's configuration file.
#[derive(Clone, Debug)]
pub struct MainConfig {
    pub shop_detail: ShopDetail,
    pub shop_config: ShopConfig,
    pub custom_headers: Option<Headers>,
    pub meta_config: Option<MetaConfig>,
}

/// The options an HTTP client is built with. The headers are name and
/// value pairs.
#[derive(Clone, Debug)]
pub struct ClientBuilderOptions {
    pub timeout: u64,
    pub user_agent: String,
    pub headers: Vec<(String, String)>,
    pub proxy: Option<String>,
    pub is_gzip: bool,
}

impl ClientBuilderOptions {
    /// The options given on the command line, with their defaults: a timeout
    /// of ten seconds, no gzip, the crawler's own user agent, no headers.
    pub fn from_args(
        timeout: Option<u64>,
        gzip: Option<bool>,
        user_agent_arg: Option<String>,
        proxy: Option<String>,
    ) -> (o: ClientBuilderOptions)
        ensures
            o.timeout == (match timeout {
                Some(t) => t,
                None => 10,
            }),
            o.is_gzip == (match gzip {
                Some(g) => g,
                None => false,
            }),
            o.user_agent@ == (match user_agent_arg {
                Some(u) => u@,
                None => title_cased(NAME@) + "/"@ + VERSION@,
            }),
            o.headers@.len() == 0,
            o.proxy == proxy,
    {
        let timeout = match timeout {
            Some(t) => t,
            None => 10,
        };
        let is_gzip = match gzip {
            Some(g) => g,
            None => false,
        };
        let user_agent = match user_agent_arg {
            Some(u) => u,
            None => user_agent(),
        };
        ClientBuilderOptions { timeout, user_agent, headers: Vec::new(), proxy, is_gzip }
    }
}

/// What a crawl of a shop produced.
#[derive(Clone, Debug)]
pub struct CrawlOutput {
    pub shop: ShopDetail,
    pub products: Vec<Product>,
}

} // verus!
