use pricy::error::CrawlError;
use pricy::models::products::{listed_products, Currency, Product};
use pricy::shops::countries::it::jdsports_it::JdsportsIt;
use pricy::shops::countries::it::trony_it::TronyIt;
use pricy::shops::countries::uk::currys_co_uk::CurrysCoUk;
use pricy::shops::countries::uk::johnlewis_com::{is_robots_parsable, JohnlewisCom};
use pricy::shops::countries::uk::laptopsdirect_co_uk::LaptopsdirectCoUk;
use pricy::shops::countries::uk::nordicnest_com::NordicnestCom;
use pricy::shops::countries::uk::technoworld_com::TechnoworldCom;
use pricy::utilities::website::{
    decode_gzip_body, get_sitemap_links_by_content, is_wanted_page, links_to_crawl, product_detail,
    use_gzip,
};
use pricy::utilities::json::index_keys;
use pricy::DynamicArgs;

fn page_with(doc: &str, body: &str) -> String {
    format!(
        "<html><head><script type=\"application/ld+json\">{doc}</script></head><body>{body}</body></html>"
    )
}

fn no_filters() -> DynamicArgs {
    DynamicArgs::from_options(None, None, None)
}

const SITEMAP: &str = "<?xml version=\"1.0\"?><urlset><url><loc>https://s.com/products/a</loc></url>\
<url><loc>https://s.com/help</loc></url><url><loc>https://s.com/products/b</loc></url></urlset>";

#[test]
fn sitemap_links_with_phrase() {
    assert_eq!(
        get_sitemap_links_by_content(SITEMAP, "products"),
        vec!["https://s.com/products/a", "https://s.com/products/b"]
    );
}

#[test]
fn sitemap_links_without_phrase_keeps_all() {
    assert_eq!(get_sitemap_links_by_content(SITEMAP, "").len(), 3);
    assert_eq!(get_sitemap_links_by_content(SITEMAP, "nothing"), Vec::<String>::new());
    assert_eq!(get_sitemap_links_by_content("", ""), Vec::<String>::new());
}

#[test]
fn sitemap_links_narrower_phrase_keeps_part() {
    let wide = get_sitemap_links_by_content(SITEMAP, "products");
    let narrow = get_sitemap_links_by_content(SITEMAP, "products/b");
    assert_eq!(narrow, vec!["https://s.com/products/b"]);
    assert!(narrow.iter().all(|l| wide.contains(l)));
    assert_eq!(get_sitemap_links_by_content(SITEMAP, ""), vec![
        "https://s.com/products/a",
        "https://s.com/help",
        "https://s.com/products/b"
    ]);
}

#[test]
fn product_detail_runs_texts_together() {
    let page = "<div class=\"t\">Red </div><p>x</p><span class=\"t\">Chair</span>";
    assert_eq!(product_detail(page, "t"), "Red Chair");
    assert_eq!(product_detail(page, "none"), "");
}

#[test]
fn gzip_when_asked_or_by_extension() {
    assert!(use_gzip(true, "https://a/sitemap.xml"));
    assert!(use_gzip(false, "https://a/sitemap.xml.gz"));
    assert!(!use_gzip(false, "https://a/sitemap.xml"));
}

#[test]
fn gzip_body_decodes() {
    let mut enc = flate2::write::GzEncoder::new(Vec::new(), flate2::Compression::default());
    std::io::Write::write_all(&mut enc, "<urlset>ü</urlset>".as_bytes()).unwrap();
    let body = enc.finish().unwrap();
    assert_eq!(decode_gzip_body(&body), Ok("<urlset>ü</urlset>".to_string()));
    assert_eq!(decode_gzip_body(b"plain text"), Err(CrawlError::Gzip));
}

#[test]
fn wanted_page_checks_notice_and_filters() {
    assert!(is_wanted_page("a red chair", "https://x/p1", "gone", "", ""));
    assert!(!is_wanted_page("this is gone", "https://x/p1", "gone", "", ""));
    assert!(!is_wanted_page("a red chair", "https://x/p1", "gone", "blue", ""));
    assert!(!is_wanted_page("a red chair", "https://x/p1", "gone", "", "/p2"));
    assert!(is_wanted_page("a red chair", "https://x/p1", "gone", "red", "/p1"));
}

const JL_DOC: &str = r#"{"name":"Wool \"Coat\"","image":"https://img/c1","offers":{"lowPrice":"49.50","price":"60"}}"#;

#[test]
fn johnlewis_product_from_ld_json() {
    let page = page_with(JL_DOC, "<p>in stock</p>");
    let p = JohnlewisCom::product_from_page("https://www.johnlewis.com/p1", &page, &no_filters()).unwrap();
    assert_eq!(p.link, "https://www.johnlewis.com/p1");
    assert_eq!(p.name, "Wool \\Coat\\");
    assert_eq!(p.image, "https://img/c1?.jpg");
    assert_eq!(p.price, "49.50");
    assert_eq!(p.currency, Currency::Pound);
    assert!(p.is_named());
}

#[test]
fn johnlewis_price_without_low_price() {
    let page = page_with(r#"{"name":"Lamp","image":"i","offers":{"price":12}}"#, "");
    let p = JohnlewisCom::product_from_page("u", &page, &no_filters()).unwrap();
    assert_eq!(p.price, "12");
    assert_eq!(p.name, "Lamp");
}

#[test]
fn johnlewis_price_keeps_the_written_number() {
    let page = page_with(r#"{"name":"Sofa","image":"i","offers":{"lowPrice":1299.99,"price":1400.1}}"#, "");
    let p = JohnlewisCom::product_from_page("u", &page, &no_filters()).unwrap();
    assert_eq!(p.price, "1299.99");
    let page = page_with(r#"{"name":"Sofa","image":"i","offers":{"price":0.1}}"#, "");
    let p = JohnlewisCom::product_from_page("u", &page, &no_filters()).unwrap();
    assert_eq!(p.price, "0.1");
}

#[test]
fn nested_json_members() {
    let doc = r#"{"offers":{"price":19.99,"name":"x"},"brand":{"name":"Nike"}}"#;
    assert_eq!(index_keys(doc, "offers", "price"), "19.99");
    assert_eq!(index_keys(doc, "brand", "name"), "\"Nike\"");
    assert_eq!(index_keys(doc, "brand", "size"), "null");
    assert_eq!(index_keys(doc, "none", "name"), "null");
}

#[test]
fn johnlewis_gone_or_filtered_page_is_blank() {
    let gone = page_with(JL_DOC, "No longer available online");
    let p = JohnlewisCom::product_from_page("u", &gone, &no_filters()).unwrap();
    assert!(!p.is_named());
    assert_eq!(p.price, "0");
    assert_eq!(p.currency, Currency::Dollar);
    let args = DynamicArgs::from_options(None, Some("silk".to_string()), None);
    let p = JohnlewisCom::product_from_page("u", &page_with(JL_DOC, ""), &args).unwrap();
    assert_eq!(p.name, "");
    let p = JohnlewisCom::product_from_page("u", "<html></html>", &no_filters()).unwrap();
    assert_eq!(p.link, "");
}

#[test]
fn johnlewis_errors() {
    let bad = page_with("{not json", "");
    assert_eq!(
        JohnlewisCom::product_from_page("u", &bad, &no_filters()).unwrap_err(),
        CrawlError::Json
    );
    let no_offers = page_with(r#"{"name":"Lamp"}"#, "");
    assert_eq!(
        JohnlewisCom::product_from_page("u", &no_offers, &no_filters()).unwrap_err(),
        CrawlError::MissingField
    );
}

const JD_DOC: &str = r#"{"name":"Air Max","image":["https://img/a","https://img/b"],"offers":{"price":129.99},"description":"Scarpe","brand":{"name":"Nike"},"color":"Bianco"}"#;

#[test]
fn jdsports_product_from_ld_json() {
    let page = page_with(JD_DOC, "");
    let p = JdsportsIt::product_from_page("https://www.jdsports.it/p/1", &page, &no_filters()).unwrap();
    assert_eq!(p.image, "https://img/a.jpg");
    assert_eq!(p.name, "Air Max");
    assert_eq!(p.price, "129.99");
    assert_eq!(p.description, "Scarpe");
    assert_eq!(p.brand, "Nike");
    assert_eq!(p.color, "Bianco");
    assert_eq!(p.currency, Currency::Euro);
    assert_eq!(p.link, "https://www.jdsports.it/p/1");
}

#[test]
fn jdsports_missing_and_gone() {
    let page = page_with(r#"{"name":"Air Max","image":"https://img/a"}"#, "");
    assert_eq!(
        JdsportsIt::product_from_page("u", &page, &no_filters()).unwrap_err(),
        CrawlError::MissingField
    );
    let gone = page_with(JD_DOC, "Nessun prodotto corrisponde alla tua ricerca.");
    assert_eq!(JdsportsIt::product_from_page("u", &gone, &no_filters()).unwrap().name, "");
}

#[test]
fn trony_product_from_ld_json() {
    let doc = r#"{"name":"TV 55","image":"https://img/tv","offers":{"price":"499.00"},"description":"4K","brand":{"name":"LG"}}"#;
    let p = TronyIt::product_from_page("https://www.trony.it/tv", &page_with(doc, ""))
        .unwrap()
        .unwrap();
    assert_eq!(p.price, "499.00");
    assert_eq!(p.brand, "LG");
    assert_eq!(p.image, "https://img/tv");
    assert_eq!(p.color, "");
    assert_eq!(TronyIt::product_from_page("l", "<p></p>").unwrap().is_none(), true);
    let numeric_price = r#"{"name":"TV","image":"i","offers":{"price":499},"description":"d","brand":{"name":"LG"}}"#;
    assert_eq!(
        TronyIt::product_from_page("l", &page_with(numeric_price, "")).unwrap_err(),
        CrawlError::MissingField
    );
}

const LISTING: &str = r#"<html><body>
<div class="product__wrapper"><div>
  <img class="product-image-photo" src="https://img/1.jpg">
  <strong class="product-item-name"><a href="https://technoworld.com/p1">  Laptop One  </a></strong>
  <span class="price">€1,299.00</span>
  <img class="product-image-photo" src="https://img/2.jpg">
  <strong class="product-item-name"><a href="https://technoworld.com/p2">Phone</a></strong>
  <span class="price">€99.50</span>
  <img class="product-image-photo" src="https://img/3.jpg">
</div></div></body></html>"#;

#[test]
fn technoworld_listing_products() {
    let ps: Vec<Product> = TechnoworldCom::products_from_listing(LISTING).unwrap();
    assert_eq!(ps.len(), 2);
    assert_eq!(ps[0].name, "Laptop One");
    assert_eq!(ps[0].link, "https://technoworld.com/p1");
    assert_eq!(ps[0].price, "1299.00");
    assert_eq!(ps[0].image, "https://img/1.jpg");
    assert_eq!(ps[0].currency, Currency::Euro);
    assert_eq!(ps[1].price, "99.50");
}

#[test]
fn technoworld_missing_parts() {
    let no_src = r#"<img class="product-image-photo">"#;
    assert_eq!(TechnoworldCom::products_from_listing(no_src).unwrap_err(), CrawlError::MissingField);
    let empty_price = r#"<div class="product__wrapper"><div><span class="price">,</span></div></div>"#;
    assert_eq!(
        TechnoworldCom::products_from_listing(empty_price).unwrap_err(),
        CrawlError::MissingField
    );
    assert_eq!(TechnoworldCom::products_from_listing("<p></p>").unwrap().len(), 0);
}

#[test]
fn johnlewis_robots() {
    assert_eq!(JohnlewisCom::can_crawl_with(""), Some(true));
    assert_eq!(JohnlewisCom::can_crawl_with("User-agent: *\nDisallow: /\n"), Some(false));
    assert_eq!(
        JohnlewisCom::can_crawl_with("User-agent: Pricy\nAllow: /\nUser-agent: *\nDisallow: /\n"),
        Some(true)
    );
}

#[test]
fn johnlewis_robots_long_lines() {
    // A line of two-byte characters past the parser's line limit.
    let wide = format!("{}\na\n", "\u{e9}".repeat(16670));
    assert!(!is_robots_parsable(&wide));
    assert_eq!(JohnlewisCom::can_crawl_with(&wide), None);
    // The same length in one-byte characters is read, the tail skipped.
    let narrow = format!("{}\nUser-agent: *\nDisallow: /\n", "#".repeat(40000));
    assert!(is_robots_parsable(&narrow));
    assert_eq!(JohnlewisCom::can_crawl_with(&narrow), Some(false));
    // Two-byte characters before the limit are fine.
    let short_wide = format!("{}\n", "\u{e9}".repeat(8000));
    assert!(is_robots_parsable(&short_wide));
    assert_eq!(JohnlewisCom::can_crawl_with(&short_wide), Some(true));
    // A two-byte character past the limit on the last line: nothing is cut after it.
    let last_long = format!("User-agent: *\nDisallow: /\n{}\u{e9}", "a".repeat(16663));
    assert!(is_robots_parsable(&last_long));
    assert_eq!(JohnlewisCom::can_crawl_with(&last_long), Some(false));
    // One skipped two-byte character: the next cut starts on the line break
    // and still falls on character boundaries.
    let one_wide = format!("{}\u{e9}\na\n", "a".repeat(16663));
    assert!(is_robots_parsable(&one_wide));
    assert_eq!(JohnlewisCom::can_crawl_with(&one_wide), Some(true));
    // Two skipped two-byte characters: the next cut lands inside one.
    let two_wide = format!("{}\u{e9}\u{e9}\nab\n", "a".repeat(16663));
    assert!(!is_robots_parsable(&two_wide));
    assert_eq!(JohnlewisCom::can_crawl_with(&two_wide), None);
}

#[test]
fn listed_products_keep_named_ones_in_order() {
    let named = |n: &str| Product { name: n.to_string(), ..Product::default() };
    let ps = vec![named("a"), named(""), named("b"), named("")];
    let out = listed_products(ps);
    assert_eq!(out.len(), 2);
    assert_eq!(out[0].name, "a");
    assert_eq!(out[1].name, "b");
    assert_eq!(listed_products(vec![named("")]).len(), 0);
}

#[test]
fn links_to_crawl_takes_the_first_ones() {
    let links: Vec<String> = vec!["a".into(), "b".into(), "c".into()];
    assert_eq!(links_to_crawl(&links, 2), vec!["a", "b"]);
    assert_eq!(links_to_crawl(&links, 5), links);
    assert_eq!(links_to_crawl(&links, 0), Vec::<String>::new());
}

#[test]
fn nordicnest_product_sitemap_is_the_second() {
    let one: Vec<String> = vec!["s1".into()];
    let two: Vec<String> = vec!["s1".into(), "s2".into(), "s3".into()];
    assert_eq!(NordicnestCom::product_sitemap(&one), None);
    assert_eq!(NordicnestCom::product_sitemap(&two), Some("s2".to_string()));
}

#[test]
fn page_sections_found_by_query() {
    let page = r#"<html><body><div id="products"><p>Laptop</p></div><div class="page-main">Main</div></body></html>"#;
    let sections = LaptopsdirectCoUk::product_sections(page);
    assert_eq!(sections.len(), 1);
    assert!(sections[0].contains("Laptop"));
    assert!(!sections[0].contains("Main"));
    let mains = TechnoworldCom::page_main_sections(page);
    assert_eq!(mains.len(), 1);
    assert!(mains[0].contains("Main"));
    assert!(!mains[0].contains("Laptop"));
    assert_eq!(LaptopsdirectCoUk::product_sections("<p>x</p>").len(), 0);
    let outline = CurrysCoUk::page_outline(page);
    assert_ne!(outline, page);
    assert!(outline.contains("Laptop"));
    assert_eq!(NordicnestCom::page_outline(page), outline);
}

fn owned(v: &[&str]) -> Vec<String> {
    v.iter().map(|s| s.to_string()).collect()
}

#[test]
fn johnlewis_crawl_of_pages() {
    let links = owned(&["https://www.johnlewis.com/p1", "https://www.johnlewis.com/p2", "https://www.johnlewis.com/p3"]);
    let named = page_with(JL_DOC, "");
    let unnamed = page_with(r#"{"name":"","image":"i","offers":{"price":"5"}}"#, "");
    let pages = vec![named.clone(), unnamed];
    let ps = JohnlewisCom::products_from_pages(&links, 2, &pages, &no_filters()).unwrap();
    assert_eq!(ps.len(), 1);
    assert_eq!(ps[0].link, "https://www.johnlewis.com/p1");
    assert_eq!(ps[0].price, "49.50");
    let bad = vec![named, page_with("{not json", "")];
    assert_eq!(
        JohnlewisCom::products_from_pages(&links, 2, &bad, &no_filters()).unwrap_err(),
        CrawlError::Json
    );
    assert_eq!(JohnlewisCom::products_from_pages(&links, 0, &vec![], &no_filters()).unwrap().len(), 0);
}

#[test]
fn jdsports_crawl_of_pages() {
    let links = owned(&["https://www.jdsports.it/p/1", "https://www.jdsports.it/p/2"]);
    let pages = vec![page_with(JD_DOC, ""), "<p>no document</p>".to_string()];
    let ps = JdsportsIt::products_from_pages(&links, 5, &pages, &no_filters()).unwrap();
    assert_eq!(ps.len(), 2);
    assert_eq!(ps[0].name, "Air Max");
    assert_eq!(ps[1].name, "");
    let missing = vec![page_with(r#"{"name":"Air Max","image":"https://img/a"}"#, ""), page_with(JD_DOC, "")];
    assert_eq!(
        JdsportsIt::products_from_pages(&links, 5, &missing, &no_filters()).unwrap_err(),
        CrawlError::MissingField
    );
}

#[test]
fn trony_crawl_of_pages() {
    let doc = r#"{"name":"TV 55","image":"https://img/tv","offers":{"price":"499.00"},"description":"4K","brand":{"name":"LG"}}"#;
    let links = owned(&["https://www.trony.it/a", "https://www.trony.it/b", "https://www.trony.it/c"]);
    let pages = vec!["<p></p>".to_string(), page_with(doc, "")];
    let ps = TronyIt::products_from_pages(&links, 2, &pages).unwrap();
    assert_eq!(ps.len(), 1);
    assert_eq!(ps[0].link, "https://www.trony.it/b");
    assert_eq!(ps[0].name, "TV 55");
    let bad = vec![page_with("{", ""), page_with(doc, "")];
    assert_eq!(TronyIt::products_from_pages(&links, 2, &bad).unwrap_err(), CrawlError::Json);
}
