use pricy::error::CrawlError;
use pricy::shops::ShopName;
use pricy::text::split_char;
use pricy::utilities::url_reader::{
    crawlable_urls, host_of, shop_for_host, site_address_of_line, site_hosts_in_config, valid_urls,
};

#[test]
fn urls_found_line_by_line() {
    let input = "see https://www.johnlewis.com/p5548442 now\nnothing here\nhttp://trony.it/tv?id=2\n";
    assert_eq!(
        valid_urls(input),
        vec!["https://www.johnlewis.com/p5548442", "http://trony.it/tv?id=2"]
    );
    assert_eq!(valid_urls(""), Vec::<String>::new());
}

#[test]
fn site_address_lines() {
    assert_eq!(
        site_address_of_line("site_address = \"https://www.johnlewis.com/\""),
        Some("https://www.johnlewis.com/".to_string())
    );
    assert_eq!(site_address_of_line("sitename = \"x\""), None);
}

#[test]
fn hosts_of_addresses() {
    assert_eq!(host_of("https://www.johnlewis.com/p1"), Ok("www.johnlewis.com".to_string()));
    assert_eq!(host_of("not a url"), Err(CrawlError::Url));
    assert_eq!(host_of("mailto:a@b.c"), Err(CrawlError::NoHost));
}

#[test]
fn hosts_in_config_file() {
    let config = "[shop_detail]\ncountry = \"uk\"\nsite_address = \"https://www.johnlewis.com/\"\n";
    assert_eq!(site_hosts_in_config(config), Ok(vec!["www.johnlewis.com".to_string()]));
    assert_eq!(site_hosts_in_config("site_address = \"nope\""), Err(CrawlError::Url));
}

#[test]
fn crawlable_urls_each_once() {
    let urls: Vec<String> = ["https://www.johnlewis.com/a", "https://x.com/b", "https://www.johnlewis.com/a"]
        .iter()
        .map(|s| s.to_string())
        .collect();
    let sites = vec!["www.johnlewis.com".to_string()];
    assert_eq!(crawlable_urls(&urls, &sites), Ok(vec!["https://www.johnlewis.com/a".to_string()]));
}

#[test]
fn shops_of_hosts() {
    assert_eq!(shop_for_host("www.johnlewis.com"), Some(ShopName::JohnlewisCom));
    assert_eq!(shop_for_host("www.currys.co.uk"), Some(ShopName::CurrysCoUk));
    assert_eq!(shop_for_host("example.org"), None);
}

#[test]
fn multiple_products_argument() {
    let arg = "https://www.johnlewis.com/p1,https://www.trony.it/p2,https://example.com";
    let shops: Vec<Option<ShopName>> = split_char(arg, ',').iter().map(|u| ShopName::from_url(u)).collect();
    assert_eq!(shops, vec![Some(ShopName::JohnlewisCom), Some(ShopName::TronyIt), None]);
}

