use pricy::models::products::{ClientBuilderOptions, Currency, Product, ShopDetail};
use pricy::models::utils::{threads, timeout, user_agent};
use pricy::utilities::builder::proxy_to_use;
use pricy::utilities::conf_loader::config_path;
use pricy::utilities::create_sitemap::{
    now, sitemap_dir, sitemap_file, sitemap_file_text, stored_sitemap_path,
};
use pricy::text::lines;
use pricy::run::{ends_run, follow_up, shop_action, FollowUp, ShopAction};
use pricy::DynamicArgs;

#[test]
fn dynamic_args_defaults() {
    let a = DynamicArgs::from_options(None, None, None);
    assert_eq!(a.limit_products, 1);
    assert_eq!(a.filter_keyword, "");
    assert_eq!(a.filter_url, "");
    let b = DynamicArgs::from_options(Some(10), Some("original".into()), Some("/p54".into()));
    assert_eq!(b.limit_products, 10);
    assert_eq!(b.filter_keyword, "original");
    assert_eq!(b.filter_url, "/p54");
}

#[test]
fn currency_defaults_to_dollar() {
    assert_eq!(Currency::default(), Currency::Dollar);
}

#[test]
fn default_product_is_blank_and_dated_today() {
    let p = Product::default();
    assert_eq!(p.name, "");
    assert_eq!(p.price, "0");
    assert_eq!(p.currency, Currency::Dollar);
    assert!(p.enable);
    assert_eq!(p.discount, 0);
    assert!(p.tags.is_empty());
    assert_eq!(p.updated_at, now());
    assert_eq!(p.updated_at.len(), 10);
    assert!(!p.is_named());
}

#[test]
fn today_is_written_as_a_date() {
    let d: Vec<char> = now().chars().collect();
    assert_eq!(d.len(), 10);
    assert_eq!(d[4], '-');
    assert_eq!(d[7], '-');
    for i in [0, 1, 2, 3, 5, 6, 8, 9] {
        assert!(d[i].is_ascii_digit());
    }
    let month = (d[5] as u32 - 48) * 10 + (d[6] as u32 - 48);
    let day = (d[8] as u32 - 48) * 10 + (d[9] as u32 - 48);
    assert!((1..=12).contains(&month));
    assert!((1..=31).contains(&day));
}

#[test]
fn shop_detail_default_is_empty() {
    let d = ShopDetail::default();
    assert_eq!(d.country, "");
    assert_eq!(d.sitemap_address, "");
}

#[test]
fn crawler_defaults() {
    assert_eq!(user_agent(), "Pricy/0.1.0");
    assert_eq!(threads(), 1);
    assert_eq!(timeout(), 40);
}

#[test]
fn client_options_defaults() {
    let o = ClientBuilderOptions::from_args(None, None, None, None);
    assert_eq!(o.timeout, 10);
    assert!(!o.is_gzip);
    assert_eq!(o.user_agent, "Pricy/0.1.0");
    assert!(o.headers.is_empty());
    assert_eq!(o.proxy, None);
    let o = ClientBuilderOptions::from_args(
        Some(3),
        Some(true),
        Some("MyStrong Bot/1.0.0".into()),
        Some("http://localhost:3001".into()),
    );
    assert_eq!(o.timeout, 3);
    assert!(o.is_gzip);
    assert_eq!(o.user_agent, "MyStrong Bot/1.0.0");
    assert_eq!(o.proxy.as_deref(), Some("http://localhost:3001"));
}

#[test]
fn client_with_good_proxy() {
    let o = ClientBuilderOptions::from_args(None, None, None, Some("http://127.0.0.1:8080".into()));
    assert_eq!(proxy_to_use(&o), Some("http://127.0.0.1:8080".to_string()));
}

#[test]
fn empty_proxy_is_no_proxy() {
    let o = ClientBuilderOptions::from_args(None, None, None, Some(String::new()));
    assert_eq!(proxy_to_use(&o), None);
    let o = ClientBuilderOptions::from_args(None, None, None, None);
    assert_eq!(proxy_to_use(&o), None);
}

#[test]
fn config_file_of_shop() {
    assert_eq!(config_path("johnlewis_com"), "/config/johnlewis_com.toml");
    assert_eq!(config_path("JohnlewisCom"), "/config/johnlewis_com.toml");
    assert_eq!(config_path("LaptopsdirectCoUk"), "/config/laptopsdirect_co_uk.toml");
}

#[test]
fn sitemap_storage_paths() {
    assert_eq!(sitemap_dir("jdsports_it", false, "2024-05-01"), "./sitemaps/jdsports_it/plain/2024-05-01");
    assert_eq!(sitemap_dir("jdsports_it", true, "2024-05-01"), "./sitemaps/jdsports_it/gz/2024-05-01");
    assert_eq!(sitemap_file("./d"), "./d/sitemap.txt");
    assert_eq!(
        stored_sitemap_path("trony_it", "2024-05-01"),
        "sitemaps/trony_it/plain/2024-05-01/sitemap.txt"
    );
}

#[test]
fn stored_links_read_back() {
    let links = vec!["https://a/1".to_string(), "https://a/2".to_string()];
    let text = sitemap_file_text(&links);
    assert_eq!(text, "https://a/1\nhttps://a/2\n");
    assert_eq!(lines(&text), links);
    assert_eq!(sitemap_file_text(&vec![]), "");
}

#[test]
fn stored_links_written_twice_as_once() {
    let a = vec!["https://a/1".to_string()];
    let b = vec!["https://a/2".to_string(), "https://a/3".to_string()];
    let both: Vec<String> = [a.clone(), b.clone()].concat();
    assert_eq!(
        format!("{}{}", sitemap_file_text(&a), sitemap_file_text(&b)),
        sitemap_file_text(&both)
    );
}

#[test]
fn joined_links_read_back() {
    let links = vec!["https://a/1".to_string(), "https://a/2".to_string()];
    assert_eq!(lines(&pricy::text::join(&links, "\n")), links);
}

#[test]
fn run_actions() {
    assert_eq!(shop_action(true, true), ShopAction::CrawlStoredUrls);
    assert_eq!(shop_action(false, true), ShopAction::SaveSitemap);
    assert_eq!(shop_action(false, false), ShopAction::Crawl);
    assert!(ends_run(ShopAction::SaveSitemap));
    assert!(!ends_run(ShopAction::Crawl));
    assert_eq!(follow_up(true, true, true), FollowUp::ListShops);
    assert_eq!(follow_up(false, true, true), FollowUp::CrawlListedProducts);
    assert_eq!(follow_up(false, false, true), FollowUp::CrawlPipedUrls);
    assert_eq!(follow_up(false, false, false), FollowUp::Done);
}
