//! What a run of the crawler does, given its command-line switches.
use vstd::prelude::*;

verus! {

/// What is done for a shop named on the command line.
#[derive(Clone, Copy, Debug, PartialEq, Eq, Structural)]
pub enum ShopAction {
    /// Crawl the addresses kept in storage, then end the run.
    CrawlStoredUrls,
    /// Store the shop's sitemap links, then end the run.
    SaveSitemap,
    /// Crawl the shop if its robots.txt allows it, then go on.
    Crawl,
}

/// What is done once the named shops are dealt with.
#[derive(Clone, Copy, Debug, PartialEq, Eq, Structural)]
pub enum FollowUp {
    /// Print the names of all shops.
    ListShops,
    /// Crawl each address of the comma-separated list.
    CrawlListedProducts,
    /// Crawl the addresses piped in.
    CrawlPipedUrls,
    /// Nothing more.
    Done,
}

/// The action for each named shop: crawling stored addresses comes first,
/// then storing the sitemap, then crawling.
pub fn shop_action(crawl_in_storage_urls: bool, save_sitemap: bool) -> (a: ShopAction)
    ensures
        a == (if crawl_in_storage_urls {
            ShopAction::CrawlStoredUrls
        } else if save_sitemap {
            ShopAction::SaveSitemap
        } else {
            ShopAction::Crawl
        }),
{
    if crawl_in_storage_urls {
        ShopAction::CrawlStoredUrls
    } else if save_sitemap {
        ShopAction::SaveSitemap
    } else {
        ShopAction::Crawl
    }
}

/// Whether the run ends after the action for a shop.
pub fn ends_run(a: ShopAction) -> (b: bool)
    ensures
        b == (a != ShopAction::Crawl),
{
    match a {
        ShopAction::Crawl => false,
        _ => true,
    }
}

/// The follow-up: listing the shops comes first, then the list of products,
/// then piped addresses.
pub fn follow_up(list: bool, has_product_list: bool, pipe: bool) -> (f: FollowUp)
    ensures
        f == (if list {
            FollowUp::ListShops
        } else if has_product_list {
            FollowUp::CrawlListedProducts
        } else if pipe {
            FollowUp::CrawlPipedUrls
        } else {
            FollowUp::Done
        }),
{
    if list {
        FollowUp::ListShops
    } else if has_product_list {
        FollowUp::CrawlListedProducts
    } else if pipe {
        FollowUp::CrawlPipedUrls
    } else {
        FollowUp::Done
    }
}

} // verus!
