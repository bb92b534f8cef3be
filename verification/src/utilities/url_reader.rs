//! Reading product addresses piped to the crawler.
use crate::error::CrawlError;
use crate::shops::{shop_from_text, ShopName};
use crate::text::{
    contains, equals, lines, remove_chars, replace, replaced, snake_case, text_contains, text_lines,
    to_snake_case, views, without_chars,
};
use vstd::prelude::*;

verus! {

broadcast use vstd::string::group_string_axioms;

/// The leftmost match in `line` of the crawler's address pattern
/// (`https?://(www\.)?[-a-zA-Z0-9@:%._\+~#=]{1,256}\.[a-zA-Z0-9()]{1,6}\b([-a-zA-Z0-9()@:%_\+.~#?&//=]*)`),
/// as `regex` finds it.
pub uninterp spec fn url_match(line: Seq<char>) -> Option<Seq<char>>;

/// `regex`: the whole of the first match of the address pattern. The result
/// is named `url_match`; the pattern's language is not restated here.
#[verifier::external_body]
fn find_url(line: &str) -> (m: Option<String>)
    ensures
        match m {
            Some(u) => url_match(line@) == Some(u@),
            None => url_match(line@) is None,
        },
{
    let pattern = regex::Regex::new(
        "https?://(www\\.)?[-a-zA-Z0-9@:%._\\+~#=]{1,256}\\.[a-zA-Z0-9()]{1,6}\\b([-a-zA-Z0-9()@:%_\\+.~#?&//=]*)",
    ).unwrap();
    pattern.captures(line).map(|c| c.get(0).unwrap().as_str().to_string())
}

/// What the `url` crate makes of an address: nothing when it does not parse,
/// else its host, if it has one.
pub uninterp spec fn parsed_host(url: Seq<char>) -> Option<Option<Seq<char>>>;

/// `url::Url::parse` and `host_str`. The result is named `parsed_host`; the
/// URL standard is not restated here.
#[verifier::external_body]
fn parse_host(url: &str) -> (h: Option<Option<String>>)
    ensures
        match h {
            Some(Some(t)) => parsed_host(url@) == Some(Some(t@)),
            Some(None) => parsed_host(url@) == Some(None::<Seq<char>>),
            None => parsed_host(url@) is None,
        },
{
    match url::Url::parse(url) {
        Ok(u) => Some(u.host_str().map(|s| s.to_string())),
        Err(_) => None,
    }
}

/// The addresses found in the lines, one at most per line, in order.
pub open spec fn urls_in_lines(ls: Seq<Seq<char>>) -> Seq<Seq<char>>
    decreases ls.len(),
{
    if ls.len() == 0 {
        Seq::<Seq<char>>::empty()
    } else {
        let prev = urls_in_lines(ls.drop_last());
        match url_match(ls.last()) {
            Some(u) => prev.push(u),
            None => prev,
        }
    }
}

/// The addresses in a text that is read line by line: the first match of
/// the address pattern in each line that has one.
pub fn valid_urls(buffer: &str) -> (urls: Vec<String>)
    ensures
        views(urls@) == urls_in_lines(text_lines(buffer@)),
{
    let ls = lines(buffer);
    let ghost tl = text_lines(buffer@);
    let mut urls: Vec<String> = Vec::new();
    let mut i: usize = 0;
    while i < ls.len()
        invariant
            i <= ls@.len() == tl.len(),
            forall|k: int| 0 <= k < ls@.len() ==> #[trigger] ls@[k]@ == tl[k],
            views(urls@) == urls_in_lines(tl.take(i as int)),
        decreases ls.len() - i,
    {
        assert(tl.take(i + 1).drop_last() =~= tl.take(i as int));
        assert(tl.take(i + 1).last() == ls@[i as int]@);
        match find_url(ls[i].as_str()) {
            Some(u) => {
                let ghost before = urls@;
                let ghost found = u@;
                urls.push(u);
                assert(views(urls@) =~= views(before).push(found));
            },
            None => {},
        }
        i += 1;
    }
    assert(tl.take(ls.len() as int) =~= tl);
    urls
}

/// The address a configuration line gives: the line without its
/// `site_address =` and without double quotes and spaces.
pub open spec fn site_address_text(line: Seq<char>) -> Seq<char> {
    without_chars(replaced(line, "site_address ="@, Seq::<char>::empty()), seq!['"', ' '])
}

/// The site address a configuration line gives, when it mentions
/// `site_address`.
pub fn site_address_of_line(line: &str) -> (address: Option<String>)
    ensures
        match address {
            Some(a) => text_contains(line@, "site_address"@) && a@ == site_address_text(line@),
            None => !text_contains(line@, "site_address"@),
        },
{
    if contains(line, "site_address") {
        proof {
            reveal_strlit("site_address =");
            reveal_strlit("");
        }
        let stripped = replace(line, "site_address =", "");
        assert(""@ =~= Seq::<char>::empty());
        let drop = ['"', ' '];
        assert(drop@ =~= seq!['"', ' ']);
        Some(remove_chars(stripped.as_str(), &drop))
    } else {
        None
    }
}

/// The host of an address: an error when it is not a URL, or a URL without
/// a host.
pub open spec fn host_result(url: Seq<char>) -> Result<Seq<char>, CrawlError> {
    match parsed_host(url) {
        None => Err(CrawlError::Url),
        Some(None) => Err(CrawlError::NoHost),
        Some(Some(h)) => Ok(h),
    }
}

/// The host of an address.
pub fn host_of(url: &str) -> (host: Result<String, CrawlError>)
    ensures
        match host {
            Ok(h) => host_result(url@) == Ok::<Seq<char>, CrawlError>(h@),
            Err(e) => host_result(url@) == Err::<Seq<char>, CrawlError>(e),
        },
{
    match parse_host(url) {
        Some(Some(h)) => Ok(h),
        Some(None) => Err(CrawlError::NoHost),
        None => Err(CrawlError::Url),
    }
}

/// The hosts of the site addresses in the lines of a configuration file, in
/// order; the first address without a host is an error.
pub open spec fn config_hosts(ls: Seq<Seq<char>>) -> Result<Seq<Seq<char>>, CrawlError>
    decreases ls.len(),
{
    if ls.len() == 0 {
        Ok(Seq::<Seq<char>>::empty())
    } else {
        match config_hosts(ls.drop_last()) {
            Err(e) => Err(e),
            Ok(acc) => if text_contains(ls.last(), "site_address"@) {
                match host_result(site_address_text(ls.last())) {
                    Err(e) => Err(e),
                    Ok(h) => Ok(acc.push(h)),
                }
            } else {
                Ok(acc)
            },
        }
    }
}

proof fn lemma_config_hosts_error_stays(ls: Seq<Seq<char>>, k: int, e: CrawlError)
    requires
        0 <= k <= ls.len(),
        config_hosts(ls.take(k)) == Err::<Seq<Seq<char>>, CrawlError>(e),
    ensures
        config_hosts(ls) == Err::<Seq<Seq<char>>, CrawlError>(e),
    decreases ls.len() - k,
{
    if k < ls.len() {
        assert(ls.take(k + 1).drop_last() =~= ls.take(k));
        lemma_config_hosts_error_stays(ls, k + 1, e);
    } else {
        assert(ls.take(k) =~= ls);
    }
}

/// The hosts of the site addresses a configuration file gives.
pub fn site_hosts_in_config(content: &str) -> (hosts: Result<Vec<String>, CrawlError>)
    ensures
        match hosts {
            Ok(hs) => config_hosts(text_lines(content@)) == Ok::<Seq<Seq<char>>, CrawlError>(
                views(hs@),
            ),
            Err(e) => config_hosts(text_lines(content@)) == Err::<Seq<Seq<char>>, CrawlError>(e),
        },
{
    let ls = lines(content);
    let ghost tl = text_lines(content@);
    let mut hosts: Vec<String> = Vec::new();
    let mut i: usize = 0;
    assert(tl.take(0) =~= Seq::<Seq<char>>::empty());
    assert(views(hosts@) =~= Seq::<Seq<char>>::empty());
    while i < ls.len()
        invariant
            i <= ls@.len() == tl.len(),
            forall|k: int| 0 <= k < ls@.len() ==> #[trigger] ls@[k]@ == tl[k],
            tl == text_lines(content@),
            config_hosts(tl.take(i as int)) == Ok::<Seq<Seq<char>>, CrawlError>(views(hosts@)),
        decreases ls.len() - i,
    {
        assert(tl.take(i + 1).drop_last() =~= tl.take(i as int));
        assert(tl.take(i + 1).last() == ls@[i as int]@);
        match site_address_of_line(ls[i].as_str()) {
            Some(address) => {
                match host_of(address.as_str()) {
                    Ok(h) => {
                        let ghost before = hosts@;
                        hosts.push(h);
                        assert(views(hosts@) =~= views(before).push(h@));
                    },
                    Err(e) => {
                        proof {
                            let line = tl.take(i + 1).last();
                            assert(text_contains(line, "site_address"@));
                            assert(host_result(site_address_text(line)) == Err::<
                                Seq<char>,
                                CrawlError,
                            >(e));
                            assert(config_hosts(tl.take(i + 1)) == Err::<Seq<Seq<char>>, CrawlError>(
                                e,
                            ));
                            lemma_config_hosts_error_stays(tl, i + 1, e);
                        }
                        return Err(e);
                    },
                }
            },
            None => {},
        }
        i += 1;
    }
    assert(tl.take(ls.len() as int) =~= tl);
    Ok(hosts)
}

/// The addresses, in order and each once, whose host is one of the sites;
/// the first address without a host is an error.
pub open spec fn crawlable_from(urls: Seq<Seq<char>>, sites: Seq<Seq<char>>) -> Result<
    Seq<Seq<char>>,
    CrawlError,
>
    decreases urls.len(),
{
    if urls.len() == 0 {
        Ok(Seq::<Seq<char>>::empty())
    } else {
        match crawlable_from(urls.drop_last(), sites) {
            Err(e) => Err(e),
            Ok(acc) => match host_result(urls.last()) {
                Err(e) => Err(e),
                Ok(h) => if sites.contains(h) && !acc.contains(urls.last()) {
                    Ok(acc.push(urls.last()))
                } else {
                    Ok(acc)
                },
            },
        }
    }
}

proof fn lemma_crawlable_error_stays(
    urls: Seq<Seq<char>>,
    sites: Seq<Seq<char>>,
    k: int,
    e: CrawlError,
)
    requires
        0 <= k <= urls.len(),
        crawlable_from(urls.take(k), sites) == Err::<Seq<Seq<char>>, CrawlError>(e),
    ensures
        crawlable_from(urls, sites) == Err::<Seq<Seq<char>>, CrawlError>(e),
    decreases urls.len() - k,
{
    if k < urls.len() {
        assert(urls.take(k + 1).drop_last() =~= urls.take(k));
        lemma_crawlable_error_stays(urls, sites, k + 1, e);
    } else {
        assert(urls.take(k) =~= urls);
    }
}

/// The host of the address is one of the sites.
pub open spec fn host_in_sites(url: Seq<char>, sites: Seq<Seq<char>>) -> bool {
    match host_result(url) {
        Ok(h) => sites.contains(h),
        Err(_) => false,
    }
}

/// Every piped address whose host is one of the sites is crawled: it is
/// among the crawlable addresses.
pub proof fn lemma_crawlable_complete(urls: Seq<Seq<char>>, sites: Seq<Seq<char>>)
    ensures
        crawlable_from(urls, sites) matches Ok(cs) ==> forall|i: int|
            0 <= i < urls.len() && host_in_sites(#[trigger] urls[i], sites) ==> cs.contains(urls[i]),
    decreases urls.len(),
{
    if urls.len() > 0 {
        let init = urls.drop_last();
        lemma_crawlable_complete(init, sites);
        if let Ok(acc) = crawlable_from(init, sites) {
            if let Ok(h) = host_result(urls.last()) {
                let cs = if sites.contains(h) && !acc.contains(urls.last()) {
                    acc.push(urls.last())
                } else {
                    acc
                };
                assert(crawlable_from(urls, sites) == Ok::<Seq<Seq<char>>, CrawlError>(cs));
                assert forall|i: int|
                    0 <= i < urls.len() && host_in_sites(#[trigger] urls[i], sites) implies cs.contains(
                    urls[i],
                ) by {
                    if i < init.len() {
                        assert(init[i] == urls[i]);
                        assert(host_in_sites(init[i], sites));
                        let k = choose|k: int| 0 <= k < acc.len() && acc[k] == urls[i];
                        if cs != acc {
                            assert(cs[k] == acc[k]);
                        }
                    } else {
                        assert(urls[i] == urls.last());
                        if sites.contains(h) && !acc.contains(urls.last()) {
                            assert(cs[acc.len() as int] == urls.last());
                        }
                    }
                }
            }
        }
    }
}

/// The crawlable addresses are piped addresses, each once, whose host is
/// one of the sites.
pub proof fn lemma_crawlable_sound(urls: Seq<Seq<char>>, sites: Seq<Seq<char>>)
    ensures
        crawlable_from(urls, sites) matches Ok(cs) ==> {
            &&& cs.no_duplicates()
            &&& forall|i: int|
                0 <= i < cs.len() ==> urls.contains(#[trigger] cs[i]) && host_in_sites(cs[i], sites)
        },
    decreases urls.len(),
{
    if urls.len() > 0 {
        lemma_crawlable_sound(urls.drop_last(), sites);
        if let Ok(acc) = crawlable_from(urls.drop_last(), sites) {
            if let Ok(h) = host_result(urls.last()) {
                if sites.contains(h) && !acc.contains(urls.last()) {
                    let cs = acc.push(urls.last());
                    assert forall|i: int|
                        0 <= i < cs.len() implies urls.contains(#[trigger] cs[i]) && host_in_sites(
                        cs[i],
                        sites,
                    ) by {
                        if i < acc.len() {
                            assert(cs[i] == acc[i]);
                            let k = choose|k: int| 0 <= k < urls.drop_last().len() && urls.drop_last()[k] == acc[i];
                            assert(urls[k] == acc[i]);
                        } else {
                            assert(urls[urls.len() - 1] == urls.last());
                        }
                    }
                    assert(cs.no_duplicates()) by {
                        assert forall|i: int, j: int|
                            0 <= i < cs.len() && 0 <= j < cs.len() && i != j implies cs[i] != cs[j] by {
                            if i == acc.len() as int {
                                assert(cs[j] == acc[j]);
                            } else if j == acc.len() as int {
                                assert(cs[i] == acc[i]);
                            } else {
                                assert(cs[i] == acc[i] && cs[j] == acc[j]);
                            }
                        }
                    }
                } else {
                    assert forall|i: int| 0 <= i < acc.len() implies urls.contains(#[trigger] acc[i]) by {
                        let k = choose|k: int| 0 <= k < urls.drop_last().len() && urls.drop_last()[k] == acc[i];
                        assert(urls[k] == acc[i]);
                    }
                }
            }
        }
    }
}

/// Whether `v` holds a string with the characters of `s`.
fn holds_text(v: &Vec<String>, s: &str) -> (b: bool)
    ensures
        b == views(v@).contains(s@),
{
    let mut i: usize = 0;
    while i < v.len()
        invariant
            i <= v@.len(),
            forall|k: int| 0 <= k < i ==> (#[trigger] v@[k])@ != s@,
        decreases v.len() - i,
    {
        if equals(v[i].as_str(), s) {
            assert(views(v@)[i as int] == s@);
            return true;
        }
        i += 1;
    }
    assert forall|k: int| 0 <= k < views(v@).len() implies views(v@)[k] != s@ by {
        assert(views(v@)[k] == v@[k]@);
    }
    false
}

/// The piped addresses that belong to one of the configured sites, each
/// once.
pub fn crawlable_urls(urls: &Vec<String>, sites: &Vec<String>) -> (r: Result<Vec<String>, CrawlError>)
    ensures
        match r {
            Ok(cs) => crawlable_from(views(urls@), views(sites@)) == Ok::<
                Seq<Seq<char>>,
                CrawlError,
            >(views(cs@)),
            Err(e) => crawlable_from(views(urls@), views(sites@)) == Err::<
                Seq<Seq<char>>,
                CrawlError,
            >(e),
        },
{
    let ghost us = views(urls@);
    let mut out: Vec<String> = Vec::new();
    let mut i: usize = 0;
    assert(us.take(0) =~= Seq::<Seq<char>>::empty());
    assert(views(out@) =~= Seq::<Seq<char>>::empty());
    while i < urls.len()
        invariant
            i <= urls@.len(),
            us == views(urls@),
            crawlable_from(us.take(i as int), views(sites@)) == Ok::<Seq<Seq<char>>, CrawlError>(
                views(out@),
            ),
        decreases urls.len() - i,
    {
        assert(us.take(i + 1).drop_last() =~= us.take(i as int));
        assert(us.take(i + 1).last() == urls@[i as int]@);
        let host = match host_of(urls[i].as_str()) {
            Ok(h) => h,
            Err(e) => {
                proof {
                    lemma_crawlable_error_stays(us, views(sites@), i + 1, e);
                }
                return Err(e);
            },
        };
        if holds_text(sites, host.as_str()) && !holds_text(&out, urls[i].as_str()) {
            let ghost before = out@;
            out.push(urls[i].clone());
            assert(views(out@) =~= views(before).push(urls@[i as int]@));
        }
        i += 1;
    }
    assert(us.take(urls.len() as int) =~= us);
    Ok(out)
}

/// The shop a host belongs to: the host without `www.`, in snake case, read
/// as a shop's name.
pub open spec fn shop_of_host(host: Seq<char>) -> Option<ShopName> {
    shop_from_text(snake_case(replaced(host, "www."@, Seq::<char>::empty())))
}

/// The shop a host belongs to.
pub fn shop_for_host(host: &str) -> (shop: Option<ShopName>)
    ensures
        shop == shop_of_host(host@),
{
    proof {
        reveal_strlit("www.");
        reveal_strlit("");
    }
    let bare = replace(host, "www.", "");
    assert(""@ =~= Seq::<char>::empty());
    let name = to_snake_case(bare.as_str());
    ShopName::from_str(name.as_str())
}

} // verus!
