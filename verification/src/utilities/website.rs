//! Reading sitemaps, product pages and responses.
use crate::error::CrawlError;
use crate::text::{
    chars_contain, ends_with, join, joined, lemma_contains_transitive, text_contains, text_ends_with,
    to_chars, views,
};
use vstd::prelude::*;

verus! {

broadcast use vstd::string::group_string_axioms;

/// The texts of the `<loc>` elements of a sitemap, in document order, as
/// `select` finds them (`Document::from(..).find(Name("loc"))`, each node's
/// text).
pub uninterp spec fn sitemap_locs(content: Seq<char>) -> Seq<Seq<char>>;

/// `select`: the texts of the `<loc>` nodes of a document. The result is
/// named `sitemap_locs`; HTML parsing is not restated here.
#[verifier::external_body]
fn loc_texts(content: &str) -> (texts: Vec<String>)
    ensures
        views(texts@) == sitemap_locs(content@),
{
    select::document::Document::from(content)
        .find(select::predicate::Name("loc"))
        .map(|n| n.text())
        .collect()
}

/// The texts of the nodes of class `class` in a page, in document order, as
/// `select` finds them (`find(Class(class))`, each node's text).
pub uninterp spec fn class_node_texts(page: Seq<char>, class: Seq<char>) -> Seq<Seq<char>>;

/// `select`: the texts of the nodes of a class. The result is named
/// `class_node_texts`.
#[verifier::external_body]
fn class_texts(page: &str, class: &str) -> (texts: Vec<String>)
    ensures
        views(texts@) == class_node_texts(page@, class@),
{
    select::document::Document::from(page)
        .find(select::predicate::Class(class))
        .map(|n| n.text())
        .collect()
}

/// The texts that contain `p`, in their order.
pub open spec fn texts_containing(ts: Seq<Seq<char>>, p: Seq<char>) -> Seq<Seq<char>>
    decreases ts.len(),
{
    if ts.len() == 0 {
        ts
    } else if text_contains(ts.last(), p) {
        texts_containing(ts.drop_last(), p).push(ts.last())
    } else {
        texts_containing(ts.drop_last(), p)
    }
}

/// Every link kept holds the phrase.
pub proof fn lemma_texts_containing_hold(ts: Seq<Seq<char>>, p: Seq<char>)
    ensures
        forall|i: int|
            0 <= i < texts_containing(ts, p).len() ==> text_contains(
                #[trigger] texts_containing(ts, p)[i],
                p,
            ),
    decreases ts.len(),
{
    if ts.len() > 0 {
        lemma_texts_containing_hold(ts.drop_last(), p);
        let prev = texts_containing(ts.drop_last(), p);
        if text_contains(ts.last(), p) {
            assert forall|i: int| 0 <= i < texts_containing(ts, p).len() implies text_contains(
                #[trigger] texts_containing(ts, p)[i],
                p,
            ) by {
                if i < prev.len() {
                    assert(texts_containing(ts, p)[i] == prev[i]);
                }
            }
        }
    }
}

/// Filtering by a longer phrase keeps a part of what a phrase inside it
/// keeps: when `b` contains `a`, the links that hold `b` are exactly those
/// of the links holding `a` that also hold `b`, in the same order.
pub proof fn lemma_texts_containing_narrower(ts: Seq<Seq<char>>, a: Seq<char>, b: Seq<char>)
    requires
        text_contains(b, a),
    ensures
        texts_containing(ts, b) == texts_containing(texts_containing(ts, a), b),
    decreases ts.len(),
{
    if ts.len() > 0 {
        let init = ts.drop_last();
        let last = ts.last();
        lemma_texts_containing_narrower(init, a, b);
        let ka = texts_containing(init, a);
        if text_contains(last, b) {
            lemma_contains_transitive(last, b, a);
        }
        if text_contains(last, a) {
            assert(ka.push(last).drop_last() =~= ka);
            assert(ka.push(last).last() == last);
        }
    }
}

/// With the empty phrase every link is kept.
pub proof fn lemma_texts_containing_empty(ts: Seq<Seq<char>>)
    ensures
        texts_containing(ts, Seq::<char>::empty()) == ts,
    decreases ts.len(),
{
    if ts.len() > 0 {
        lemma_texts_containing_empty(ts.drop_last());
        assert(text_contains(ts.last(), Seq::<char>::empty())) by {
            assert(ts.last().subrange(0, 0) =~= Seq::<char>::empty());
            assert(crate::text::occurs_at(ts.last(), Seq::<char>::empty(), 0));
        }
        assert(ts.drop_last().push(ts.last()) =~= ts);
    }
}

/// The texts of a page's `<script type="application/ld+json">` nodes (any
/// node whose `type` attribute is `application/ld+json`), in document order,
/// as `select` finds them.
pub uninterp spec fn ld_json_scripts(page: Seq<char>) -> Seq<Seq<char>>;

/// `select`: the texts of the nodes with `type="application/ld+json"`. The
/// result is named `ld_json_scripts`.
#[verifier::external_body]
pub(crate) fn ld_json_texts(page: &str) -> (texts: Vec<String>)
    ensures
        views(texts@) == ld_json_scripts(page@),
{
    select::document::Document::from(page)
        .find(select::predicate::Attr("type", "application/ld+json"))
        .map(|n| n.text())
        .collect()
}

/// The links of a sitemap that contain `find_it`, in their order.
pub fn get_sitemap_links_by_content(content: &str, find_it: &str) -> (links: Vec<String>)
    ensures
        views(links@) == texts_containing(sitemap_locs(content@), find_it@),
{
    let locs = loc_texts(content);
    let ghost ls = sitemap_locs(content@);
    let phrase = to_chars(find_it);
    let mut links: Vec<String> = Vec::new();
    let mut i: usize = 0;
    while i < locs.len()
        invariant
            i <= locs.len(),
            ls == views(locs@),
            phrase@ == find_it@,
            views(links@) == texts_containing(ls.take(i as int), find_it@),
        decreases locs.len() - i,
    {
        assert(ls.take(i + 1).drop_last() =~= ls.take(i as int));
        assert(ls.take(i + 1).last() == locs@[i as int]@);
        let loc = to_chars(locs[i].as_str());
        if chars_contain(&loc, &phrase) {
            let ghost before = links@;
            links.push(locs[i].clone());
            assert(views(links@) =~= views(before).push(locs@[i as int]@));
        }
        i += 1;
    }
    assert(ls.take(locs.len() as int) =~= ls);
    links
}

/// The text of every node of class `search_class` in a product page, run
/// together.
pub fn product_detail(page: &str, search_class: &str) -> (title: String)
    ensures
        title@ == joined(class_node_texts(page@, search_class@), Seq::<char>::empty()),
{
    let texts = class_texts(page, search_class);
    assert(texts@.map_values(|p: String| p@) == views(texts@));
    proof {
        reveal_strlit("");
    }
    assert(""@ =~= Seq::<char>::empty());
    join(&texts, "")
}

/// Whether a response is read as gzip: when the options say so, or when
/// the address ends in `.gz`.
pub fn use_gzip(default_gzip: bool, link: &str) -> (gzip: bool)
    ensures
        gzip == (default_gzip || text_ends_with(link@, ".gz"@)),
{
    default_gzip || ends_with(link, ".gz")
}

/// What `flate2`'s `GzDecoder` read to a string makes of a response body:
/// the UTF-8 text of its first gzip member, or nothing when the body is not
/// gzip or the text is not UTF-8.
pub uninterp spec fn gunzipped(body: Seq<u8>) -> Option<Seq<char>>;

/// `flate2::read::GzDecoder` read to a string. The result is named
/// `gunzipped`; the DEFLATE format is not restated here.
#[verifier::external_body]
fn gunzip_text(body: &[u8]) -> (text: Option<String>)
    ensures
        match text {
            Some(t) => gunzipped(body@) == Some(t@),
            None => gunzipped(body@) is None,
        },
{
    let mut text = String::new();
    let mut decoder = flate2::read::GzDecoder::new(body);
    match std::io::Read::read_to_string(&mut decoder, &mut text) {
        Ok(_) => Some(text),
        Err(_) => None,
    }
}

/// The text of a gzip response body.
pub fn decode_gzip_body(body: &[u8]) -> (text: Result<String, CrawlError>)
    ensures
        match text {
            Ok(t) => gunzipped(body@) == Some(t@),
            Err(e) => e == CrawlError::Gzip && gunzipped(body@) is None,
        },
{
    match gunzip_text(body) {
        Some(t) => Ok(t),
        None => Err(CrawlError::Gzip),
    }
}

/// A product page is worth reading: the shop does not say the product is
/// gone, the page holds the keyword and the address holds the address
/// filter.
pub open spec fn wanted_page(
    page: Seq<char>,
    url: Seq<char>,
    gone_notice: Seq<char>,
    filter_keyword: Seq<char>,
    filter_url: Seq<char>,
) -> bool {
    &&& !text_contains(page, gone_notice)
    &&& text_contains(page, filter_keyword)
    &&& text_contains(url, filter_url)
}

/// Whether a product page is worth reading (see `wanted_page`).
pub fn is_wanted_page(
    page: &str,
    url: &str,
    gone_notice: &str,
    filter_keyword: &str,
    filter_url: &str,
) -> (b: bool)
    ensures
        b == wanted_page(page@, url@, gone_notice@, filter_keyword@, filter_url@),
{
    let page_chars = to_chars(page);
    let gone = to_chars(gone_notice);
    let keyword = to_chars(filter_keyword);
    !chars_contain(&page_chars, &gone) && chars_contain(&page_chars, &keyword) && crate::text::contains(
        url,
        filter_url,
    )
}

/// How many links a crawl visits: `limit`, or all of them when there are
/// fewer.
pub open spec fn crawled_count(links: Seq<String>, limit: usize) -> int {
    if limit < links.len() {
        limit as int
    } else {
        links.len() as int
    }
}

/// The first `limit` links, or all of them when there are fewer (what a
/// crawl visits).
pub fn links_to_crawl(links: &Vec<String>, limit: usize) -> (out: Vec<String>)
    ensures
        views(out@) == views(links@).take(if limit < links@.len() {
            limit as int
        } else {
            links@.len() as int
        }),
{
    let n = if limit < links.len() {
        limit
    } else {
        links.len()
    };
    let mut out: Vec<String> = Vec::new();
    let mut i: usize = 0;
    while i < n
        invariant
            i <= n <= links@.len(),
            views(out@) == views(links@).take(i as int),
        decreases n - i,
    {
        let ghost before = out@;
        out.push(links[i].clone());
        assert(views(out@) =~= views(before).push(links@[i as int]@));
        assert(views(links@).take(i + 1) =~= views(links@).take(i as int).push(links@[i as int]@));
        i += 1;
    }
    out
}

/// What `select` writes for a parsed page with `{:?}`: the `Debug` form of
/// `Document::from(page)`.
pub uninterp spec fn document_outline(page: Seq<char>) -> Seq<char>;

/// `select`: the `Debug` form of the parsed page. The result is named
/// `document_outline`.
#[verifier::external_body]
pub(crate) fn document_debug(page: &str) -> (outline: String)
    ensures
        outline@ == document_outline(page@),
{
    format!("{:?}", select::document::Document::from(page))
}

} // verus!
