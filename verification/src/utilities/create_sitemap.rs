//! Where sitemap links are stored, and how.
use crate::text::{lemma_split_on_append_plain, lemma_split_on_push_separator, split_on, strip_cr, text_lines};
use vstd::prelude::*;

verus! {

broadcast use vstd::string::group_string_axioms;

/// A decimal digit.
pub open spec fn is_digit(c: char) -> bool {
    '0' <= c <= '9'
}

/// The number two decimal digits write.
pub open spec fn two_digits(a: char, b: char) -> int {
    ((a as u32) - 48) * 10 + ((b as u32) - 48)
}

/// A date as `chrono` writes a `NaiveDate`: the year in four digits (or,
/// past 9999, a plus sign and its digits), a dash, the month from `01` to
/// `12`, a dash and the day from `01` to `31`.
pub open spec fn is_written_date(d: Seq<char>) -> bool {
    let n = d.len();
    &&& n >= 10
    &&& d[n - 6] == '-'
    &&& d[n - 3] == '-'
    &&& is_digit(d[n - 5]) && is_digit(d[n - 4]) && is_digit(d[n - 2]) && is_digit(d[n - 1])
    &&& 1 <= two_digits(d[n - 5], d[n - 4]) <= 12
    &&& 1 <= two_digits(d[n - 2], d[n - 1]) <= 31
    &&& {
        ||| n == 10 && is_digit(d[0]) && is_digit(d[1]) && is_digit(d[2]) && is_digit(d[3])
        ||| n >= 12 && d[0] == '+' && forall|i: int| 1 <= i < n - 6 ==> is_digit(#[trigger] d[i])
    }
}

/// Today's date in UTC (`chrono`'s `Utc::now`, its date, written with
/// `Display`). Which day it is depends on the clock, so only its form is
/// stated: `YYYY-MM-DD`, with a signed year past 9999.
#[verifier::external_body]
pub fn now() -> (d: String)
    ensures
        is_written_date(d@),
{
    chrono::Utc::now().date_naive().to_string()
}

/// The directory that holds the sitemap links a shop had on a date:
/// `./sitemaps/<shop>/gz/<date>` for links of gzip sitemaps,
/// `./sitemaps/<shop>/plain/<date>` for the others.
pub fn sitemap_dir(shop_name: &str, gzip_dir: bool, date: &str) -> (path: String)
    ensures
        path@ == "./sitemaps/"@ + shop_name@ + (if gzip_dir {
            "/gz/"@
        } else {
            "/plain/"@
        }) + date@,
{
    let mut path = String::from_str("./sitemaps/");
    path.append(shop_name);
    if gzip_dir {
        path.append("/gz/");
    } else {
        path.append("/plain/");
    }
    path.append(date);
    path
}

/// The file in a sitemap directory that holds the links.
pub fn sitemap_file(dir: &str) -> (path: String)
    ensures
        path@ == dir@ + "/sitemap.txt"@,
{
    let mut path = String::from_str(dir);
    path.append("/sitemap.txt");
    path
}

/// The file a shop's crawl reads its stored links from for a date:
/// `sitemaps/<shop>/plain/<date>/sitemap.txt`.
pub fn stored_sitemap_path(shop_name: &str, date: &str) -> (path: String)
    ensures
        path@ == "sitemaps/"@ + shop_name@ + "/plain/"@ + date@ + "/sitemap.txt"@,
{
    let mut path = String::from_str("sitemaps/");
    path.append(shop_name);
    path.append("/plain/");
    path.append(date);
    path.append("/sitemap.txt");
    path
}

/// The links, one per line, each line ended by a newline.
pub open spec fn sitemap_lines(links: Seq<Seq<char>>) -> Seq<char>
    decreases links.len(),
{
    if links.len() == 0 {
        Seq::<char>::empty()
    } else {
        sitemap_lines(links.drop_last()) + links.last() + "\n"@
    }
}

/// What the sitemap file holds after the links are written to it.
pub fn sitemap_file_text(links: &Vec<String>) -> (text: String)
    ensures
        text@ == sitemap_lines(crate::text::views(links@)),
{
    let ghost vs = crate::text::views(links@);
    let mut text = String::new();
    let mut i: usize = 0;
    while i < links.len()
        invariant
            i <= links.len(),
            vs == crate::text::views(links@),
            text@ == sitemap_lines(vs.take(i as int)),
        decreases links.len() - i,
    {
        assert(vs.take(i + 1).drop_last() =~= vs.take(i as int));
        text.append(links[i].as_str());
        text.append("\n");
        i += 1;
    }
    assert(vs.take(links.len() as int) =~= vs);
    text
}

/// Writing two lists of links one after the other leaves the file as
/// writing them together, in that order, would.
pub proof fn lemma_sitemap_lines_concat(a: Seq<Seq<char>>, b: Seq<Seq<char>>)
    ensures
        sitemap_lines(a + b) == sitemap_lines(a) + sitemap_lines(b),
    decreases b.len(),
{
    if b.len() == 0 {
        assert(a + b =~= a);
        assert(sitemap_lines(a) + sitemap_lines(b) =~= sitemap_lines(a));
    } else {
        lemma_sitemap_lines_concat(a, b.drop_last());
        assert((a + b).drop_last() =~= a + b.drop_last());
        assert((a + b).last() == b.last());
        assert(sitemap_lines(a + b) =~= sitemap_lines(a) + sitemap_lines(b));
    }
}

proof fn lemma_split_sitemap_lines(links: Seq<Seq<char>>)
    requires
        forall|i: int| 0 <= i < links.len() ==> !(#[trigger] links[i]).contains('\n'),
    ensures
        split_on(sitemap_lines(links), '\n') == links.push(Seq::<char>::empty()),
    decreases links.len(),
{
    reveal_strlit("\n");
    if links.len() == 0 {
        assert(split_on(Seq::<char>::empty(), '\n') =~= seq![Seq::<char>::empty()]);
        assert(links.push(Seq::<char>::empty()) =~= seq![Seq::<char>::empty()]);
    } else {
        let init = links.drop_last();
        assert forall|i: int| 0 <= i < init.len() implies !(#[trigger] init[i]).contains('\n') by {
            assert(init[i] == links[i]);
        }
        lemma_split_sitemap_lines(init);
        let before = sitemap_lines(init);
        assert(!links.last().contains('\n')) by {
            assert(links[links.len() - 1] == links.last());
        }
        lemma_split_on_append_plain(before, links.last(), '\n');
        assert(sitemap_lines(links) =~= (before + links.last()).push('\n'));
        lemma_split_on_push_separator(before + links.last(), '\n');
        assert(init.push(Seq::<char>::empty()).update(init.len() as int, Seq::<char>::empty()
            + links.last()) =~= links);
    }
}

/// Reading the lines of a stored sitemap file gives back the links that were
/// written to it, when no link holds a line break or ends in a carriage
/// return.
pub proof fn lemma_stored_links_read_back(links: Seq<Seq<char>>)
    requires
        forall|i: int| 0 <= i < links.len() ==> !(#[trigger] links[i]).contains('\n'),
        forall|i: int|
            0 <= i < links.len() ==> (#[trigger] links[i]).len() == 0 || links[i].last() != '\r',
    ensures
        text_lines(sitemap_lines(links)) == links,
{
    reveal_strlit("\n");
    lemma_split_sitemap_lines(links);
    let s = sitemap_lines(links);
    if links.len() == 0 {
        assert(s =~= Seq::<char>::empty());
    } else {
        assert(s.len() > 0) by {
            assert(s == sitemap_lines(links.drop_last()) + links.last() + "\n"@);
        }
        let pieces = split_on(s, '\n');
        assert(pieces.last() =~= Seq::<char>::empty());
        assert(text_lines(s) =~= links) by {
            assert forall|i: int| 0 <= i < links.len() implies strip_cr(pieces[i]) == links[i] by {
                assert(pieces[i] == links[i]);
            }
        }
    }
}

} // verus!
