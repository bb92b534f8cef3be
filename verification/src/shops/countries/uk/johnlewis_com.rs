//! John Lewis (johnlewis.com).
use crate::error::CrawlError;
use crate::models::products::{keeps_defaults, listed, Currency, Product};
use crate::models::utils::{title_case, title_cased, NAME};
use crate::text::{remove_chars, to_chars, without_chars};
use crate::utilities::json::{
    has_member, index_key, index_keys, is_json, is_object, json_member, json_object, json_valid,
    member_or_null, nested_or_null,
};
use crate::utilities::website::{crawled_count, is_wanted_page, ld_json_scripts, ld_json_texts, wanted_page};
use crate::DynamicArgs;
use vstd::prelude::*;
use vstd::utf8::{
    char_is_scalar, char_u32_cast, encode_scalar, encode_utf8, encode_utf8_valid_utf8, is_ascii_chars,
    is_ascii_chars_encode_utf8, is_char_boundary, is_char_boundary_iff_not_is_continuation_byte,
    is_char_boundary_start_end_of_seq,
};

verus! {

broadcast use vstd::string::group_string_axioms;

/// The John Lewis shop.
#[derive(Debug)]
pub struct JohnlewisCom;

/// What a John Lewis page says of a product that is gone.
pub open spec fn johnlewis_gone_notice() -> Seq<char> {
    "No longer available online"@
}

/// A JSON value written as text, with its double quotes taken out.
pub open spec fn unquoted(t: Seq<char>) -> Seq<char> {
    without_chars(t, seq!['"'])
}

/// The price John Lewis gives in the offers of its document: the lowest
/// price when there is one, else the price, without quotes.
pub open spec fn johnlewis_price(doc: Seq<char>) -> Seq<char> {
    if json_member(member_or_null(doc, "offers"@), "lowPrice"@) is Some {
        unquoted(nested_or_null(doc, "offers"@, "lowPrice"@))
    } else {
        unquoted(nested_or_null(doc, "offers"@, "price"@))
    }
}

/// The product a John Lewis page describes in its JSON document `doc`.
pub open spec fn johnlewis_listing(p: Product, url: Seq<char>, doc: Seq<char>) -> bool {
    &&& keeps_defaults(p)
    &&& p.link@ == url
    &&& p.image@ == unquoted(member_or_null(doc, "image"@)) + "?.jpg"@
    &&& p.currency == Currency::Pound
    &&& p.name@ == unquoted(member_or_null(doc, "name"@))
    &&& p.price@ == johnlewis_price(doc)
    &&& p.description@ == Seq::<char>::empty()
    &&& p.color@ == Seq::<char>::empty()
    &&& p.brand@ == Seq::<char>::empty()
}

/// What reading the John Lewis product page `page` at `url` gives. A page
/// that is not wanted, or has no JSON document, gives a blank product; the
/// first JSON document gives the name, image, price (in pounds) and address.
/// It is an error when that document is not JSON, or its offers are not a
/// JSON object.
pub open spec fn johnlewis_page(
    r: Result<Product, CrawlError>,
    url: Seq<char>,
    page: Seq<char>,
    args: DynamicArgs,
) -> bool {
    let scripts = ld_json_scripts(page);
    let doc = scripts[0];
    if !wanted_page(page, url, johnlewis_gone_notice(), args.filter_keyword@, args.filter_url@)
        || scripts.len() == 0 {
        r matches Ok(p) && crate::models::products::is_blank_product(p)
    } else if !json_valid(doc) {
        r == Err::<Product, CrawlError>(CrawlError::Json)
    } else if !json_object(member_or_null(doc, "offers"@)) {
        r == Err::<Product, CrawlError>(CrawlError::MissingField)
    } else {
        r matches Ok(p) && johnlewis_listing(p, url, doc)
    }
}

/// The John Lewis page `page` at `url` gives a product, not an error.
pub open spec fn johnlewis_page_reads(url: Seq<char>, page: Seq<char>, args: DynamicArgs) -> bool {
    exists|p: Product| johnlewis_page(Ok(p), url, page, args)
}

/// What `robotstxt_with_cache` decides: `agent` may fetch `url` under the
/// rules of `robots_txt`.
pub uninterp spec fn robots_allow(robots_txt: Seq<char>, agent: Seq<char>, url: Seq<char>) -> bool;

/// How many bytes a character takes in UTF-8 (`char::len_utf8`).
pub open spec fn utf8_len(c: char) -> int {
    let v = c as u32;
    if v <= 0x7f {
        1
    } else if v <= 0x7ff {
        2
    } else if v <= 0xffff {
        3
    } else {
        4
    }
}

/// A line ending for the robots.txt parser.
pub open spec fn is_line_end(c: char) -> bool {
    c == '\n' || c == '\r'
}

/// The UTF-8 length of the first `i` characters of `s`.
pub open spec fn prefix_bytes(s: Seq<char>, i: int) -> int
    decreases i,
{
    if i <= 0 || i > s.len() {
        0
    } else {
        prefix_bytes(s, i - 1) + utf8_len(s[i - 1])
    }
}

/// The characters the robots.txt parser takes, in turn, for a byte order
/// mark: it compares code points with the bytes `EF BB BF`.
pub open spec fn robots_bom_char(k: int) -> char {
    if k == 0 {
        '\u{ef}'
    } else if k == 1 {
        '\u{bb}'
    } else {
        '\u{bf}'
    }
}

/// The longest a line gets, in bytes, before the parser skips the rest of
/// it (`2083 * 8 - 1`).
pub open spec fn robots_line_limit() -> int {
    16663
}

/// Where the robots.txt parser of `robotstxt_with_cache` stands after some
/// characters of the text: how much of a byte order mark it has seen, the
/// byte offsets at which it will cut the current line out of the text, how
/// many characters of the line it skipped for being past the line limit,
/// whether the last line ended in a carriage return, and whether every cut
/// it made so far fell on character boundaries.
pub struct RobotsScan {
    pub bom_pos: int,
    pub start: int,
    pub end: int,
    pub skip: int,
    pub last_cr: bool,
    pub cuts_ok: bool,
}

/// Cutting `s` (as UTF-8) from byte `start` to byte `end` does not panic.
pub open spec fn robots_cut_ok(s: Seq<char>, start: int, end: int) -> bool {
    &&& start <= end
    &&& is_char_boundary(encode_utf8(s), start)
    &&& is_char_boundary(encode_utf8(s), end)
}

/// One character of the parser's loop. A skipped character moves the
/// offsets on by one byte, whatever its length: the count of skipped
/// characters is added to the offset at the line's end.
pub open spec fn robots_step(s: Seq<char>, st: RobotsScan, c: char) -> RobotsScan {
    if st.bom_pos < 3 && c == robots_bom_char(st.bom_pos) {
        RobotsScan {
            bom_pos: st.bom_pos + 1,
            start: st.start + utf8_len(c),
            end: st.end + utf8_len(c),
            skip: st.skip,
            last_cr: st.last_cr,
            cuts_ok: st.cuts_ok,
        }
    } else if !is_line_end(c) {
        if st.end - st.start < robots_line_limit() {
            RobotsScan {
                bom_pos: 3,
                start: st.start,
                end: st.end + utf8_len(c),
                skip: st.skip,
                last_cr: st.last_cr,
                cuts_ok: st.cuts_ok,
            }
        } else {
            RobotsScan {
                bom_pos: 3,
                start: st.start,
                end: st.end,
                skip: st.skip + 1,
                last_cr: st.last_cr,
                cuts_ok: st.cuts_ok,
            }
        }
    } else {
        let crlf_continuation = st.end == st.start && st.last_cr && c == '\n';
        let next = st.end + st.skip + utf8_len(c);
        RobotsScan {
            bom_pos: 3,
            start: next,
            end: next,
            skip: 0,
            last_cr: c == '\r',
            cuts_ok: st.cuts_ok && (crlf_continuation || robots_cut_ok(s, st.start, st.end)),
        }
    }
}

/// The parser's state after the first `i` characters of `s`.
pub open spec fn robots_scan(s: Seq<char>, i: int) -> RobotsScan
    decreases i,
{
    if i <= 0 || i > s.len() {
        RobotsScan { bom_pos: 0, start: 0, end: 0, skip: 0, last_cr: false, cuts_ok: true }
    } else {
        robots_step(s, robots_scan(s, i - 1), s[i - 1])
    }
}

/// The robots.txt parser of `robotstxt_with_cache` reads the text without
/// panicking: every line it cuts out of the text, the last one included,
/// is cut at character boundaries. (After an over-long line it counts each
/// skipped character as one byte, so a later cut can land inside a
/// character.)
pub open spec fn robots_parsable(s: Seq<char>) -> bool {
    let last = robots_scan(s, s.len() as int);
    last.cuts_ok && robots_cut_ok(s, last.start, last.end)
}

proof fn lemma_ascii_boundaries(s: Seq<char>, k: int)
    requires
        is_ascii_chars(s),
        0 <= k <= s.len(),
    ensures
        is_char_boundary(encode_utf8(s), k),
{
    let bytes = encode_utf8(s);
    is_ascii_chars_encode_utf8(s);
    encode_utf8_valid_utf8(s);
    if k == bytes.len() {
        is_char_boundary_start_end_of_seq(bytes);
    } else {
        is_char_boundary_iff_not_is_continuation_byte(bytes, k);
        assert('\0' <= s[k] <= '\u{7f}');
        assert(s[k] as u8 == bytes[k]);
        let c = s[k] as u32;
        assert(c <= 0x7f);
        assert(bytes[k] < 0x80) by {
            char_u32_cast(s[k], c);
        }
    }
}

proof fn lemma_ascii_scan(s: Seq<char>, i: int)
    requires
        is_ascii_chars(s),
        0 <= i <= s.len(),
    ensures
        robots_scan(s, i).cuts_ok,
        0 <= robots_scan(s, i).start <= robots_scan(s, i).end,
        0 <= robots_scan(s, i).skip,
        robots_scan(s, i).end + robots_scan(s, i).skip == i,
        robots_scan(s, i).bom_pos == 0 || robots_scan(s, i).bom_pos == 3,
    decreases i,
{
    if i > 0 {
        lemma_ascii_scan(s, i - 1);
        let c = s[i - 1];
        assert('\0' <= c <= '\u{7f}');
        assert(utf8_len(c) == 1);
        let st = robots_scan(s, i - 1);
        assert(c != robots_bom_char(st.bom_pos));
        if is_line_end(c) {
            lemma_ascii_boundaries(s, st.start);
            lemma_ascii_boundaries(s, st.end);
        }
    }
}

/// The parser reads every ASCII robots.txt: it can only lose its place in
/// the text on characters of more than one byte.
pub proof fn lemma_ascii_robots_parsable(s: Seq<char>)
    requires
        is_ascii_chars(s),
    ensures
        robots_parsable(s),
{
    lemma_ascii_scan(s, s.len() as int);
    let last = robots_scan(s, s.len() as int);
    lemma_ascii_boundaries(s, last.start);
    lemma_ascii_boundaries(s, last.end);
}

/// `robotstxt_with_cache`: a default caching matcher parses the rules and is
/// asked about one agent. The result is named `robots_allow`; the matching
/// rules of robots.txt are not restated here. The parser slices each line
/// out of the text by the byte offsets `robots_scan` follows, which panics
/// exactly when the text is not `robots_parsable`.
#[verifier::external_body]
fn robots_allows(robots_txt: &str, agent: &str, url: &str) -> (allowed: bool)
    requires
        robots_parsable(robots_txt@),
    ensures
        allowed == robots_allow(robots_txt@, agent@, url@),
{
    let mut matcher = robotstxt_with_cache::DefaultCachingMatcher::new(
        robotstxt_with_cache::DefaultMatcher::default(),
    );
    matcher.parse(robots_txt);
    matcher.one_agent_allowed_by_robots(agent, url)
}

/// How many bytes a character takes in UTF-8.
fn char_utf8_len(c: char) -> (n: usize)
    ensures
        n == utf8_len(c),
{
    let v = c as u32;
    if v <= 0x7f {
        1
    } else if v <= 0x7ff {
        2
    } else if v <= 0xffff {
        3
    } else {
        4
    }
}

proof fn lemma_encode_scalar_len(c: char)
    ensures
        encode_utf8(seq![c]).len() == utf8_len(c),
{
    char_is_scalar(c);
    assert(seq![c].drop_first() =~= Seq::<char>::empty());
    assert(encode_utf8(seq![c]) =~= encode_scalar(c as u32) + encode_utf8(Seq::<char>::empty()));
}

proof fn lemma_encode_push_len(a: Seq<char>, c: char)
    ensures
        encode_utf8(a.push(c)).len() == encode_utf8(a).len() + utf8_len(c),
    decreases a.len(),
{
    if a.len() == 0 {
        assert(a.push(c) =~= seq![c]);
        lemma_encode_scalar_len(c);
    } else {
        assert(a.push(c).drop_first() =~= a.drop_first().push(c));
        assert(a.push(c)[0] == a[0]);
        lemma_encode_push_len(a.drop_first(), c);
    }
}

proof fn lemma_prefix_bytes_encoded(s: Seq<char>, i: int)
    requires
        0 <= i <= s.len(),
    ensures
        prefix_bytes(s, i) == encode_utf8(s.take(i)).len(),
    decreases i,
{
    if i == 0 {
        assert(s.take(0) =~= Seq::<char>::empty());
    } else {
        lemma_prefix_bytes_encoded(s, i - 1);
        assert(s.take(i) =~= s.take(i - 1).push(s[i - 1]));
        lemma_encode_push_len(s.take(i - 1), s[i - 1]);
    }
}

proof fn lemma_prefix_bytes_grow(s: Seq<char>, i: int, j: int)
    requires
        0 <= i <= j <= s.len(),
    ensures
        prefix_bytes(s, i) <= prefix_bytes(s, j),
    decreases j - i,
{
    if i < j {
        lemma_prefix_bytes_grow(s, i, j - 1);
    }
}

/// Whether the robots.txt parser can read the text (see `robots_parsable`).
pub fn is_robots_parsable(robots_txt: &str) -> (ok: bool)
    ensures
        ok == robots_parsable(robots_txt@),
{
    let s = to_chars(robots_txt);
    let total = robots_txt.as_bytes().len();
    proof {
        lemma_prefix_bytes_encoded(s@, s@.len() as int);
        assert(s@.take(s@.len() as int) =~= s@);
    }
    let mut bom_pos: usize = 0;
    let mut start: usize = 0;
    let mut end: usize = 0;
    let mut skip: usize = 0;
    let mut last_cr = false;
    let mut cuts_ok = true;
    let mut i: usize = 0;
    while i < s.len()
        invariant
            i <= s.len(),
            s@ == robots_txt@,
            total == encode_utf8(s@).len(),
            prefix_bytes(s@, s@.len() as int) == total,
            robots_scan(s@, i as int) == (RobotsScan {
                bom_pos: bom_pos as int,
                start: start as int,
                end: end as int,
                skip: skip as int,
                last_cr,
                cuts_ok,
            }),
            start <= end,
            end + skip <= prefix_bytes(s@, i as int),
        decreases s.len() - i,
    {
        let c = s[i];
        let n = char_utf8_len(c);
        proof {
            lemma_prefix_bytes_grow(s@, i + 1, s@.len() as int);
        }
        let bom_char = if bom_pos == 0 {
            '\u{ef}'
        } else if bom_pos == 1 {
            '\u{bb}'
        } else {
            '\u{bf}'
        };
        if bom_pos < 3 && c == bom_char {
            bom_pos = bom_pos + 1;
            start = start + n;
            end = end + n;
        } else if c != '\n' && c != '\r' {
            bom_pos = 3;
            if end - start < 16663 {
                end = end + n;
            } else {
                skip = skip + 1;
            }
        } else {
            bom_pos = 3;
            let crlf_continuation = end == start && last_cr && c == '\n';
            if !crlf_continuation {
                cuts_ok = cuts_ok && robots_txt.is_char_boundary(start)
                    && robots_txt.is_char_boundary(end);
            }
            let next = end + skip + n;
            start = next;
            end = next;
            skip = 0;
            last_cr = c == '\r';
        }
        i += 1;
    }
    cuts_ok && robots_txt.is_char_boundary(start) && robots_txt.is_char_boundary(end)
}

impl JohnlewisCom {
    pub fn new() -> (s: Self) {
        JohnlewisCom
    }

    /// The shop's display name.
    pub fn to_string(&self) -> (s: String)
        ensures
            s@ == "JohnlewisCom"@,
    {
        String::from_str("JohnlewisCom")
    }

    /// Whether the shop's robots.txt lets the crawler (under its title-case
    /// name) fetch the shop's home page; no answer when the robots.txt parser
    /// cannot read the text.
    pub fn can_crawl_with(robots_txt: &str) -> (allowed: Option<bool>)
        ensures
            match allowed {
                Some(a) => robots_parsable(robots_txt@) && a == robots_allow(
                    robots_txt@,
                    title_cased(NAME@),
                    "https://www.johnlewis.com/"@,
                ),
                None => !robots_parsable(robots_txt@),
            },
    {
        if !is_robots_parsable(robots_txt) {
            return None;
        }
        let agent = title_case(NAME);
        Some(robots_allows(robots_txt, agent.as_str(), "https://www.johnlewis.com/"))
    }

    /// The product of a John Lewis product page at `url`. A page that is not
    /// wanted, or has no JSON document, gives a blank product; the first
    /// JSON document gives the name, image, price (in pounds) and address.
    /// It is an error when that document is not JSON, or its offers are not
    /// a JSON object.
    pub fn product_from_page(url: &str, page: &str, args: &DynamicArgs) -> (r: Result<
        Product,
        CrawlError,
    >)
        ensures
            johnlewis_page(r, url@, page@, *args),
    {
        let mut product = Product::default();
        if !is_wanted_page(
            page,
            url,
            "No longer available online",
            args.filter_keyword.as_str(),
            args.filter_url.as_str(),
        ) {
            return Ok(product);
        }
        let scripts = ld_json_texts(page);
        if scripts.len() == 0 {
            return Ok(product);
        }
        let doc = scripts[0].as_str();
        assert(doc@ == ld_json_scripts(page@)[0]);
        if !is_json(doc) {
            return Err(CrawlError::Json);
        }
        let quote = ['"'];
        assert(quote@ =~= seq!['"']);
        product.link = String::from_str(url);
        let mut image = remove_chars(index_key(doc, "image").as_str(), &quote);
        image.append("?.jpg");
        product.image = image;
        product.currency = Currency::Pound;
        product.name = remove_chars(index_key(doc, "name").as_str(), &quote);
        let offers = index_key(doc, "offers");
        if !is_object(offers.as_str()) {
            return Err(CrawlError::MissingField);
        }
        if has_member(offers.as_str(), "lowPrice") {
            product.price = remove_chars(index_keys(doc, "offers", "lowPrice").as_str(), &quote);
        } else {
            product.price = remove_chars(index_keys(doc, "offers", "price").as_str(), &quote);
        }
        Ok(product)
    }

    /// A crawl of John Lewis: the products of the pages of its first `limit`
    /// product links (`pages[i]` is the page at `links[i]`), in their order,
    /// keeping those with a name. The first page that gives an error stops
    /// the crawl with that error.
    pub fn products_from_pages(
        links: &Vec<String>,
        limit: usize,
        pages: &Vec<String>,
        args: &DynamicArgs,
    ) -> (r: Result<Vec<Product>, CrawlError>)
        requires
            pages.len() == crawled_count(links@, limit),
        ensures
            match r {
                Ok(ps) => exists|qs: Seq<Product>|
                    {
                        &&& qs.len() == pages.len()
                        &&& forall|i: int|
                            0 <= i < qs.len() ==> johnlewis_page(
                                Ok(#[trigger] qs[i]),
                                links@[i]@,
                                pages@[i]@,
                                *args,
                            )
                        &&& ps@ == listed(qs)
                    },
                Err(e) => exists|k: int|
                    {
                        &&& 0 <= k < pages.len()
                        &&& johnlewis_page(Err(e), links@[k]@, pages@[k]@, *args)
                        &&& forall|i: int|
                            0 <= i < k ==> #[trigger] johnlewis_page_reads(
                                links@[i]@,
                                pages@[i]@,
                                *args,
                            )
                    },
            },
    {
        let ghost mut qs: Seq<Product> = Seq::empty();
        let mut out: Vec<Product> = Vec::new();
        let mut i: usize = 0;
        while i < pages.len()
            invariant
                i <= pages.len(),
                pages.len() <= links.len(),
                qs.len() == i,
                forall|j: int|
                    0 <= j < i ==> johnlewis_page(Ok(#[trigger] qs[j]), links@[j]@, pages@[j]@, *args),
                out@ == listed(qs),
            decreases pages.len() - i,
        {
            let r = JohnlewisCom::product_from_page(links[i].as_str(), pages[i].as_str(), args);
            match r {
                Ok(p) => {
                    proof {
                        qs.lemma_filter_push(p, |q: Product| q.name@.len() > 0);
                        qs = qs.push(p);
                    }
                    if p.is_named() {
                        out.push(p);
                    }
                },
                Err(e) => {
                    assert forall|j: int| 0 <= j < i implies #[trigger] johnlewis_page_reads(
                        links@[j]@,
                        pages@[j]@,
                        *args,
                    ) by {
                        assert(johnlewis_page(Ok(qs[j]), links@[j]@, pages@[j]@, *args));
                    }
                    assert(johnlewis_page(Err(e), links@[i as int]@, pages@[i as int]@, *args));
                    return Err(e);
                },
            }
            i += 1;
        }
        Ok(out)
    }
}

} // verus!
