//! Defaults shared by the crawler's requests.
use vstd::prelude::*;

verus! {

broadcast use vstd::string::group_string_axioms;

/// The crawler's name.
pub const NAME: &'static str = "pricy";

/// The crawler's version.
pub const VERSION: &'static str = "0.1.0";

/// What `heck::AsTitleCase` writes for a text: its words capitalized and
/// separated by single spaces.
pub uninterp spec fn title_cased(s: Seq<char>) -> Seq<char>;

/// `heck::AsTitleCase` written out. Its result is named `title_cased`; how
/// heck splits a text into words is not restated here.
#[verifier::external_body]
pub(crate) fn title_case(s: &str) -> (out: String)
    ensures
        out@ == title_cased(s@),
{
    heck::AsTitleCase(s).to_string()
}

/// The crawler's own user agent: its name in title case, a slash and its
/// version.
pub fn user_agent() -> (ua: String)
    ensures
        ua@ == title_cased(NAME@) + "/"@ + VERSION@,
{
    let mut ua = title_case(NAME);
    ua.append("/");
    ua.append(VERSION);
    ua
}

/// The default number of threads.
pub fn threads() -> (n: i8)
    ensures
        n == 1,
{
    1
}

/// The default request timeout, in seconds.
pub fn timeout() -> (t: u64)
    ensures
        t == 40,
{
    40
}

} // verus!
