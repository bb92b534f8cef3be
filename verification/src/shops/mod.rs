//! The shops the crawler knows, by name.
pub mod countries;

use crate::text::{
    contains, equals, lower_text, ascii_lowercase, lemma_trimmed_ascii_lower, replace, sort_texts, sorted_texts, text_contains, to_lowercase,
    trim, trimmed, views, replaced, all_white_space, lemma_trimmed_padding,
};
use vstd::prelude::*;
use vstd::utf8::is_ascii_chars;

verus! {

broadcast use vstd::string::group_string_axioms;

/// A shop the crawler knows. Its name is the snake-case form of the
/// variant's name, which is also the name of its configuration file.
#[derive(Clone, Copy, Debug, PartialEq, Eq, Structural)]
pub enum ShopName {
    TechnoworldCom,
    CurrysCoUk,
    LaptopsdirectCoUk,
    JohnlewisCom,
    NordicnestCom,
    JdsportsIt,
    TronyIt,
}

/// The name of a shop.
pub open spec fn shop_text(s: ShopName) -> Seq<char> {
    match s {
        ShopName::TechnoworldCom => "technoworld_com"@,
        ShopName::CurrysCoUk => "currys_co_uk"@,
        ShopName::LaptopsdirectCoUk => "laptopsdirect_co_uk"@,
        ShopName::JohnlewisCom => "johnlewis_com"@,
        ShopName::NordicnestCom => "nordicnest_com"@,
        ShopName::JdsportsIt => "jdsports_it"@,
        ShopName::TronyIt => "trony_it"@,
    }
}

/// All shops, in the order of their declaration.
pub open spec fn all_shops() -> Seq<ShopName> {
    seq![
        ShopName::TechnoworldCom,
        ShopName::CurrysCoUk,
        ShopName::LaptopsdirectCoUk,
        ShopName::JohnlewisCom,
        ShopName::NordicnestCom,
        ShopName::JdsportsIt,
        ShopName::TronyIt,
    ]
}

/// The shop whose name is `t`, if any.
pub open spec fn shop_from_text(t: Seq<char>) -> Option<ShopName> {
    if t == shop_text(ShopName::TechnoworldCom) {
        Some(ShopName::TechnoworldCom)
    } else if t == shop_text(ShopName::CurrysCoUk) {
        Some(ShopName::CurrysCoUk)
    } else if t == shop_text(ShopName::LaptopsdirectCoUk) {
        Some(ShopName::LaptopsdirectCoUk)
    } else if t == shop_text(ShopName::JohnlewisCom) {
        Some(ShopName::JohnlewisCom)
    } else if t == shop_text(ShopName::NordicnestCom) {
        Some(ShopName::NordicnestCom)
    } else if t == shop_text(ShopName::JdsportsIt) {
        Some(ShopName::JdsportsIt)
    } else if t == shop_text(ShopName::TronyIt) {
        Some(ShopName::TronyIt)
    } else {
        None
    }
}

/// The domain of a shop: its name with every `_` turned into `.`.
pub open spec fn shop_domain(s: ShopName) -> Seq<char> {
    replaced(shop_text(s), "_"@, "."@)
}

/// The first of `shops` whose domain occurs in `url`.
pub open spec fn first_shop_in(url: Seq<char>, shops: Seq<ShopName>) -> Option<ShopName>
    decreases shops.len(),
{
    if shops.len() == 0 {
        None
    } else if text_contains(url, shop_domain(shops[0])) {
        Some(shops[0])
    } else {
        first_shop_in(url, shops.drop_first())
    }
}

/// The shop that `ShopName::from_url` finds for an address.
pub open spec fn shop_of_url(url: Seq<char>) -> Option<ShopName> {
    first_shop_in(lower_text(trimmed(url)), all_shops())
}

/// No two shops share a name.
pub proof fn lemma_shop_texts_distinct(a: ShopName, b: ShopName)
    ensures
        shop_text(a) == shop_text(b) ==> a == b,
{
    reveal_strlit("technoworld_com");
    reveal_strlit("currys_co_uk");
    reveal_strlit("laptopsdirect_co_uk");
    reveal_strlit("johnlewis_com");
    reveal_strlit("nordicnest_com");
    reveal_strlit("jdsports_it");
    reveal_strlit("trony_it");
    if shop_text(a) == shop_text(b) && a != b {
        assert(shop_text(a)[0] == shop_text(b)[0]);
        assert(shop_text(a).len() == shop_text(b).len());
        assert(shop_text(a)[1] == shop_text(b)[1]);
    }
}

/// Reading a shop's name gives back the shop, and only the names of shops
/// are read as shops.
pub proof fn lemma_name_roundtrip(s: ShopName, t: Seq<char>)
    ensures
        shop_from_text(shop_text(s)) == Some(s),
        shop_from_text(t) == Some(s) ==> t == shop_text(s),
{
    lemma_shop_texts_distinct(s, ShopName::TechnoworldCom);
    lemma_shop_texts_distinct(s, ShopName::CurrysCoUk);
    lemma_shop_texts_distinct(s, ShopName::LaptopsdirectCoUk);
    lemma_shop_texts_distinct(s, ShopName::JohnlewisCom);
    lemma_shop_texts_distinct(s, ShopName::NordicnestCom);
    lemma_shop_texts_distinct(s, ShopName::JdsportsIt);
    lemma_shop_texts_distinct(s, ShopName::TronyIt);
}

/// Case does not matter to the shop found for an ASCII address: two ASCII
/// addresses that differ only in the case of their letters (such as an
/// address and its upper-case form) find the same shop.
pub proof fn lemma_shop_of_url_ascii_case(u: Seq<char>, v: Seq<char>)
    requires
        is_ascii_chars(u),
        is_ascii_chars(v),
        ascii_lowercase(u) == ascii_lowercase(v),
    ensures
        shop_of_url(u) == shop_of_url(v),
{
    lemma_trimmed_ascii_lower(u);
    lemma_trimmed_ascii_lower(v);
}

/// White space around an address does not change the shop found for it.
pub proof fn lemma_shop_of_padded_url(w1: Seq<char>, url: Seq<char>, w2: Seq<char>)
    requires
        all_white_space(w1),
        all_white_space(w2),
    ensures
        shop_of_url(w1 + url + w2) == shop_of_url(url),
{
    lemma_trimmed_padding(w1, url, w2);
}

/// The shop found for an address is one whose domain occurs in the
/// trimmed, lowercased address, and no shop declared before it has its
/// domain there; when none is found, no shop has its domain there.
pub proof fn lemma_shop_of_url(url: Seq<char>)
    ensures
        match shop_of_url(url) {
            Some(s) => {
                &&& text_contains(lower_text(trimmed(url)), shop_domain(s))
                &&& exists|k: int|
                    0 <= k < all_shops().len() && all_shops()[k] == s && forall|j: int|
                        0 <= j < k ==> !text_contains(
                            lower_text(trimmed(url)),
                            #[trigger] shop_domain(all_shops()[j]),
                        )
            },
            None => forall|j: int|
                0 <= j < all_shops().len() ==> !text_contains(
                    lower_text(trimmed(url)),
                    #[trigger] shop_domain(all_shops()[j]),
                ),
        },
{
    lemma_first_shop_in(lower_text(trimmed(url)), all_shops());
}

proof fn lemma_first_shop_in(u: Seq<char>, shops: Seq<ShopName>)
    ensures
        match first_shop_in(u, shops) {
            Some(s) => {
                &&& text_contains(u, shop_domain(s))
                &&& exists|k: int|
                    0 <= k < shops.len() && shops[k] == s && forall|j: int|
                        0 <= j < k ==> !text_contains(u, #[trigger] shop_domain(shops[j]))
            },
            None => forall|j: int|
                0 <= j < shops.len() ==> !text_contains(u, #[trigger] shop_domain(shops[j])),
        },
    decreases shops.len(),
{
    if shops.len() > 0 {
        lemma_first_shop_in(u, shops.drop_first());
        if text_contains(u, shop_domain(shops[0])) {
            assert(shops[0] == shops[0]);
        } else {
            match first_shop_in(u, shops.drop_first()) {
                Some(s) => {
                    let k = choose|k: int|
                        0 <= k < shops.drop_first().len() && shops.drop_first()[k] == s && forall|
                            j: int,
                        |
                            0 <= j < k ==> !text_contains(
                                u,
                                #[trigger] shop_domain(shops.drop_first()[j]),
                            );
                    assert forall|j: int| 0 <= j < k + 1 implies !text_contains(
                        u,
                        #[trigger] shop_domain(shops[j]),
                    ) by {
                        if j > 0 {
                            assert(shops[j] == shops.drop_first()[j - 1]);
                        }
                    }
                },
                None => {
                    assert forall|j: int| 0 <= j < shops.len() implies !text_contains(
                        u,
                        #[trigger] shop_domain(shops[j]),
                    ) by {
                        if j > 0 {
                            assert(shops[j] == shops.drop_first()[j - 1]);
                        }
                    }
                },
            }
        }
    }
}

impl ShopName {
    /// The shop's name (what its `Display` gives).
    pub fn to_string(&self) -> (s: String)
        ensures
            s@ == shop_text(*self),
    {
        match self {
            ShopName::TechnoworldCom => String::from_str("technoworld_com"),
            ShopName::CurrysCoUk => String::from_str("currys_co_uk"),
            ShopName::LaptopsdirectCoUk => String::from_str("laptopsdirect_co_uk"),
            ShopName::JohnlewisCom => String::from_str("johnlewis_com"),
            ShopName::NordicnestCom => String::from_str("nordicnest_com"),
            ShopName::JdsportsIt => String::from_str("jdsports_it"),
            ShopName::TronyIt => String::from_str("trony_it"),
        }
    }

    /// All shops, in the order of their declaration.
    pub fn variants() -> (v: Vec<ShopName>)
        ensures
            v@ == all_shops(),
    {
        let v = vec![
            ShopName::TechnoworldCom,
            ShopName::CurrysCoUk,
            ShopName::LaptopsdirectCoUk,
            ShopName::JohnlewisCom,
            ShopName::NordicnestCom,
            ShopName::JdsportsIt,
            ShopName::TronyIt,
        ];
        assert(v@ =~= all_shops());
        v
    }

    /// The names of all shops, in the order of their declaration.
    pub fn variant_names() -> (names: Vec<String>)
        ensures
            views(names@) == all_shops().map_values(|s: ShopName| shop_text(s)),
    {
        let shops = ShopName::variants();
        let mut names: Vec<String> = Vec::new();
        let mut i: usize = 0;
        while i < shops.len()
            invariant
                i <= shops@.len(),
                shops@ == all_shops(),
                views(names@) == all_shops().map_values(|s: ShopName| shop_text(s)).take(i as int),
            decreases shops.len() - i,
        {
            let name = shops[i].to_string();
            let ghost before = names@;
            names.push(name);
            assert(names@ == before.push(name));
            assert(views(names@) =~= views(before).push(name@));
            assert(views(names@) =~= all_shops().map_values(|s: ShopName| shop_text(s)).take(
                i + 1,
            ));
            i += 1;
        }
        assert(all_shops().map_values(|s: ShopName| shop_text(s)).take(7) =~= all_shops().map_values(
            |s: ShopName| shop_text(s),
        ));
        names
    }

    /// The names of all shops in ascending order, as the shop list shows
    /// them.
    pub fn sorted_variant_names() -> (names: Vec<String>)
        ensures
            views(names@).to_multiset() == all_shops().map_values(
                |s: ShopName| shop_text(s),
            ).to_multiset(),
            sorted_texts(views(names@)),
    {
        let names = ShopName::variant_names();
        sort_texts(&names)
    }

    /// The shop whose name is `shop_name`.
    pub fn from_str(shop_name: &str) -> (r: Option<ShopName>)
        ensures
            r == shop_from_text(shop_name@),
    {
        if equals(shop_name, "technoworld_com") {
            Some(ShopName::TechnoworldCom)
        } else if equals(shop_name, "currys_co_uk") {
            Some(ShopName::CurrysCoUk)
        } else if equals(shop_name, "laptopsdirect_co_uk") {
            Some(ShopName::LaptopsdirectCoUk)
        } else if equals(shop_name, "johnlewis_com") {
            Some(ShopName::JohnlewisCom)
        } else if equals(shop_name, "nordicnest_com") {
            Some(ShopName::NordicnestCom)
        } else if equals(shop_name, "jdsports_it") {
            Some(ShopName::JdsportsIt)
        } else if equals(shop_name, "trony_it") {
            Some(ShopName::TronyIt)
        } else {
            None
        }
    }

    /// The first shop, in the order of declaration, whose domain (its name
    /// with `_` turned into `.`) occurs in the trimmed, lowercased address.
    pub fn from_url(url: &str) -> (r: Option<ShopName>)
        ensures
            r == shop_of_url(url@),
    {
        let trimmed_url = trim(url);
        let lowered = to_lowercase(trimmed_url.as_str());
        let shops = ShopName::variants();
        let mut i: usize = 0;
        assert(all_shops().skip(0) =~= all_shops());
        while i < shops.len()
            invariant
                i <= shops@.len(),
                shops@ == all_shops(),
                lowered@ == lower_text(trimmed(url@)),
                first_shop_in(lowered@, all_shops()) == first_shop_in(
                    lowered@,
                    all_shops().skip(i as int),
                ),
            decreases shops.len() - i,
        {
            let name = shops[i].to_string();
            proof {
                reveal_strlit("_");
            }
            let domain = replace(name.as_str(), "_", ".");
            assert(all_shops().skip(i as int).drop_first() =~= all_shops().skip(i + 1));
            if contains(lowered.as_str(), domain.as_str()) {
                proof {
                    lemma_name_roundtrip(shops@[i as int], name@);
                }
                return ShopName::from_str(name.as_str());
            }
            i += 1;
        }
        None
    }
}

} // verus!
