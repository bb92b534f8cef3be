use pricy::shops::countries::it::jdsports_it::JdsportsIt;
use pricy::shops::countries::it::trony_it::TronyIt;
use pricy::shops::countries::uk::currys_co_uk::CurrysCoUk;
use pricy::shops::countries::uk::johnlewis_com::JohnlewisCom;
use pricy::shops::countries::uk::laptopsdirect_co_uk::LaptopsdirectCoUk;
use pricy::shops::countries::uk::nordicnest_com::NordicnestCom;
use pricy::shops::countries::uk::technoworld_com::TechnoworldCom;
use pricy::shops::ShopName;
use pricy::utilities::conf_loader::config_name;

const ALL: [ShopName; 7] = [
    ShopName::TechnoworldCom,
    ShopName::CurrysCoUk,
    ShopName::LaptopsdirectCoUk,
    ShopName::JohnlewisCom,
    ShopName::NordicnestCom,
    ShopName::JdsportsIt,
    ShopName::TronyIt,
];

#[test]
fn shop_names_are_snake_case() {
    assert_eq!(ShopName::TechnoworldCom.to_string(), "technoworld_com");
    assert_eq!(ShopName::CurrysCoUk.to_string(), "currys_co_uk");
    assert_eq!(ShopName::LaptopsdirectCoUk.to_string(), "laptopsdirect_co_uk");
    assert_eq!(ShopName::JohnlewisCom.to_string(), "johnlewis_com");
    assert_eq!(ShopName::NordicnestCom.to_string(), "nordicnest_com");
    assert_eq!(ShopName::JdsportsIt.to_string(), "jdsports_it");
    assert_eq!(ShopName::TronyIt.to_string(), "trony_it");
}

#[test]
fn from_str_reads_back_every_name() {
    for shop in ALL {
        assert_eq!(ShopName::from_str(&shop.to_string()), Some(shop));
    }
}

#[test]
fn from_str_rejects_other_texts() {
    assert_eq!(ShopName::from_str("johnlewis"), None);
    assert_eq!(ShopName::from_str("JohnlewisCom"), None);
    assert_eq!(ShopName::from_str(""), None);
    assert_eq!(ShopName::from_str("trony_it "), None);
}

#[test]
fn variants_in_declaration_order() {
    assert_eq!(ShopName::variants(), ALL.to_vec());
    let names: Vec<String> = ALL.iter().map(|s| s.to_string()).collect();
    assert_eq!(ShopName::variant_names(), names);
}

#[test]
fn shop_list_is_sorted() {
    assert_eq!(
        ShopName::sorted_variant_names(),
        vec![
            "currys_co_uk",
            "jdsports_it",
            "johnlewis_com",
            "laptopsdirect_co_uk",
            "nordicnest_com",
            "technoworld_com",
            "trony_it",
        ]
    );
}

#[test]
fn from_url_finds_shop_by_domain() {
    assert_eq!(
        ShopName::from_url(
            "https://www.johnlewis.com/john-lewis-partners-jl111-wildflower-print-sewing-machine-blue/p5548442"
        ),
        Some(ShopName::JohnlewisCom)
    );
    assert_eq!(ShopName::from_url("https://www.trony.it/prodotto/1"), Some(ShopName::TronyIt));
    assert_eq!(ShopName::from_url("https://www.currys.co.uk/x"), Some(ShopName::CurrysCoUk));
}

#[test]
fn from_url_trims_and_lowercases() {
    assert_eq!(
        ShopName::from_url("  HTTPS://WWW.JohnLewis.COM/p1 \n"),
        Some(ShopName::JohnlewisCom)
    );
    assert_eq!(ShopName::from_url("\tnordicnest.com"), Some(ShopName::NordicnestCom));
}

#[test]
fn from_url_ignores_surrounding_white_space() {
    for u in ["https://www.trony.it/p", "https://example.com/", ""] {
        assert_eq!(ShopName::from_url(&format!(" \t{u}\u{a0}\n")), ShopName::from_url(u));
    }
}

#[test]
fn from_url_ignores_ascii_case() {
    for u in ["https://www.johnlewis.com/p", "http://Trony.it", "https://example.com/"] {
        assert_eq!(ShopName::from_url(&u.to_uppercase()), ShopName::from_url(u));
        assert_eq!(ShopName::from_url(&format!("  {} ", u)), ShopName::from_url(u));
    }
}

#[test]
fn from_url_unknown_shop() {
    assert_eq!(ShopName::from_url("https://example.com/p1"), None);
    assert_eq!(ShopName::from_url(""), None);
    // an underscore is not a dot
    assert_eq!(ShopName::from_url("https://johnlewis_com/"), None);
}

#[test]
fn from_url_takes_first_declared_shop() {
    assert_eq!(
        ShopName::from_url("https://trony.it/?ref=technoworld.com"),
        Some(ShopName::TechnoworldCom)
    );
}

#[test]
fn shop_types_display_their_names() {
    assert_eq!(TechnoworldCom::new().to_string(), "TechnoworldCom");
    assert_eq!(CurrysCoUk::new().to_string(), "CurrysCoUk");
    assert_eq!(LaptopsdirectCoUk::new().to_string(), "LaptopsdirectCoUk");
    assert_eq!(JohnlewisCom::new().to_string(), "JohnlewisCom");
    assert_eq!(NordicnestCom::new().to_string(), "NordicnestCom");
    assert_eq!(JdsportsIt::new().to_string(), "JdsportsIt");
    assert_eq!(TronyIt::new().to_string(), "TronyIt");
}

#[test]
fn config_names_of_shop_types() {
    assert_eq!(config_name(&JohnlewisCom::new().to_string()), "johnlewis_com");
    assert_eq!(config_name(&LaptopsdirectCoUk::new().to_string()), "laptopsdirect_co_uk");
    assert_eq!(config_name(&TronyIt::new().to_string()), "trony_it");
}
