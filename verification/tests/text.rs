use pricy::text::{
    contains, ends_with, equals, is_whitespace, join, lines, remove_chars, replace, sort_texts,
    split_char, trim,
};

#[test]
fn contains_substrings() {
    assert!(contains("No longer available online", "available"));
    assert!(contains("abc", ""));
    assert!(contains("", ""));
    assert!(!contains("abc", "abcd"));
    assert!(!contains("abc", "cb"));
    assert!(contains("ééé€x", "€x"));
}

#[test]
fn ends_with_suffix() {
    assert!(ends_with("https://a.b/sitemap.xml.gz", ".gz"));
    assert!(!ends_with("https://a.b/sitemap.xml", ".gz"));
    assert!(ends_with("x", ""));
    assert!(!ends_with("z", ".gz"));
}

#[test]
fn replace_left_to_right() {
    assert_eq!(replace("johnlewis_com", "_", "."), "johnlewis.com");
    assert_eq!(replace("laptopsdirect_co_uk", "_", "."), "laptopsdirect.co.uk");
    assert_eq!(replace("aaa", "aa", "b"), "ba");
    assert_eq!(replace("www.x.www.", "www.", ""), "x.");
    assert_eq!(replace("abc", "z", "y"), "abc");
    assert_eq!(replace("", "z", "y"), "");
    assert_eq!(replace("ab", "", "-"), "-a-b-");
    assert_eq!(replace("", "", "-"), "-");
}

#[test]
fn replace_agrees_with_std() {
    for (s, p, r) in [("a,b,,c", ",", ";"), ("aaaa", "aa", "a"), ("xyx", "x", "xx"), ("ab", "", "-"), ("", "", "-"), ("é", "", "")] {
        assert_eq!(replace(s, p, r), s.replace(p, r));
    }
}

#[test]
fn remove_chars_takes_out_each() {
    assert_eq!(remove_chars("\"Wool\" coat", &['"']), "Wool coat");
    assert_eq!(remove_chars("site = \"https://x\"", &['"', ' ']), "site=https://x");
    assert_eq!(remove_chars("1,299.00", &[',']), "1299.00");
    assert_eq!(remove_chars("", &[',']), "");
}

#[test]
fn trim_white_space() {
    assert_eq!(trim("  Laptop 15\" \n"), "Laptop 15\"");
    assert_eq!(trim("\u{a0}\u{3000}x y\u{2003}"), "x y");
    assert_eq!(trim("   "), "");
    assert_eq!(trim("abc"), "abc");
    assert!(is_whitespace('\u{85}'));
    assert!(!is_whitespace('x'));
    for s in ["  a b  ", "\t\r\nq\u{2028}", "\u{1680}"] {
        assert_eq!(trim(s), s.trim());
    }
}

#[test]
fn trim_twice_is_trim_once() {
    for s in ["  a  ", "\u{2000}b\u{200a}", "", "c"] {
        assert_eq!(trim(&trim(s)), trim(s));
    }
}

#[test]
fn split_on_a_character() {
    assert_eq!(split_char("a,b", ','), vec!["a", "b"]);
    assert_eq!(split_char("a,,b,", ','), vec!["a", "", "b", ""]);
    assert_eq!(split_char("", ','), vec![""]);
    assert_eq!(split_char("abc", ','), vec!["abc"]);
}

#[test]
fn join_of_split_gives_back_text() {
    for s in ["a,b", ",", "", "x,,y,z,", "no separator"] {
        assert_eq!(join(&split_char(s, ','), ","), s);
    }
}

#[test]
fn join_with_separator() {
    let parts = vec!["a".to_string(), "b".to_string(), "c".to_string()];
    assert_eq!(join(&parts, "\n"), "a\nb\nc");
    assert_eq!(join(&vec![], "\n"), "");
    assert_eq!(join(&vec!["x".to_string()], ", "), "x");
}

#[test]
fn lines_like_str_lines() {
    assert_eq!(lines("a\nb\n"), vec!["a", "b"]);
    assert_eq!(lines("a\r\nb"), vec!["a", "b"]);
    assert_eq!(lines(""), Vec::<String>::new());
    assert_eq!(lines("\n"), vec![""]);
    assert_eq!(lines("a\r"), vec!["a\r"]);
    for s in ["x\n\ny", "\r\n\r\n", "last\r\n", "one"] {
        let expected: Vec<String> = s.lines().map(|l| l.to_string()).collect();
        assert_eq!(lines(s), expected);
    }
}

#[test]
fn equals_compares_characters() {
    assert!(equals("trony_it", "trony_it"));
    assert!(!equals("trony_it", "trony_i"));
    assert!(equals("", ""));
}

#[test]
fn sort_texts_orders_by_code_point() {
    let items: Vec<String> = ["b", "a", "B", "ab", "", "a"].iter().map(|s| s.to_string()).collect();
    assert_eq!(sort_texts(&items), vec!["", "B", "a", "a", "ab", "b"]);
    let mut expected = items.clone();
    expected.sort();
    assert_eq!(sort_texts(&items), expected);
}
