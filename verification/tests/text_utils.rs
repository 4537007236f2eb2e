use mtg_spoilers::text::concat_all;
use mtg_spoilers::text::contains_sub;
use mtg_spoilers::text::first_nonempty_trimmed;
use mtg_spoilers::text::replace;
use mtg_spoilers::text::split_ws;
use mtg_spoilers::text::starts_with;
use mtg_spoilers::text::str_eq;
use mtg_spoilers::text::strip_suffix_all;
use mtg_spoilers::text::trim;

#[test]
fn trim_removes_surrounding_whitespace() {
    assert_eq!(trim("  a b \t\n"), "a b");
    assert_eq!(trim(""), "");
    assert_eq!(trim(" \n\t "), "");
    assert_eq!(trim("x"), "x");
}

#[test]
fn starts_with_checks_prefixes() {
    assert!(starts_with("http://x", "http"));
    assert!(!starts_with("htt", "http"));
    assert!(starts_with("anything", ""));
}

#[test]
fn str_eq_compares_characters() {
    assert!(str_eq("abc", "abc"));
    assert!(!str_eq("abc", "abd"));
    assert!(!str_eq("abc", "ab"));
}

#[test]
fn contains_finds_substrings() {
    assert!(contains_sub("say CARD NAME here", "CARD NAME"));
    assert!(!contains_sub("say CARD here", "CARD NAME"));
    assert!(contains_sub("abc", ""));
    assert!(!contains_sub("ab", "abc"));
}

#[test]
fn strip_suffix_all_removes_every_copy() {
    assert_eq!(strip_suffix_all("x.jpgjpg", "jpg"), "x.");
    assert_eq!(strip_suffix_all("x.png", "jpg"), "x.png");
    assert_eq!(strip_suffix_all("jpg", "jpg"), "");
}

#[test]
fn replace_rewrites_left_to_right() {
    assert_eq!(replace("a\n\n\nb", "\n\n\n", "\n\n"), "a\n\nb");
    assert_eq!(replace("a \nb \nc", " \n", "\n"), "a\nb\nc");
    assert_eq!(replace("\n\n\n\n", "\n\n\n", "\n\n"), "\n\n\n");
    assert_eq!(replace("none", "xyz", "q"), "none");
}

#[test]
fn split_ws_tokenizes_on_whitespace_runs() {
    let toks = split_ws("  a  b\nc\t");
    assert_eq!(toks, vec!["a", "b", "c"]);
    assert_eq!(split_ws(""), Vec::<String>::new());
    assert_eq!(split_ws("  \n "), Vec::<String>::new());
}

#[test]
fn concat_all_joins_in_order() {
    let parts = vec!["a".to_string(), "".to_string(), "bc".to_string()];
    assert_eq!(concat_all(&parts), "abc");
}

#[test]
fn first_nonempty_trimmed_skips_blank_pieces() {
    let parts = vec!["  ".to_string(), "\n".to_string(), " x y ".to_string()];
    assert_eq!(first_nonempty_trimmed(&parts).as_deref(), Some("x y"));
    let blank = vec!["  ".to_string()];
    assert_eq!(first_nonempty_trimmed(&blank), None);
}
