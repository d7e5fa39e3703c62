use quickcopy::configuration::RuntimeType;
use quickcopy::header::get_header;
use quickcopy::utilities::{
    char_match, match_list_or_all, path_is_unc, string_match, string_match_str, u64_to_decimal,
};
use std::str::FromStr;

#[test]
fn string_match_is_case_insensitive_containment() {
    assert!(string_match(String::from("ABCdef"), String::from("CDE")));
    assert!(string_match(String::from("abc"), String::from("abc")));
    assert!(!string_match(String::from("abc"), String::from("abd")));
    assert!(!string_match(String::from("ab"), String::from("abc")));
    assert!(string_match(String::from(""), String::from("")));
    assert!(string_match(String::from("abc"), String::from("")));
}

#[test]
fn string_match_str_delegates() {
    assert!(string_match_str("Desktop", "desk"));
    assert!(!string_match_str("desk", "Desktop"));
}

#[test]
fn char_match_folds_case() {
    assert!(char_match('A', 'a'));
    assert!(char_match('z', 'Z'));
    assert!(!char_match('a', 'b'));
}

#[test]
fn unc_paths_start_with_two_backslashes() {
    assert!(path_is_unc(&String::from("\\\\server\\share")));
    assert!(!path_is_unc(&String::from("C:\\data")));
    assert!(!path_is_unc(&String::from("\\single")));
}

#[test]
fn empty_allow_list_allows_everything() {
    assert!(match_list_or_all(&String::from("png"), Vec::new()));
    assert!(match_list_or_all(&String::from("txt"), vec![String::from("txt")]));
    assert!(!match_list_or_all(&String::from("png"), vec![String::from("txt")]));
}

#[test]
fn decimal_rendering_is_exact() {
    assert_eq!(u64_to_decimal(0), String::from("0"));
    assert_eq!(u64_to_decimal(905), String::from("905"));
    assert_eq!(u64_to_decimal(18446744073709551615), String::from("18446744073709551615"));
}

#[test]
fn runtime_type_parses_and_displays() {
    assert_eq!(RuntimeType::from_str("Console").unwrap(), RuntimeType::Console);
    assert_eq!(RuntimeType::from_str("Service").unwrap(), RuntimeType::Service);
    assert_eq!(RuntimeType::from_str("Batch").unwrap(), RuntimeType::Batch);
    assert!(RuntimeType::from_str("other").is_err());
    assert_eq!(RuntimeType::Batch.display_name(), String::from("batch"));
    assert_eq!(RuntimeType::Console.display_name(), String::from("console"));
}

#[test]
fn header_holds_version_and_author_lines() {
    let h = get_header();
    assert!(h.contains("Version: 0.1.0"));
    assert!(h.contains("Author: Jon Fast"));
    assert!(h.contains("----------------------------------------------------------------------"));
}
