use vera::path_search::{file_basename, same_text, search_path_candidates};
use vera::text::{chars_of, i32_to_decimal, string_of, usize_to_decimal};

#[test]
fn path_candidates_skip_empty_entries() {
    let c = search_path_candidates("/usr/bin::/opt/bin/:", ':', "exiv2");
    assert_eq!(c, vec!["/usr/bin/exiv2", "/opt/bin/exiv2"]);
    assert!(search_path_candidates("", ':', "exiv2").is_empty());
}

#[test]
fn basenames() {
    assert_eq!(file_basename("/a/b/c.jpg"), "c.jpg");
    assert_eq!(file_basename("c.jpg"), "c.jpg");
    assert_eq!(file_basename("/"), "");
    assert!(same_text("abc", "abc"));
    assert!(!same_text("abc", "abd"));
}

#[test]
fn decimals() {
    assert_eq!(usize_to_decimal(0), vec!['0']);
    assert_eq!(string_of(&usize_to_decimal(1907)), "1907");
    assert_eq!(string_of(&i32_to_decimal(-42)), "-42");
    assert_eq!(string_of(&i32_to_decimal(i32::MIN)), "-2147483648");
    assert_eq!(chars_of("héllo"), vec!['h', 'é', 'l', 'l', 'o']);
}
