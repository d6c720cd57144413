use aspire_plugin::names::{add_name, sorted_names};
use aspire_plugin::text::{
    chars_of, contains, ends_with, has_char, is_before, part_after_last, part_before_last,
    replace, replace_char, same_text, trim_end,
};

fn strings(items: &[&str]) -> Vec<String> {
    items.iter().map(|s| s.to_string()).collect()
}

#[test]
fn characters() {
    assert_eq!(chars_of("aé—"), vec!['a', 'é', '—']);
    assert!(same_text("é", "é"));
    assert!(!same_text("é", "e"));
    assert!(!same_text("é", "éé"));
    assert!(has_char("a{b", '{'));
    assert!(!has_char("", '{'));
}

#[test]
fn searching() {
    assert!(contains("aab", "ab"));
    assert!(contains("aab", ""));
    assert!(contains("", ""));
    assert!(!contains("aab", "ba"));
    assert!(!contains("a", "aa"));
    assert!(ends_with("aé", "é"));
    assert!(!ends_with("é", "aé"));
}

#[test]
fn cutting() {
    assert_eq!(trim_end("a//", '/'), "a");
    assert_eq!(trim_end("//", '/'), "");
    assert_eq!(part_after_last("é/b", '/'), "b");
    assert_eq!(part_after_last("b", '/'), "b");
    assert_eq!(part_after_last("b/", '/'), "");
    assert_eq!(part_before_last("a/é/b", '/'), Some("a/é"));
    assert_eq!(part_before_last("/b", '/'), Some(""));
    assert_eq!(part_before_last("b", '/'), None);
}

#[test]
fn replacing() {
    assert_eq!(replace("{d}/{d}", "{d}", "x"), "x/x");
    assert_eq!(replace("aaa", "aa", "b"), "ba");
    assert_eq!(replace("abc", "x", "y"), "abc");
    assert_eq!(replace("{d}", "{d}", "{d}{d}"), "{d}{d}");
    assert_eq!(replace_char("a_b_", '_', '.'), "a.b.");
}

#[test]
fn ordering() {
    assert!(is_before("a", "ab"));
    assert!(is_before("V2", "v1"));
    assert!(is_before("z", "é"));
    assert!(!is_before("a", "a"));
    assert!(!is_before("b", "a"));
    assert!(is_before("", "a"));
}

#[test]
fn names_in_order_each_once() {
    let names = strings(&["v2", "é", "v1", "", "v2", "v10"]);
    let mut expected = names.clone();
    expected.sort();
    expected.dedup();
    assert_eq!(sorted_names(names), expected);
    let mut list = strings(&["a", "c"]);
    add_name(&mut list, "b".to_string());
    add_name(&mut list, "b".to_string());
    assert_eq!(list, strings(&["a", "b", "c"]));
}
