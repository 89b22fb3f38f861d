use circuit_bench::text::{
    path_extension, path_join, path_leaf, path_parent, path_stem, path_with_extension, push_decimal,
    same_text, text_precedes,
};

fn decimal_of(n: usize) -> String {
    let mut text = String::new();
    push_decimal(&mut text, n);
    text
}

#[test]
fn decimal_of_single_digits() {
    assert_eq!(decimal_of(0), "0");
    assert_eq!(decimal_of(7), "7");
    assert_eq!(decimal_of(9), "9");
}

#[test]
fn decimal_of_longer_numbers() {
    assert_eq!(decimal_of(10), "10");
    assert_eq!(decimal_of(12345), "12345");
    assert_eq!(decimal_of(1000000), "1000000");
    assert_eq!(decimal_of(usize::MAX), usize::MAX.to_string());
}

#[test]
fn decimal_is_appended_to_what_is_there() {
    let mut text = String::from("q[");
    push_decimal(&mut text, 42);
    assert_eq!(text, "q[42");
}

#[test]
fn extension_follows_the_last_dot_of_the_name() {
    assert_eq!(path_extension("a/b.json"), Some("json".to_string()));
    assert_eq!(path_extension("x.tar.gz"), Some("gz".to_string()));
    assert_eq!(path_extension("datasets/3_6-eccs/c1.qasm"), Some("qasm".to_string()));
    assert_eq!(path_extension("a/b."), Some(String::new()));
}

#[test]
fn extension_is_missing_without_a_dot_in_the_name() {
    assert_eq!(path_extension("a/b"), None);
    assert_eq!(path_extension("a.b/c"), None);
    assert_eq!(path_extension(""), None);
    assert_eq!(path_extension("a/"), None);
}

#[test]
fn extension_is_missing_where_the_name_begins_with_the_dot() {
    assert_eq!(path_extension(".hidden"), None);
    assert_eq!(path_extension("a/.json"), None);
}

#[test]
fn stem_drops_the_extension_and_its_dot() {
    assert_eq!(path_stem("a/b.json"), "a/b");
    assert_eq!(path_stem("x.tar.gz"), "x.tar");
    assert_eq!(path_stem("a/b"), "a/b");
    assert_eq!(path_stem("a/.json"), "a/.json");
    assert_eq!(path_stem("datasets/eccs/2_6-eccs.json"), "datasets/eccs/2_6-eccs");
}

#[test]
fn with_extension_replaces_or_adds() {
    assert_eq!(path_with_extension("a/b.json", "qasm"), "a/b.qasm");
    assert_eq!(path_with_extension("a/b", "qasm"), "a/b.qasm");
    assert_eq!(path_with_extension("a/b.c", "json"), "a/b.json");
}

#[test]
fn join_puts_one_slash_between() {
    assert_eq!(path_join("a/b", "c.qasm"), "a/b/c.qasm");
    assert_eq!(path_join("a/b/", "c.qasm"), "a/b/c.qasm");
    assert_eq!(path_join("", "c.qasm"), "c.qasm");
}

#[test]
fn leaf_is_what_follows_the_last_slash() {
    assert_eq!(path_leaf("datasets/random/3_15-random"), "3_15-random");
    assert_eq!(path_leaf("plain"), "plain");
    assert_eq!(path_leaf(""), "");
}

#[test]
fn a_slash_at_the_end_is_not_looked_at() {
    assert_eq!(path_leaf("a/b/"), "b");
    assert_eq!(path_leaf("datasets/random/3_15-random//"), "3_15-random");
    assert_eq!(path_leaf("/"), "");
    assert_eq!(path_extension("a/b.json/"), Some("json".to_string()));
    assert_eq!(path_stem("a/b.json/"), "a/b");
    assert_eq!(path_stem("a/b/"), "a/b");
    assert_eq!(path_stem("/"), "/");
    assert_eq!(path_with_extension("a/b/", "qasm"), "a/b.qasm");
    assert_eq!(path_with_extension("a/b.json//", "qasm"), "a/b.qasm");
    assert_eq!(path_parent("a/b/"), "a");
    assert_eq!(path_parent("a/b/c.bin/"), "a/b");
}

#[test]
fn same_text_compares_character_by_character() {
    assert!(same_text("json", "json"));
    assert!(!same_text("json", "jsom"));
    assert!(!same_text("json", "jso"));
    assert!(same_text("", ""));
    assert!(same_text("qübit", "qübit"));
}

#[test]
fn parent_is_what_stands_before_the_last_slash() {
    assert_eq!(path_parent("a/b/c.bin"), "a/b");
    assert_eq!(path_parent("c.bin"), "");
    assert_eq!(path_parent("/c.bin"), "/");
    assert_eq!(path_parent(""), "");
}

#[test]
fn dictionary_order_goes_by_the_first_difference() {
    assert!(text_precedes("abc", "abd"));
    assert!(!text_precedes("abd", "abc"));
    assert!(text_precedes("Z", "a"));
    assert!(text_precedes("a/b", "a0"));
}

#[test]
fn dictionary_order_puts_a_prefix_first() {
    assert!(text_precedes("ab", "abc"));
    assert!(!text_precedes("abc", "ab"));
    assert!(text_precedes("", "a"));
    assert!(!text_precedes("a", ""));
}

#[test]
fn dictionary_order_puts_no_text_before_itself() {
    assert!(!text_precedes("abc", "abc"));
    assert!(!text_precedes("", ""));
}
