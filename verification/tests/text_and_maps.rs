use moonshine::css::Declarations;
use moonshine::strmap::StrMap;
use moonshine::text::{contains, less_than, replace, replace_once, same_text, starts_with, trim};

#[test]
fn replace_every_occurrence() {
    assert_eq!(replace("a{{ KEY }}b{{ KEY }}", "{{ KEY }}", "x"), "axbx");
    assert_eq!(replace("aaa", "aa", "b"), "ba");
    assert_eq!(replace("abc", "", "-"), "-a-b-c-");
    assert_eq!(replace("", "", "-"), "-");
    assert_eq!(replace("abc", "z", "y"), "abc");
    assert_eq!(replace("héllo wörld", "ö", "o"), "héllo world");
}

#[test]
fn replace_with_itself_changes_nothing() {
    assert_eq!(replace("a.b.c", ".", "."), "a.b.c");
    assert_eq!(replace("--{{ KEY }}--", "{{ KEY }}", "{{ KEY }}"), "--{{ KEY }}--");
}

#[test]
fn replace_once_only_the_first() {
    assert_eq!(replace_once(".a.b", ".", ""), "a.b");
    assert_eq!(replace_once("x.a.b", ".", "pre-"), "xpre-a.b");
    assert_eq!(replace_once("abc", ".", ""), "abc");
    assert_eq!(replace_once("abc", "", "-"), "-abc");
}

#[test]
fn containment_and_prefixes() {
    assert!(contains("bg-blue__non_atom__", "__non_atom__"));
    assert!(!contains("bg-blue", "__non_atom__"));
    assert!(contains("abc", ""));
    assert!(starts_with(".bg", "."));
    assert!(!starts_with("bg.", "."));
    assert!(same_text("abc", "abc"));
    assert!(!same_text("abc", "abd"));
}

#[test]
fn trimming_whitespace() {
    assert_eq!(trim("  a b \n"), "a b");
    assert_eq!(trim("\u{3000}x\u{a0}"), "x");
    assert_eq!(trim(" \t "), "");
    assert_eq!(trim("x"), "x");
}

#[test]
fn order_of_strings() {
    assert!(less_than("a", "b"));
    assert!(less_than("ab", "abc"));
    assert!(!less_than("abc", "ab"));
    assert!(!less_than("a", "a"));
    assert!(less_than("", "a"));
    assert!(less_than("Z", "a"));
    assert!(less_than("é", "ü"));
}

#[test]
fn map_keeps_keys_sorted_and_last_value_wins() {
    let mut m: StrMap<String> = StrMap::new();
    m.insert("red".to_string(), "#f00".to_string());
    m.insert("blue".to_string(), "#00f".to_string());
    m.insert("green".to_string(), "#0f0".to_string());
    m.insert("blue".to_string(), "#00e".to_string());
    assert_eq!(m.len(), 3);
    assert_eq!(m.key_at(0), "blue");
    assert_eq!(m.key_at(1), "green");
    assert_eq!(m.key_at(2), "red");
    assert_eq!(m.value_at(0), "#00e");
    assert_eq!(m.get("green"), Some(&"#0f0".to_string()));
    assert_eq!(m.get("black"), None);
    let copy = m.duplicate();
    assert_eq!(copy.len(), 3);
    assert_eq!(copy.get("red"), Some(&"#f00".to_string()));
}

#[test]
fn declarations_in_property_order_and_in_writing_order() {
    let mut sorted = Declarations::new();
    sorted.insert("padding-left".to_string(), "0".to_string());
    sorted.insert("padding".to_string(), "1rem".to_string());
    sorted.insert("padding-left".to_string(), "2px".to_string());
    assert_eq!(sorted.len(), 2);
    assert_eq!(sorted.key_at(0), "padding");
    assert_eq!(sorted.key_at(1), "padding-left");
    assert_eq!(sorted.get("padding-left"), Some(&"2px".to_string()));
    let mut written = Declarations::new();
    written.insert_in_order("padding-left".to_string(), "0".to_string());
    written.insert_in_order("padding".to_string(), "1rem".to_string());
    written.insert_in_order("padding-left".to_string(), "2px".to_string());
    assert_eq!(written.len(), 2);
    assert_eq!(written.key_at(0), "padding-left");
    assert_eq!(written.value_at(0), "2px");
    assert_eq!(written.key_at(1), "padding");
    assert_eq!(written.get("margin"), None);
    let copy = written.duplicate();
    assert_eq!(copy.key_at(1), "padding");
    assert_eq!(copy.value_at(1), "1rem");
}
