use wovensnake::engine::strmap::StrMap;
use wovensnake::engine::text::{
    canonical_name, chars_of, collapse_separators, contains, ends_with, less, same_text,
    starts_with, string_of, take_until, trim,
};

fn cs(s: &str) -> Vec<char> {
    s.chars().collect()
}

#[test]
fn canonical_name_lowers_and_collapses() {
    assert_eq!(canonical_name("Flask"), "flask");
    assert_eq!(canonical_name("typing-extensions"), "typing_extensions");
    assert_eq!(canonical_name("zope.interface"), "zope_interface");
    assert_eq!(canonical_name("A--B__c..D"), "a_b_c_d");
    assert_eq!(canonical_name("a-_.b"), "a_b");
    assert_eq!(canonical_name(""), "");
    assert_eq!(canonical_name("_distutils_hack"), "_distutils_hack");
}

#[test]
fn canonical_name_is_idempotent_on_samples() {
    for name in ["Flask", "ruamel.yaml", "A--B", "pkg_resources", "Django-REST_framework"] {
        let once = canonical_name(name);
        assert_eq!(canonical_name(&once), once);
    }
}

#[test]
fn collapse_keeps_other_characters() {
    assert_eq!(string_of(&collapse_separators(&cs("a b-c"))), "a b_c");
    assert_eq!(string_of(&collapse_separators(&cs("---"))), "_");
}

#[test]
fn chars_round_trip() {
    let text = "päckage-ñ";
    assert_eq!(string_of(&chars_of(text)), text);
    assert_eq!(chars_of(text).len(), 9);
}

#[test]
fn prefix_suffix_infix() {
    assert!(ends_with(&cs("six-1.16.0.tar.gz"), &cs(".tar.gz")));
    assert!(!ends_with(&cs("gz"), &cs(".tar.gz")));
    assert!(starts_with(&cs("Python 3.12.1"), &cs("Python 3.12")));
    assert!(!starts_with(&cs("Py"), &cs("Python")));
    assert!(contains(&cs("numpy-1.24-cp311-win_amd64.whl"), &cs("win_amd64")));
    assert!(!contains(&cs("numpy-1.24-cp311-win_amd6.whl"), &cs("win_amd64")));
    assert!(contains(&cs("abc"), &cs("")));
    assert!(contains(&cs("aab"), &cs("ab")));
}

#[test]
fn take_until_stops_at_first_delimiter() {
    assert_eq!(string_of(&take_until(&cs("six-1.16.0.dist-info"), &cs("-"))), "six");
    assert_eq!(string_of(&take_until(&cs("requests"), &cs(";<>"))), "requests");
    assert_eq!(string_of(&take_until(&cs(";x"), &cs(";"))), "");
}

#[test]
fn trim_strips_both_ends() {
    assert_eq!(string_of(&trim(&cs("  a b\t\n"))), "a b");
    assert_eq!(string_of(&trim(&cs(" \u{a0}\u{3000} "))), "");
    assert_eq!(string_of(&trim(&cs("x"))), "x");
}

#[test]
fn order_is_lexicographic() {
    assert!(less(&cs("a"), &cs("b")));
    assert!(less(&cs("a"), &cs("aa")));
    assert!(less(&cs(""), &cs("a")));
    assert!(!less(&cs("a"), &cs("a")));
    assert!(!less(&cs("b"), &cs("aa")));
    assert!(less(&cs("Z"), &cs("a")));
    for (a, b) in [("flask", "jinja2"), ("a-b", "a_b"), ("abc", "abd"), ("é", "z")] {
        assert_eq!(less(&cs(a), &cs(b)), a < b);
        assert_eq!(less(&cs(b), &cs(a)), b < a);
    }
}

#[test]
fn same_text_compares_content() {
    assert!(same_text("abc", "abc"));
    assert!(!same_text("abc", "abd"));
    assert!(!same_text("abc", "ab"));
}

#[test]
fn map_keeps_keys_in_order() {
    let mut m: StrMap<u32> = StrMap::new();
    assert!(m.is_empty());
    assert_eq!(m.insert("requests".to_string(), 2), None);
    assert_eq!(m.insert("flask".to_string(), 1), None);
    assert_eq!(m.insert("jinja2".to_string(), 3), None);
    assert_eq!(m.len(), 3);
    assert_eq!(m.key_at(0), "flask");
    assert_eq!(m.key_at(1), "jinja2");
    assert_eq!(m.key_at(2), "requests");
    assert_eq!(*m.value_at(1), 3);
}

#[test]
fn map_insert_replaces_and_returns_previous() {
    let mut m: StrMap<u32> = StrMap::new();
    m.insert("a".to_string(), 1);
    assert_eq!(m.insert("a".to_string(), 2), Some(1));
    assert_eq!(m.len(), 1);
    assert_eq!(m.get("a"), Some(&2));
}

#[test]
fn map_remove_and_lookup() {
    let mut m: StrMap<u32> = StrMap::new();
    m.insert("a".to_string(), 1);
    m.insert("b".to_string(), 2);
    assert!(m.contains_key("a"));
    assert!(!m.contains_key("c"));
    assert_eq!(m.get("c"), None);
    assert_eq!(m.remove("a"), Some(1));
    assert_eq!(m.remove("a"), None);
    assert_eq!(m.len(), 1);
    assert_eq!(m.key_at(0), "b");
}
