use ldap_cache_daemon::filter::{build_filter, count_placeholders};
use ldap_cache_daemon::key::{encode_key, CacheKey};
use ldap_cache_daemon::scope::{parse_scope, scope_from_word, SearchScope};
use ldap_cache_daemon::text::{
    append_texts, begins_with, chars_of, contains_char, copy_texts, same_text,
};

#[test]
fn chars_of_keeps_every_character() {
    assert_eq!(chars_of(""), Vec::<char>::new());
    assert_eq!(chars_of("a{}"), vec!['a', '{', '}']);
    assert_eq!(chars_of("é:ß"), vec!['é', ':', 'ß']);
}

#[test]
fn same_text_compares_characters() {
    assert!(same_text("", ""));
    assert!(same_text("abc", "abc"));
    assert!(!same_text("abc", "abd"));
    assert!(!same_text("abc", "ab"));
    assert!(!same_text("", "a"));
}

#[test]
fn begins_with_a_prefix() {
    assert!(begins_with("ldap://host", "ldap://"));
    assert!(begins_with("abc", ""));
    assert!(begins_with("abc", "abc"));
    assert!(!begins_with("ab", "abc"));
    assert!(!begins_with("xabc", "abc"));
}

#[test]
fn copy_and_append_texts() {
    let v = vec!["a".to_string(), String::new(), "a".to_string()];
    assert_eq!(copy_texts(&v), v);
    let mut list = vec!["x".to_string()];
    append_texts(&mut list, &v);
    assert_eq!(list, vec!["x", "a", "", "a"]);
    append_texts(&mut list, &Vec::new());
    assert_eq!(list.len(), 4);
}

#[test]
fn filter_with_one_placeholder() {
    assert_eq!(build_filter("(cn={})", "eng"), "(cn=eng)");
    assert_eq!(build_filter("{}", "eng"), "eng");
    assert_eq!(build_filter("{}x", "eng"), "engx");
    assert_eq!(build_filter("x{}", ""), "x");
    assert_eq!(build_filter("(cn={})", "é"), "(cn=é)");
}

#[test]
fn filter_keeps_a_placeholder_that_the_name_brings() {
    assert_eq!(build_filter("(cn={})", "{}"), "(cn={})");
    assert_eq!(build_filter("(cn={})", "a{}b"), "(cn=a{}b)");
}

#[test]
fn filter_without_placeholder_is_the_template() {
    assert_eq!(build_filter("(cn=x)", "eng"), "(cn=x)");
    assert_eq!(build_filter("", "eng"), "");
    assert_eq!(build_filter("{", "eng"), "{");
    assert_eq!(build_filter("}{", "eng"), "}{");
}

#[test]
fn filter_replaces_every_placeholder_from_the_left() {
    assert_eq!(build_filter("(|(cn={})(uid={}))", "a"), "(|(cn=a)(uid=a))");
    assert_eq!(build_filter("{{}}", "a"), "{a}");
    assert_eq!(build_filter("{}{}", "ab"), "abab");
    assert_eq!(build_filter("{{}", "a"), "{a");
}

#[test]
fn placeholders_are_counted() {
    assert_eq!(count_placeholders(""), 0);
    assert_eq!(count_placeholders("{"), 0);
    assert_eq!(count_placeholders("}{"), 0);
    assert_eq!(count_placeholders("(cn={})"), 1);
    assert_eq!(count_placeholders("{}{}"), 2);
    assert_eq!(count_placeholders("{{}}"), 1);
}

#[test]
fn scope_words() {
    assert_eq!(scope_from_word("base"), Some(SearchScope::Base));
    assert_eq!(scope_from_word("one"), Some(SearchScope::OneLevel));
    assert_eq!(scope_from_word("subtree"), Some(SearchScope::Subtree));
    assert_eq!(scope_from_word("Base"), None);
    assert_eq!(scope_from_word(""), None);
    assert_eq!(scope_from_word("sub"), None);
}

#[test]
fn scope_is_parsed_whatever_the_case() {
    assert_eq!(parse_scope("base"), Some(SearchScope::Base));
    assert_eq!(parse_scope("BASE"), Some(SearchScope::Base));
    assert_eq!(parse_scope("SubTree"), Some(SearchScope::Subtree));
    assert_eq!(parse_scope("ONE"), Some(SearchScope::OneLevel));
    assert_eq!(parse_scope("children"), None);
    assert_eq!(parse_scope(""), None);
}

#[test]
fn key_is_path_colon_name() {
    assert_eq!(encode_key("/groups", "eng"), "/groups:eng");
    assert_eq!(encode_key("", ""), ":");
    let key = CacheKey { endpoint_path: "/users".to_string(), name: "ann".to_string() };
    assert_eq!(key.encode(), "/users:ann");
}

#[test]
fn key_round_trip() {
    let parts = CacheKey::decode(&encode_key("/groups", "eng")).unwrap();
    assert_eq!(parts.endpoint_path, "/groups");
    assert_eq!(parts.name, "eng");
    let parts = CacheKey::decode(":").unwrap();
    assert_eq!(parts.endpoint_path, "");
    assert_eq!(parts.name, "");
    let parts = CacheKey::decode("/g:é").unwrap();
    assert_eq!(parts.encode(), "/g:é");
}

#[test]
fn key_with_no_or_several_separators_is_refused() {
    assert!(CacheKey::decode("").is_none());
    assert!(CacheKey::decode("/groups").is_none());
    assert!(CacheKey::decode("/groups:a:b").is_none());
    assert!(CacheKey::decode("::").is_none());
    assert!(CacheKey::decode(&encode_key("/groups", "a:b")).is_none());
}

#[test]
fn contains_char_finds_a_character() {
    assert!(contains_char("a:b", ':'));
    assert!(contains_char(":", ':'));
    assert!(!contains_char("", ':'));
    assert!(!contains_char("ab", ':'));
    assert!(contains_char("é", 'é'));
}
