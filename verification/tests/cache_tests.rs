use ldap_cache_daemon::cache::Cache;

fn list(values: &[&str]) -> Vec<String> {
    values.iter().map(|v| v.to_string()).collect()
}

#[test]
fn a_new_cache_is_empty() {
    let cache = Cache::new();
    assert_eq!(cache.len(), 0);
    assert_eq!(cache.get("/groups:eng"), None);
    assert!(cache.keys().is_empty());
    assert!(!cache.is_large());
}

#[test]
fn put_then_get_gives_the_same_values_in_order() {
    let mut cache = Cache::new();
    cache.put("/groups:eng".to_string(), list(&["b", "a", "b"]));
    assert_eq!(cache.get("/groups:eng"), Some(list(&["b", "a", "b"])));
}

#[test]
fn an_empty_list_is_cached() {
    let mut cache = Cache::new();
    cache.put("/groups:eng".to_string(), Vec::new());
    assert_eq!(cache.get("/groups:eng"), Some(Vec::new()));
    assert_eq!(cache.len(), 1);
}

#[test]
fn put_replaces_the_whole_entry() {
    let mut cache = Cache::new();
    cache.put("k".to_string(), list(&["a", "b", "c"]));
    cache.put("k".to_string(), list(&["d"]));
    assert_eq!(cache.get("k"), Some(list(&["d"])));
    assert_eq!(cache.len(), 1);
    assert_eq!(cache.keys(), list(&["k"]));
}

#[test]
fn put_leaves_other_keys_alone() {
    let mut cache = Cache::new();
    cache.put("a".to_string(), list(&["1"]));
    cache.put("b".to_string(), list(&["2"]));
    cache.put("a".to_string(), list(&["3"]));
    assert_eq!(cache.get("b"), Some(list(&["2"])));
    assert_eq!(cache.get("a"), Some(list(&["3"])));
    assert_eq!(cache.get("c"), None);
    assert_eq!(cache.len(), 2);
    let mut keys = cache.keys();
    keys.sort();
    assert_eq!(keys, list(&["a", "b"]));
}

#[test]
fn a_cache_is_large_above_a_hundred_entries() {
    let mut cache = Cache::new();
    for i in 0..100 {
        cache.put(format!("/g:{}", i), Vec::new());
    }
    assert_eq!(cache.len(), 100);
    assert!(!cache.is_large());
    cache.put("/g:0".to_string(), list(&["x"]));
    assert!(!cache.is_large());
    cache.put("/g:100".to_string(), Vec::new());
    assert_eq!(cache.len(), 101);
    assert!(cache.is_large());
    assert_eq!(cache.get("/g:100"), Some(Vec::new()));
}
