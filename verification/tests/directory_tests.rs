use ldap_cache_daemon::directory::{
    collect_values, count_matches, Attribute, DirectoryEntry, MatchCount,
};

fn list(values: &[&str]) -> Vec<String> {
    values.iter().map(|v| v.to_string()).collect()
}

fn entry(dn: &str, attributes: &[(&str, &[&str])]) -> DirectoryEntry {
    DirectoryEntry {
        dn: dn.to_string(),
        attributes: attributes
            .iter()
            .map(|(name, values)| Attribute { name: name.to_string(), values: list(values) })
            .collect(),
    }
}

#[test]
fn no_entry_gives_no_value() {
    assert_eq!(collect_values(&Vec::new(), "member"), Vec::<String>::new());
}

#[test]
fn values_of_one_entry() {
    let entries = vec![entry("cn=eng", &[("cn", &["eng"]), ("member", &["b", "a"])])];
    assert_eq!(collect_values(&entries, "member"), list(&["b", "a"]));
    assert_eq!(collect_values(&entries, "cn"), list(&["eng"]));
}

#[test]
fn an_entry_without_the_attribute_gives_nothing() {
    let entries = vec![entry("cn=eng", &[("cn", &["eng"])])];
    assert_eq!(collect_values(&entries, "member"), Vec::<String>::new());
    assert_eq!(collect_values(&entries, "CN"), Vec::<String>::new());
}

#[test]
fn values_of_several_entries_in_the_order_of_the_entries() {
    let entries = vec![
        entry("cn=a", &[("member", &["1", "2"])]),
        entry("cn=b", &[("cn", &["b"])]),
        entry("cn=c", &[("member", &["2", "3"])]),
    ];
    assert_eq!(collect_values(&entries, "member"), list(&["1", "2", "2", "3"]));
}

#[test]
fn append_values_adds_to_what_is_there() {
    let e = entry("cn=a", &[("member", &["1"]), ("member", &["9"])]);
    let mut values = list(&["0"]);
    e.append_values("member", &mut values);
    assert_eq!(values, list(&["0", "1"]));
    e.append_values("uid", &mut values);
    assert_eq!(values, list(&["0", "1"]));
}

#[test]
fn matches_are_counted() {
    assert_eq!(count_matches(0), MatchCount::Zero);
    assert_eq!(count_matches(1), MatchCount::One);
    assert_eq!(count_matches(2), MatchCount::Many);
    assert_eq!(count_matches(usize::MAX), MatchCount::Many);
}
