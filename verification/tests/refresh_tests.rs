use ldap_cache_daemon::cache::Cache;
use ldap_cache_daemon::config::{EndpointConfig, ResultProcessing};
use ldap_cache_daemon::pipeline::{SearchOutcome, SearchRequest};
use ldap_cache_daemon::refresh::{RefreshCycle, RefreshReport, RefreshStep, RefreshTimer};

fn list(values: &[&str]) -> Vec<String> {
    values.iter().map(|v| v.to_string()).collect()
}

fn endpoints() -> Vec<EndpointConfig> {
    vec![
        EndpointConfig::new(
            "/groups".to_string(),
            "ou=groups".to_string(),
            "(cn={})".to_string(),
            "subtree".to_string(),
            "member".to_string(),
            Some(ResultProcessing::new("dn_translation".to_string(), "uid".to_string())),
        ),
        EndpointConfig::new(
            "/users".to_string(),
            "ou=users".to_string(),
            "(uid={})".to_string(),
            "one".to_string(),
            "mail".to_string(),
            None,
        ),
    ]
}

/// Runs a whole cycle against a directory that is given as a function.
fn run(
    connected: bool,
    cache: &mut Cache,
    endpoints: &Vec<EndpointConfig>,
    directory: &dyn Fn(&SearchRequest) -> Option<Vec<String>>,
) -> (Option<RefreshReport>, Vec<SearchRequest>) {
    let mut asked = Vec::new();
    let mut step = RefreshCycle::begin(connected, cache, endpoints);
    loop {
        match step {
            RefreshStep::Search { cycle, request } => {
                let outcome = match directory(&request) {
                    Some(values) => SearchOutcome::Found(values),
                    None => SearchOutcome::Failed,
                };
                asked.push(request);
                step = cycle.advance(outcome, cache, endpoints);
            }
            RefreshStep::Finished(report) => return (Some(report), asked),
            RefreshStep::Aborted => return (None, asked),
        }
    }
}

#[test]
fn without_a_connection_the_cycle_is_given_up() {
    let mut cache = Cache::new();
    cache.put("/users:ann".to_string(), list(&["old"]));
    let (report, asked) = run(false, &mut cache, &endpoints(), &|_| Some(list(&["new"])));
    assert_eq!(report, None);
    assert!(asked.is_empty());
    assert_eq!(cache.get("/users:ann"), Some(list(&["old"])));
}

#[test]
fn an_empty_cache_is_finished_at_once() {
    let mut cache = Cache::new();
    let (report, asked) = run(true, &mut cache, &endpoints(), &|_| None);
    assert_eq!(report, Some(RefreshReport { refreshed: 0, errors: 0 }));
    assert!(asked.is_empty());
    assert_eq!(cache.len(), 0);
}

#[test]
fn every_key_is_asked_for_again() {
    let mut cache = Cache::new();
    cache.put("/users:ann".to_string(), list(&["old"]));
    cache.put("/users:bob".to_string(), Vec::new());
    let directory = |request: &SearchRequest| {
        assert_eq!(request.base, "ou=users");
        assert_eq!(request.scope, "one");
        assert_eq!(request.attribute, "mail");
        match request.filter.as_str() {
            "(uid=ann)" => Some(list(&["ann@example.com"])),
            "(uid=bob)" => Some(list(&["bob@example.com", "b@example.com"])),
            _ => None,
        }
    };
    let (report, asked) = run(true, &mut cache, &endpoints(), &directory);
    assert_eq!(report, Some(RefreshReport { refreshed: 2, errors: 0 }));
    assert_eq!(asked.len(), 2);
    assert_eq!(cache.get("/users:ann"), Some(list(&["ann@example.com"])));
    assert_eq!(cache.get("/users:bob"), Some(list(&["bob@example.com", "b@example.com"])));
    assert_eq!(cache.len(), 2);
}

#[test]
fn a_failed_query_leaves_its_entry_and_the_others_are_refreshed() {
    let mut cache = Cache::new();
    cache.put("/users:a".to_string(), list(&["old-a"]));
    cache.put("/users:b".to_string(), list(&["old-b"]));
    let directory = |request: &SearchRequest| match request.filter.as_str() {
        "(uid=b)" => Some(list(&["new-b"])),
        _ => None,
    };
    let (report, _) = run(true, &mut cache, &endpoints(), &directory);
    assert_eq!(report, Some(RefreshReport { refreshed: 1, errors: 1 }));
    assert_eq!(cache.get("/users:a"), Some(list(&["old-a"])));
    assert_eq!(cache.get("/users:b"), Some(list(&["new-b"])));
}

#[test]
fn a_failed_chained_lookup_leaves_the_entry_whole() {
    let mut cache = Cache::new();
    cache.put("/groups:eng".to_string(), list(&["old"]));
    let directory = |request: &SearchRequest| match request.base.as_str() {
        "ou=groups" => Some(list(&["dn1", "dn2"])),
        "dn1" => Some(list(&["u1"])),
        _ => None,
    };
    let (report, asked) = run(true, &mut cache, &endpoints(), &directory);
    assert_eq!(report, Some(RefreshReport { refreshed: 0, errors: 1 }));
    assert_eq!(asked.len(), 3);
    assert_eq!(cache.get("/groups:eng"), Some(list(&["old"])));
}

#[test]
fn a_chained_query_is_written_when_it_is_through() {
    let mut cache = Cache::new();
    cache.put("/groups:eng".to_string(), list(&["old"]));
    let directory = |request: &SearchRequest| match request.base.as_str() {
        "ou=groups" => Some(list(&["dn1", "dn2"])),
        "dn1" => Some(list(&["u1"])),
        "dn2" => Some(list(&["u2"])),
        _ => None,
    };
    let (report, asked) = run(true, &mut cache, &endpoints(), &directory);
    assert_eq!(report, Some(RefreshReport { refreshed: 1, errors: 0 }));
    assert_eq!(asked.len(), 3);
    assert_eq!(cache.get("/groups:eng"), Some(list(&["u1", "u2"])));
}

#[test]
fn keys_that_cannot_be_read_are_passed_over_as_errors() {
    let mut cache = Cache::new();
    cache.put("/users".to_string(), list(&["x"]));
    cache.put("/users:a:b".to_string(), list(&["y"]));
    cache.put("/users:ann".to_string(), list(&["z"]));
    let (report, asked) = run(true, &mut cache, &endpoints(), &|_| Some(list(&["new"])));
    assert_eq!(report, Some(RefreshReport { refreshed: 1, errors: 2 }));
    assert_eq!(asked.len(), 1);
    assert_eq!(cache.get("/users"), Some(list(&["x"])));
    assert_eq!(cache.get("/users:a:b"), Some(list(&["y"])));
    assert_eq!(cache.get("/users:ann"), Some(list(&["new"])));
}

#[test]
fn keys_of_an_endpoint_that_is_gone_are_passed_over_as_errors() {
    let mut cache = Cache::new();
    cache.put("/hosts:web".to_string(), list(&["x"]));
    let (report, asked) = run(true, &mut cache, &endpoints(), &|_| Some(list(&["new"])));
    assert_eq!(report, Some(RefreshReport { refreshed: 0, errors: 1 }));
    assert!(asked.is_empty());
    assert_eq!(cache.get("/hosts:web"), Some(list(&["x"])));
}

#[test]
fn an_empty_answer_replaces_the_entry() {
    let mut cache = Cache::new();
    cache.put("/users:ann".to_string(), list(&["old"]));
    let (report, _) = run(true, &mut cache, &endpoints(), &|_| Some(Vec::new()));
    assert_eq!(report, Some(RefreshReport { refreshed: 1, errors: 0 }));
    assert_eq!(cache.get("/users:ann"), Some(Vec::new()));
}

#[test]
fn a_key_that_comes_in_during_the_cycle_waits_for_the_next() {
    let mut cache = Cache::new();
    cache.put("/users:ann".to_string(), list(&["old"]));
    let eps = endpoints();
    let step = RefreshCycle::begin(true, &cache, &eps);
    cache.put("/users:bob".to_string(), list(&["fresh"]));
    let step = match step {
        RefreshStep::Search { cycle, request } => {
            assert_eq!(request.filter, "(uid=ann)");
            cycle.advance(SearchOutcome::Found(list(&["new"])), &mut cache, &eps)
        }
        _ => panic!("the cycle has a key to ask for"),
    };
    assert!(matches!(step, RefreshStep::Finished(RefreshReport { refreshed: 1, errors: 0 })));
    assert_eq!(cache.get("/users:ann"), Some(list(&["new"])));
    assert_eq!(cache.get("/users:bob"), Some(list(&["fresh"])));
}

#[test]
fn the_first_cycle_waits_for_the_second_tick() {
    let mut timer = RefreshTimer::new();
    assert!(!timer.tick());
    assert!(timer.tick());
    assert!(timer.tick());
}
