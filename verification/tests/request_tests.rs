use ldap_cache_daemon::cache::Cache;
use ldap_cache_daemon::config::EndpointConfig;
use ldap_cache_daemon::pipeline::{Pipeline, PipelineStep, QueryFailure, SearchOutcome};
use ldap_cache_daemon::refresh::{RefreshCycle, RefreshReport, RefreshStep};
use ldap_cache_daemon::request::{
    endpoint_path_of, finish, look_up, respond, route_pattern, Lookup, RequestFailure,
    STATUS_BAD_GATEWAY, STATUS_BAD_REQUEST, STATUS_NOT_FOUND, STATUS_OK,
    STATUS_SERVICE_UNAVAILABLE,
};

fn list(values: &[&str]) -> Vec<String> {
    values.iter().map(|v| v.to_string()).collect()
}

fn endpoints() -> Vec<EndpointConfig> {
    vec![
        EndpointConfig::new(
            "/users".to_string(),
            "ou=users".to_string(),
            "(uid={})".to_string(),
            "one".to_string(),
            "mail".to_string(),
            None,
        ),
        EndpointConfig::new(
            "/groups".to_string(),
            "ou=groups".to_string(),
            "(cn={})".to_string(),
            "subtree".to_string(),
            "member".to_string(),
            None,
        ),
    ]
}

#[test]
fn the_endpoint_is_the_first_segment() {
    assert_eq!(endpoint_path_of("/groups/eng"), "/groups");
    assert_eq!(endpoint_path_of("/groups"), "/groups");
    assert_eq!(endpoint_path_of("groups/eng"), "/groups");
    assert_eq!(endpoint_path_of("//groups//eng"), "/groups");
    assert_eq!(endpoint_path_of("/groups/eng/more"), "/groups");
}

#[test]
fn a_path_without_a_segment_names_the_root() {
    assert_eq!(endpoint_path_of(""), "/");
    assert_eq!(endpoint_path_of("/"), "/");
    assert_eq!(endpoint_path_of("///"), "/");
}

#[test]
fn the_route_has_a_segment_for_the_name() {
    assert_eq!(route_pattern("/groups"), "/groups/:name");
    assert_eq!(route_pattern(""), "/:name");
}

#[test]
fn a_miss_names_the_key_and_the_endpoint() {
    let cache = Cache::new();
    match look_up(&cache, &endpoints(), "/groups/eng", "eng") {
        Lookup::Miss { key, endpoint } => {
            assert_eq!(key, "/groups:eng");
            assert_eq!(endpoint, 1);
        }
        other => panic!("expected a miss, got {:?}", other),
    }
}

#[test]
fn a_hit_gives_the_cached_values() {
    let mut cache = Cache::new();
    cache.put("/groups:eng".to_string(), list(&["b", "a"]));
    match look_up(&cache, &endpoints(), "/groups/eng", "eng") {
        Lookup::Hit { values } => assert_eq!(values, list(&["b", "a"])),
        other => panic!("expected a hit, got {:?}", other),
    }
    assert!(matches!(look_up(&cache, &endpoints(), "/groups/ops", "ops"), Lookup::Miss { .. }));
    assert!(matches!(look_up(&cache, &endpoints(), "/users/eng", "eng"), Lookup::Miss { .. }));
}

#[test]
fn a_cached_empty_list_is_a_hit() {
    let mut cache = Cache::new();
    cache.put("/groups:eng".to_string(), Vec::new());
    match look_up(&cache, &endpoints(), "/groups/eng", "eng") {
        Lookup::Hit { values } => assert!(values.is_empty()),
        other => panic!("expected a hit, got {:?}", other),
    }
}

#[test]
fn a_hit_is_served_whatever_the_endpoints_are() {
    let mut cache = Cache::new();
    cache.put("/hosts:web".to_string(), list(&["10.0.0.1"]));
    assert!(matches!(look_up(&cache, &endpoints(), "/hosts/web", "web"), Lookup::Hit { .. }));
}

#[test]
fn a_path_that_no_endpoint_serves() {
    let cache = Cache::new();
    assert!(matches!(
        look_up(&cache, &endpoints(), "/hosts/web", "web"),
        Lookup::UnknownEndpoint
    ));
    assert!(matches!(look_up(&cache, &endpoints(), "/", "web"), Lookup::UnknownEndpoint));
}

#[test]
fn found_values_are_cached_and_sent() {
    let mut cache = Cache::new();
    let response = finish(&mut cache, "/groups:eng".to_string(), Ok(list(&["b", "a"])));
    assert_eq!(response.status, STATUS_OK);
    assert_eq!(response.status, 200);
    assert_eq!(response.body, list(&["b", "a"]));
    assert_eq!(cache.get("/groups:eng"), Some(list(&["b", "a"])));
}

#[test]
fn failures_are_answered_and_not_cached() {
    let mut cache = Cache::new();
    cache.put("/groups:ops".to_string(), list(&["x"]));
    let response = finish(&mut cache, "/groups:eng".to_string(), Err(RequestFailure::Connection));
    assert_eq!(response.status, STATUS_SERVICE_UNAVAILABLE);
    assert_eq!(response.status, 503);
    assert!(response.body.is_empty());
    let response = finish(
        &mut cache,
        "/groups:eng".to_string(),
        Err(RequestFailure::Query(QueryFailure::ChainedLookup { index: 1 })),
    );
    assert_eq!(response.status, STATUS_BAD_GATEWAY);
    assert_eq!(response.status, 502);
    assert!(response.body.is_empty());
    let response =
        finish(&mut cache, "/hosts:web".to_string(), Err(RequestFailure::UnknownEndpoint));
    assert_eq!(response.status, STATUS_NOT_FOUND);
    assert_eq!(response.status, 404);
    assert_eq!(cache.get("/groups:eng"), None);
    assert_eq!(cache.get("/hosts:web"), None);
    assert_eq!(cache.get("/groups:ops"), Some(list(&["x"])));
    assert_eq!(cache.len(), 1);
}

#[test]
fn a_failure_leaves_a_cached_answer_in_place() {
    let mut cache = Cache::new();
    cache.put("/groups:eng".to_string(), list(&["old"]));
    let response = finish(
        &mut cache,
        "/groups:eng".to_string(),
        Err(RequestFailure::Query(QueryFailure::PrimarySearch)),
    );
    assert_eq!(response.status, 502);
    assert_eq!(cache.get("/groups:eng"), Some(list(&["old"])));
}

#[test]
fn a_cached_answer_is_sent_as_it_is() {
    let response = respond(list(&["b", "a", "b"]));
    assert_eq!(response.status, 200);
    assert_eq!(response.body, list(&["b", "a", "b"]));
}

#[test]
fn no_match_is_cached_as_an_empty_list_and_sent_with_ok() {
    let endpoints = vec![EndpointConfig::new(
        "/groups".to_string(),
        "ou=groups,dc=example,dc=com".to_string(),
        "(cn={})".to_string(),
        "subtree".to_string(),
        "member".to_string(),
        None,
    )];
    let mut cache = Cache::new();
    let (key, endpoint) = match look_up(&cache, &endpoints, "/groups/eng", "eng") {
        Lookup::Miss { key, endpoint } => (key, endpoint),
        other => panic!("expected a miss, got {:?}", other),
    };
    let (pipeline, request) = Pipeline::start(&endpoints[endpoint], "eng");
    assert_eq!(request.filter, "(cn=eng)");
    assert_eq!(request.scope, "subtree");
    assert_eq!(request.attribute, "member");
    let outcome = match pipeline.advance(SearchOutcome::Found(Vec::new())) {
        PipelineStep::Done { values, .. } => Ok(values),
        PipelineStep::Failed(failure) => Err(RequestFailure::Query(failure)),
        PipelineStep::Search { .. } => panic!("no second search is configured"),
    };
    let response = finish(&mut cache, key, outcome);
    assert_eq!(response.status, 200);
    assert_eq!(response.body, Vec::<String>::new());
    assert_eq!(cache.get("/groups:eng"), Some(Vec::new()));
    assert!(matches!(
        look_up(&cache, &endpoints, "/groups/eng", "eng"),
        Lookup::Hit { values } if values.is_empty()
    ));
}

#[test]
fn a_separator_in_the_name_or_the_path_is_refused() {
    let mut cache = Cache::new();
    cache.put("/groups:a:b".to_string(), list(&["x"]));
    assert!(matches!(look_up(&cache, &endpoints(), "/groups/a:b", "a:b"), Lookup::SeparatorInKey));
    assert!(matches!(look_up(&cache, &endpoints(), "/groups:a/b", "b"), Lookup::SeparatorInKey));
    assert!(matches!(look_up(&cache, &endpoints(), "/groups/x", ":"), Lookup::SeparatorInKey));
    assert!(matches!(look_up(&cache, &endpoints(), "/groups/a:b", "ab"), Lookup::Miss { .. }));
    let response = finish(&mut cache, String::new(), Err(RequestFailure::SeparatorInKey));
    assert_eq!(response.status, STATUS_BAD_REQUEST);
    assert_eq!(response.status, 400);
    assert!(response.body.is_empty());
    assert_eq!(cache.len(), 1);
}

#[test]
fn what_a_request_caches_the_next_cycle_refreshes() {
    let endpoints = endpoints();
    let mut cache = Cache::new();
    let key = match look_up(&cache, &endpoints, "/groups/eng", "eng") {
        Lookup::Miss { key, .. } => key,
        other => panic!("expected a miss, got {:?}", other),
    };
    finish(&mut cache, key, Ok(list(&["old"])));
    let step = match RefreshCycle::begin(true, &cache, &endpoints) {
        RefreshStep::Search { cycle, request } => {
            assert_eq!(request.base, "ou=groups");
            assert_eq!(request.filter, "(cn=eng)");
            cycle.advance(SearchOutcome::Found(list(&["new"])), &mut cache, &endpoints)
        }
        _ => panic!("the cycle has a key to ask for"),
    };
    assert!(matches!(step, RefreshStep::Finished(RefreshReport { refreshed: 1, errors: 0 })));
    assert_eq!(cache.get("/groups:eng"), Some(list(&["new"])));
}
