use ldap_cache_daemon::config::{Config, EndpointConfig, LdapConfig, ServerConfig};
use ldap_cache_daemon::pipeline::SearchOutcome;
use ldap_cache_daemon::refresh::{RefreshReport, RefreshStep};
use ldap_cache_daemon::request::{Lookup, RequestFailure};
use ldap_cache_daemon::state::AppState;

fn list(values: &[&str]) -> Vec<String> {
    values.iter().map(|v| v.to_string()).collect()
}

fn state() -> AppState {
    AppState::new(Config::new(
        LdapConfig::new("ldap://h".to_string(), "cn=a".to_string(), "s".to_string()),
        ServerConfig::new("127.0.0.1:8080".to_string(), 180),
        vec![EndpointConfig::new(
            "/users".to_string(),
            "ou=users".to_string(),
            "(uid={})".to_string(),
            "one".to_string(),
            "mail".to_string(),
            None,
        )],
    ))
}

#[test]
fn a_request_misses_first_and_hits_then() {
    let mut state = state();
    let key = match state.look_up("/users/ann", "ann") {
        Lookup::Miss { key, endpoint } => {
            assert_eq!(endpoint, 0);
            key
        }
        other => panic!("expected a miss, got {:?}", other),
    };
    let response = state.finish(key, Ok(list(&["ann@example.com"])));
    assert_eq!(response.status, 200);
    match state.look_up("/users/ann", "ann") {
        Lookup::Hit { values } => assert_eq!(values, list(&["ann@example.com"])),
        other => panic!("expected a hit, got {:?}", other),
    }
}

#[test]
fn a_failed_request_is_asked_again_next_time() {
    let mut state = state();
    let response = state.finish("/users:ann".to_string(), Err(RequestFailure::Connection));
    assert_eq!(response.status, 503);
    assert!(matches!(state.look_up("/users/ann", "ann"), Lookup::Miss { .. }));
}

#[test]
fn a_refresh_goes_over_the_state() {
    let mut state = state();
    state.cache.put("/users:ann".to_string(), list(&["old"]));
    assert!(matches!(state.begin_refresh(false), RefreshStep::Aborted));
    let step = match state.begin_refresh(true) {
        RefreshStep::Search { cycle, request } => {
            assert_eq!(request.filter, "(uid=ann)");
            state.advance_refresh(cycle, SearchOutcome::Found(list(&["new"])))
        }
        _ => panic!("the cycle has a key to ask for"),
    };
    assert!(matches!(step, RefreshStep::Finished(RefreshReport { refreshed: 1, errors: 0 })));
    assert_eq!(state.cache.get("/users:ann"), Some(list(&["new"])));
    assert_eq!(state.config.endpoints().len(), 1);
}
