//! The daemon's state: its configuration and its cache.

use vstd::prelude::*;
use crate::cache::Cache;
use crate::config::Config;
use crate::pipeline::SearchOutcome;
use crate::refresh::{begin_step, refresh_step, RefreshCycle, RefreshStep};
use crate::request::{
    finish, look_up, looked_up, status_of, Lookup, RequestFailure, Response, STATUS_OK,
};
use crate::text::texts;

verus! {

/// What the request handlers and the refresh cycle share: the
/// configuration, which does not change, and the cache, which they read
/// and write. Whoever shares it between tasks holds it only for the
/// length of one call: no call here waits for the directory.
pub struct AppState {
    pub config: Config,
    pub cache: Cache,
}

impl AppState {
    /// The state at start: the configuration and an empty cache.
    pub fn new(config: Config) -> (state: AppState)
        ensures
            state.config@ == config@,
            state.cache@ == Map::<Seq<char>, Seq<Seq<char>>>::empty(),
    {
        AppState { config, cache: Cache::new() }
    }

    /// Answers the request for `name` at `uri_path` from the cache, or
    /// says what is to be done for it.
    pub fn look_up(&self, uri_path: &str, name: &str) -> (found: Lookup)
        ensures
            found@ == looked_up(self.cache@, self.config@.endpoints, uri_path@, name@),
            found matches Lookup::Miss { endpoint, .. } ==> endpoint < self.config@.endpoints.len(),
    {
        look_up(&self.cache, self.config.endpoints(), uri_path, name)
    }

    /// Ends a request that missed the cache: caches and sends what the
    /// query gave, or answers the failure and leaves the cache as it was.
    pub fn finish(&mut self, key: String, outcome: Result<Vec<String>, RequestFailure>) -> (response:
        Response)
        ensures
            final(self).config == old(self).config,
            match outcome {
                Ok(values) => {
                    &&& final(self).cache@ == old(self).cache@.insert(key@, texts(values@))
                    &&& response.status == STATUS_OK
                    &&& texts(response.body@) == texts(values@)
                },
                Err(failure) => {
                    &&& final(self).cache@ == old(self).cache@
                    &&& response.status == status_of(failure)
                    &&& response.body@.len() == 0
                },
            },
    {
        finish(&mut self.cache, key, outcome)
    }

    /// Starts a refresh cycle over the keys that the cache holds now.
    pub fn begin_refresh(&self, connected: bool) -> (step: RefreshStep)
        ensures
            step@ == begin_step(connected, self.config@.endpoints, self.cache.key_order()),
    {
        RefreshCycle::begin(connected, &self.cache, self.config.endpoints())
    }

    /// Hands a refresh cycle the outcome of the search it asked for.
    pub fn advance_refresh(&mut self, cycle: RefreshCycle, outcome: SearchOutcome) -> (step:
        RefreshStep)
        ensures
            final(self).config == old(self).config,
            (step@, final(self).cache@) == refresh_step(
                old(self).config@.endpoints,
                cycle@,
                outcome@,
                old(self).cache@,
            ),
    {
        cycle.advance(outcome, &mut self.cache, self.config.endpoints())
    }
}

} // verus!
