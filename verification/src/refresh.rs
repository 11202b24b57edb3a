//! The refresh cycle: every key of the cache is asked for again.
//!
//! A cycle starts when the connection to the directory stands. It takes
//! the keys that the cache holds at that moment and, key by key, runs the
//! query pipeline over that one connection. What a query gives replaces
//! the entry of its key; a query that fails leaves the entry as it was. A
//! key that cannot be read, or whose endpoint is gone, is passed over.
//! Both count as errors, and neither ends the cycle.
//!
//! Like the pipeline, the cycle says which search to make and is told
//! what the search brought back.

use vstd::prelude::*;
use crate::cache::Cache;
use crate::config::{
    endpoint_views, endpoint_with_path, find_endpoint, EndpointConfig, EndpointView,
};
use crate::key::{decoded_key, lemma_decode_encoded, CacheKey};
use crate::pipeline::{
    driven, executed, first_step, lemma_driven_last, lemma_pipeline_executes, next_step,
    step_rank, step_remaining, Pipeline, PipelineStep, PipelineView, SearchOutcome,
    SearchRequest, SearchRequestView, StepView,
};
use crate::request::looked_up;
use crate::text::texts;

verus! {

/// Says at each tick of the refresh timer whether a cycle is due. The
/// timer ticks once at start and then once per interval; the tick at
/// start is let pass, so that the first cycle runs when a whole interval
/// has gone by.
pub struct RefreshTimer {
    started: bool,
}

impl RefreshTimer {
    /// Whether the tick at start has been seen.
    pub closed spec fn started(&self) -> bool {
        self.started
    }

    /// A timer that has seen no tick.
    pub fn new() -> (timer: RefreshTimer)
        ensures
            !timer.started(),
    {
        RefreshTimer { started: false }
    }

    /// Takes a tick and says whether a cycle is to run now: at every
    /// tick but the first.
    pub fn tick(&mut self) -> (due: bool)
        ensures
            due == old(self).started(),
            final(self).started(),
    {
        let due = self.started;
        self.started = true;
        due
    }
}

/// How a cycle went.
#[derive(Clone, Copy, Debug, PartialEq, Eq, Structural)]
pub struct RefreshReport {
    /// Number of keys whose entry was written anew.
    pub refreshed: usize,
    /// Number of keys that were passed over or whose query failed.
    pub errors: usize,
}

/// A cycle that waits for the answer to the search it asked for.
pub struct RefreshCycle {
    keys: Vec<String>,
    position: usize,
    pipeline: Pipeline,
    refreshed: usize,
    errors: usize,
}

/// What a waiting cycle holds: the keys it goes through, the position of
/// the key whose query is running, the pipeline of that query, and the
/// counts for the keys before it.
pub struct CycleView {
    pub keys: Seq<Seq<char>>,
    pub position: int,
    pub pipeline: PipelineView,
    pub refreshed: int,
    pub errors: int,
}

/// What a cycle does next.
pub enum RefreshStep {
    /// Make the search `request` and hand its outcome to `cycle`.
    Search { cycle: RefreshCycle, request: SearchRequest },
    /// Every key has been gone through.
    Finished(RefreshReport),
    /// There is no connection: nothing was done, and the next cycle
    /// starts anew.
    Aborted,
}

/// What a `RefreshStep` holds.
pub enum RefreshStepView {
    Search { cycle: CycleView, request: SearchRequestView },
    Finished { refreshed: int, errors: int },
    Aborted,
}

impl View for RefreshCycle {
    type V = CycleView;

    closed spec fn view(&self) -> CycleView {
        CycleView {
            keys: texts(self.keys@),
            position: self.position as int,
            pipeline: self.pipeline@,
            refreshed: self.refreshed as int,
            errors: self.errors as int,
        }
    }
}

impl View for RefreshStep {
    type V = RefreshStepView;

    open spec fn view(&self) -> RefreshStepView {
        match self {
            RefreshStep::Search { cycle, request } => RefreshStepView::Search {
                cycle: cycle@,
                request: request@,
            },
            RefreshStep::Finished(report) => RefreshStepView::Finished {
                refreshed: report.refreshed as int,
                errors: report.errors as int,
            },
            RefreshStep::Aborted => RefreshStepView::Aborted,
        }
    }
}

/// The endpoint and the name that a key stands for: the parts it is read
/// back into, where it can be read and an endpoint is served under its
/// path.
pub open spec fn key_target(es: Seq<EndpointView>, key: Seq<char>) -> Option<(int, Seq<char>)> {
    match decoded_key(key) {
        None => None,
        Some((path, name)) => match endpoint_with_path(es, path, 0) {
            None => None,
            Some(i) => Some((i, name)),
        },
    }
}

/// The step at which the cycle turns to the key at `position`, with the
/// counts for the keys before it. Keys that stand for no endpoint are
/// passed over, one error each. The first that stands for one has its
/// query started; where none is left, the cycle is finished.
pub open spec fn turn_to(
    es: Seq<EndpointView>,
    keys: Seq<Seq<char>>,
    position: int,
    refreshed: int,
    errors: int,
) -> RefreshStepView
    decreases keys.len() - position,
{
    if position < 0 || position >= keys.len() {
        RefreshStepView::Finished { refreshed, errors }
    } else {
        match key_target(es, keys[position]) {
            None => turn_to(es, keys, position + 1, refreshed, errors + 1),
            Some((i, name)) => RefreshStepView::Search {
                cycle: CycleView {
                    keys,
                    position,
                    pipeline: PipelineView::Primary { processing: es[i].result_processing },
                    refreshed,
                    errors,
                },
                request: crate::pipeline::primary_request(es[i], name),
            },
        }
    }
}

/// The first step of a cycle over `keys`; without a connection there is none.
pub open spec fn begin_step(
    connected: bool,
    es: Seq<EndpointView>,
    keys: Seq<Seq<char>>,
) -> RefreshStepView {
    if connected {
        turn_to(es, keys, 0, 0, 0)
    } else {
        RefreshStepView::Aborted
    }
}

/// The step that follows when a waiting cycle is told the outcome of its
/// search, and the cache as it is then. While the query of the key goes
/// on, the cache stays as it is. When the query is through, its values
/// are written under the key and the key counts as refreshed. When it
/// has failed, the cache stays as it is and the key counts as an error.
/// Either way the cycle turns to the next key.
pub open spec fn refresh_step(
    es: Seq<EndpointView>,
    cycle: CycleView,
    outcome: Option<Seq<Seq<char>>>,
    cache: Map<Seq<char>, Seq<Seq<char>>>,
) -> (RefreshStepView, Map<Seq<char>, Seq<Seq<char>>>) {
    match next_step(cycle.pipeline, outcome) {
        StepView::Search { pipeline, request } => (
            RefreshStepView::Search {
                cycle: CycleView {
                    keys: cycle.keys,
                    position: cycle.position,
                    pipeline,
                    refreshed: cycle.refreshed,
                    errors: cycle.errors,
                },
                request,
            },
            cache,
        ),
        StepView::Done { values, .. } => (
            turn_to(es, cycle.keys, cycle.position + 1, cycle.refreshed + 1, cycle.errors),
            cache.insert(cycle.keys[cycle.position], values),
        ),
        StepView::Failed(_) => (
            turn_to(es, cycle.keys, cycle.position + 1, cycle.refreshed, cycle.errors + 1),
            cache,
        ),
    }
}

/// Looks from `position` on for the first key that stands for an
/// endpoint, and starts its query. Gives the position where the search
/// for such a key ended, and the started query where one was found.
fn next_target(endpoints: &Vec<EndpointConfig>, keys: &Vec<String>, position: usize) -> (found: (
    usize,
    Option<(Pipeline, SearchRequest)>,
))
    requires
        position <= keys.len(),
    ensures
        position <= found.0 <= keys.len(),
        forall|j: int|
            position <= j < found.0 ==> key_target(
                endpoint_views(endpoints@),
                #[trigger] texts(keys@)[j],
            ) is None,
        match found.1 {
            None => found.0 == keys.len(),
            Some((pipeline, request)) => {
                &&& found.0 < keys.len()
                &&& match key_target(endpoint_views(endpoints@), texts(keys@)[found.0 as int]) {
                    None => false,
                    Some((i, name)) => {
                        &&& 0 <= i < endpoints.len()
                        &&& (StepView::Search { pipeline: pipeline@, request: request@ })
                            == first_step(endpoint_views(endpoints@)[i], name)
                    },
                }
            },
        },
{
    let ghost es = endpoint_views(endpoints@);
    let ghost all = texts(keys@);
    let mut at = position;
    while at < keys.len()
        invariant
            es == endpoint_views(endpoints@),
            all == texts(keys@),
            position <= at <= keys.len(),
            forall|j: int| position <= j < at ==> key_target(es, #[trigger] all[j]) is None,
        decreases keys.len() - at,
    {
        assert(all[at as int] == keys[at as int]@);
        match CacheKey::decode(keys[at].as_str()) {
            Some(parts) => match find_endpoint(endpoints, parts.endpoint_path.as_str()) {
                Some(i) => {
                    assert(es[i as int] == endpoints@[i as int]@);
                    let first = Pipeline::start(&endpoints[i], parts.name.as_str());
                    assert(key_target(es, all[at as int]) == Some((i as int, parts.name@)));
                    return (at, Some(first));
                },
                None => {},
            },
            None => {},
        }
        at += 1;
    }
    (at, None)
}

/// Passing over keys that stand for no endpoint costs one error each.
proof fn lemma_pass_over(
    es: Seq<EndpointView>,
    keys: Seq<Seq<char>>,
    position: int,
    upto: int,
    refreshed: int,
    errors: int,
)
    requires
        0 <= position <= upto <= keys.len(),
        forall|j: int| position <= j < upto ==> key_target(es, #[trigger] keys[j]) is None,
    ensures
        turn_to(es, keys, position, refreshed, errors) == turn_to(
            es,
            keys,
            upto,
            refreshed,
            errors + (upto - position),
        ),
    decreases upto - position,
{
    if position < upto {
        lemma_pass_over(es, keys, position + 1, upto, refreshed, errors + 1);
    }
}

fn turn_to_key(
    endpoints: &Vec<EndpointConfig>,
    keys: Vec<String>,
    position: usize,
    refreshed: usize,
    errors: usize,
) -> (step: RefreshStep)
    requires
        position <= keys.len(),
        refreshed + errors == position,
    ensures
        step@ == turn_to(
            endpoint_views(endpoints@),
            texts(keys@),
            position as int,
            refreshed as int,
            errors as int,
        ),
{
    let (at, started) = next_target(endpoints, &keys, position);
    proof {
        lemma_pass_over(
            endpoint_views(endpoints@),
            texts(keys@),
            position as int,
            at as int,
            refreshed as int,
            errors as int,
        );
    }
    let passed = errors + (at - position);
    match started {
        Some((pipeline, request)) => RefreshStep::Search {
            cycle: RefreshCycle { keys, position: at, pipeline, refreshed, errors: passed },
            request,
        },
        None => RefreshStep::Finished(RefreshReport { refreshed, errors: passed }),
    }
}

impl RefreshCycle {
    #[verifier::type_invariant]
    spec fn counts_add_up(self) -> bool {
        &&& self.position < self.keys.len()
        &&& self.refreshed + self.errors == self.position
    }

    /// Starts a cycle. `connected` says whether the connection to the
    /// directory stands; without it the cycle is given up at once. With
    /// it, the cycle goes through the keys that `cache` holds now: keys
    /// that come into the cache later are left to the next cycle.
    pub fn begin(connected: bool, cache: &Cache, endpoints: &Vec<EndpointConfig>) -> (step:
        RefreshStep)
        ensures
            step@ == begin_step(connected, endpoint_views(endpoints@), cache.key_order()),
    {
        if !connected {
            return RefreshStep::Aborted;
        }
        let keys = cache.keys();
        turn_to_key(endpoints, keys, 0, 0, 0)
    }

    /// Takes the outcome of the search that was asked for, writes to
    /// `cache` what the query of the key has given once it is through, and
    /// says what comes next.
    pub fn advance(
        self,
        outcome: SearchOutcome,
        cache: &mut Cache,
        endpoints: &Vec<EndpointConfig>,
    ) -> (step: RefreshStep)
        ensures
            (step@, final(cache)@) == refresh_step(
                endpoint_views(endpoints@),
                self@,
                outcome@,
                old(cache)@,
            ),
    {
        proof {
            use_type_invariant(&self);
        }
        let RefreshCycle { keys, position, pipeline, refreshed, errors } = self;
        match pipeline.advance(outcome) {
            PipelineStep::Search { pipeline, request } => RefreshStep::Search {
                cycle: RefreshCycle { keys, position, pipeline, refreshed, errors },
                request,
            },
            PipelineStep::Done { values, .. } => {
                assert(texts(keys@)[position as int] == keys[position as int]@);
                cache.put(keys[position].clone(), values);
                turn_to_key(endpoints, keys, position + 1, refreshed + 1, errors)
            },
            PipelineStep::Failed(_) => turn_to_key(
                endpoints,
                keys,
                position + 1,
                refreshed,
                errors + 1,
            ),
        }
    }
}

// ---------------------------------------------------------------------
// A whole cycle against a directory
// ---------------------------------------------------------------------
/// The values that a cycle finds for `key` in a directory that answers
/// each search as `directory` says: those of the query for the name at
/// the endpoint that the key stands for. There are none where the key
/// stands for no endpoint, and none where the query fails.
pub open spec fn fresh_values(
    directory: spec_fn(SearchRequestView) -> Option<Seq<Seq<char>>>,
    es: Seq<EndpointView>,
    key: Seq<char>,
) -> Option<Seq<Seq<char>>> {
    match key_target(es, key) {
        None => None,
        Some((i, name)) => match executed(directory, es[i], name) {
            StepView::Done { values, .. } => Some(values),
            _ => None,
        },
    }
}

/// What a cycle comes to from the key at `position` on: the cache with
/// the entry of each key replaced for which fresh values were found, and
/// the counts of those keys and of the others.
pub open spec fn refreshed_from(
    directory: spec_fn(SearchRequestView) -> Option<Seq<Seq<char>>>,
    es: Seq<EndpointView>,
    keys: Seq<Seq<char>>,
    position: int,
    refreshed: int,
    errors: int,
    cache: Map<Seq<char>, Seq<Seq<char>>>,
) -> (RefreshStepView, Map<Seq<char>, Seq<Seq<char>>>)
    decreases keys.len() - position,
{
    if position < 0 || position >= keys.len() {
        (RefreshStepView::Finished { refreshed, errors }, cache)
    } else {
        match fresh_values(directory, es, keys[position]) {
            Some(values) => refreshed_from(
                directory,
                es,
                keys,
                position + 1,
                refreshed + 1,
                errors,
                cache.insert(keys[position], values),
            ),
            None => refreshed_from(directory, es, keys, position + 1, refreshed, errors + 1, cache),
        }
    }
}

/// Number of keys that a step has still to go through.
pub open spec fn keys_left(step: RefreshStepView) -> int {
    match step {
        RefreshStepView::Search { cycle, .. } => if cycle.position < cycle.keys.len() {
            cycle.keys.len() - cycle.position
        } else {
            0
        },
        _ => 0,
    }
}

/// The step of the query that runs at a step of the cycle.
pub open spec fn query_step(step: RefreshStepView) -> StepView {
    match step {
        RefreshStepView::Search { cycle, request } => StepView::Search {
            pipeline: cycle.pipeline,
            request,
        },
        _ => StepView::Failed(crate::pipeline::QueryFailure::PrimarySearch),
    }
}

/// Turning to a key gives the end of the cycle, or the first search of a
/// query for a key at that position or after it.
pub proof fn lemma_turn_to(
    es: Seq<EndpointView>,
    keys: Seq<Seq<char>>,
    position: int,
    refreshed: int,
    errors: int,
)
    ensures
        match turn_to(es, keys, position, refreshed, errors) {
            RefreshStepView::Search { cycle, request } => {
                &&& cycle.keys == keys
                &&& 0 <= cycle.position < keys.len()
                &&& position <= cycle.position
                &&& cycle.pipeline is Primary
                &&& cycle.refreshed == refreshed
                &&& cycle.errors == errors + (cycle.position - position)
            },
            RefreshStepView::Finished { refreshed: r, errors: e } => {
                &&& r == refreshed
                &&& 0 <= position <= keys.len() ==> e == errors + (keys.len() - position)
            },
            RefreshStepView::Aborted => false,
        },
    decreases keys.len() - position,
{
    if 0 <= position < keys.len() {
        if key_target(es, keys[position]) is None {
            lemma_turn_to(es, keys, position + 1, refreshed, errors + 1);
        }
    }
}

/// The last step that is reached from `step`, and the cache as it is
/// then, when every search that the cycle asks for is answered as
/// `directory` says.
pub open spec fn cycle_driven(
    directory: spec_fn(SearchRequestView) -> Option<Seq<Seq<char>>>,
    es: Seq<EndpointView>,
    step: RefreshStepView,
    cache: Map<Seq<char>, Seq<Seq<char>>>,
) -> (RefreshStepView, Map<Seq<char>, Seq<Seq<char>>>)
    decreases keys_left(step), step_rank(query_step(step)), step_remaining(query_step(step)),
{
    match step {
        RefreshStepView::Search { cycle, request } => {
            let next = refresh_step(es, cycle, directory(request), cache);
            proof {
                lemma_turn_to(es, cycle.keys, cycle.position + 1, cycle.refreshed + 1, cycle.errors);
                lemma_turn_to(es, cycle.keys, cycle.position + 1, cycle.refreshed, cycle.errors + 1);
            }
            cycle_driven(directory, es, next.0, next.1)
        },
        _ => (step, cache),
    }
}

/// A cycle in the middle of a query goes on as the query ends: with the
/// entry written and the next key, or with an error and the next key.
proof fn lemma_query_runs(
    directory: spec_fn(SearchRequestView) -> Option<Seq<Seq<char>>>,
    es: Seq<EndpointView>,
    cycle: CycleView,
    request: SearchRequestView,
    cache: Map<Seq<char>, Seq<Seq<char>>>,
)
    ensures
        cycle_driven(directory, es, RefreshStepView::Search { cycle, request }, cache) == (
        match driven(directory, StepView::Search { pipeline: cycle.pipeline, request }) {
            StepView::Done { values, .. } => cycle_driven(
                directory,
                es,
                turn_to(es, cycle.keys, cycle.position + 1, cycle.refreshed + 1, cycle.errors),
                cache.insert(cycle.keys[cycle.position], values),
            ),
            _ => cycle_driven(
                directory,
                es,
                turn_to(es, cycle.keys, cycle.position + 1, cycle.refreshed, cycle.errors + 1),
                cache,
            ),
        }),
    decreases
        step_rank(StepView::Search { pipeline: cycle.pipeline, request }),
        step_remaining(StepView::Search { pipeline: cycle.pipeline, request }),
{
    let here = StepView::Search { pipeline: cycle.pipeline, request };
    let next = next_step(cycle.pipeline, directory(request));
    assert(driven(directory, here) == driven(directory, next));
    let after = refresh_step(es, cycle, directory(request), cache);
    assert(cycle_driven(directory, es, RefreshStepView::Search { cycle, request }, cache)
        == cycle_driven(directory, es, after.0, after.1));
    match next {
        StepView::Search { pipeline, request: asked } => {
            let waiting = CycleView {
                keys: cycle.keys,
                position: cycle.position,
                pipeline,
                refreshed: cycle.refreshed,
                errors: cycle.errors,
            };
            lemma_query_runs(directory, es, waiting, asked, cache);
        },
        _ => {
            lemma_driven_last(directory, next);
        },
    }
}

/// A cycle that is driven step by step comes to what `refreshed_from`
/// says: the same cache and the same counts.
pub proof fn lemma_cycle_runs(
    directory: spec_fn(SearchRequestView) -> Option<Seq<Seq<char>>>,
    es: Seq<EndpointView>,
    keys: Seq<Seq<char>>,
    position: int,
    refreshed: int,
    errors: int,
    cache: Map<Seq<char>, Seq<Seq<char>>>,
)
    requires
        0 <= position,
    ensures
        cycle_driven(directory, es, turn_to(es, keys, position, refreshed, errors), cache)
            == refreshed_from(directory, es, keys, position, refreshed, errors, cache),
    decreases keys.len() - position,
{
    if position < keys.len() {
        match key_target(es, keys[position]) {
            None => {
                lemma_cycle_runs(directory, es, keys, position + 1, refreshed, errors + 1, cache);
            },
            Some((i, name)) => {
                let cycle = CycleView {
                    keys,
                    position,
                    pipeline: PipelineView::Primary { processing: es[i].result_processing },
                    refreshed,
                    errors,
                };
                let request = crate::pipeline::primary_request(es[i], name);
                lemma_query_runs(directory, es, cycle, request, cache);
                lemma_pipeline_executes(directory, es[i], name);
                assert(first_step(es[i], name) == (StepView::Search {
                    pipeline: cycle.pipeline,
                    request,
                }));
                match executed(directory, es[i], name) {
                    StepView::Done { values, .. } => {
                        lemma_cycle_runs(
                            directory,
                            es,
                            keys,
                            position + 1,
                            refreshed + 1,
                            errors,
                            cache.insert(keys[position], values),
                        );
                    },
                    _ => {
                        lemma_cycle_runs(
                            directory,
                            es,
                            keys,
                            position + 1,
                            refreshed,
                            errors + 1,
                            cache,
                        );
                    },
                }
            },
        }
    }
}

/// What a cycle leaves behind. Every key is counted once, as refreshed
/// or as an error. A key for which fresh values were found holds them
/// afterwards. Every other key of the cycle holds what it held before:
/// a query that fails takes nothing away. And what is cached under keys
/// that the cycle does not go through is not touched.
pub proof fn lemma_refresh_isolation(
    directory: spec_fn(SearchRequestView) -> Option<Seq<Seq<char>>>,
    es: Seq<EndpointView>,
    keys: Seq<Seq<char>>,
    position: int,
    refreshed: int,
    errors: int,
    cache: Map<Seq<char>, Seq<Seq<char>>>,
)
    requires
        0 <= position <= keys.len(),
        keys.no_duplicates(),
    ensures
        ({
            let end = refreshed_from(directory, es, keys, position, refreshed, errors, cache);
            &&& end.0 is Finished
            &&& end.0->refreshed + end.0->errors == refreshed + errors + (keys.len() - position)
            &&& refreshed <= end.0->refreshed
            &&& errors <= end.0->errors
            &&& forall|j: int|
                position <= j < keys.len() ==> match fresh_values(directory, es, #[trigger] keys[j]) {
                    Some(values) => end.1.contains_key(keys[j]) && end.1[keys[j]] == values,
                    None => end.1.contains_key(keys[j]) == cache.contains_key(keys[j]) && (
                    cache.contains_key(keys[j]) ==> end.1[keys[j]] == cache[keys[j]]),
                }
            &&& forall|key: Seq<char>|
                !keys.skip(position).contains(key) ==> #[trigger] end.1.contains_key(key)
                    == cache.contains_key(key) && (cache.contains_key(key) ==> end.1[key]
                    == cache[key])
        }),
    decreases keys.len() - position,
{
    let end = refreshed_from(directory, es, keys, position, refreshed, errors, cache);
    if position < keys.len() {
        let key = keys[position];
        let rest = keys.skip(position + 1);
        assert(!rest.contains(key)) by {
            if rest.contains(key) {
                let j = choose|j: int| 0 <= j < rest.len() && rest[j] == key;
                assert(keys[position + 1 + j] == key);
            }
        }
        assert forall|other: Seq<char>| !keys.skip(position).contains(other) implies !rest.contains(
            other,
        ) && other != key by {
            if rest.contains(other) {
                let j = choose|j: int| 0 <= j < rest.len() && rest[j] == other;
                assert(keys.skip(position)[j + 1] == other);
            }
            if other == key {
                assert(keys.skip(position)[0] == key);
            }
        }
        assert forall|j: int| position < j < keys.len() implies keys[j] != key by {}
        match fresh_values(directory, es, key) {
            Some(values) => {
                lemma_refresh_isolation(
                    directory,
                    es,
                    keys,
                    position + 1,
                    refreshed + 1,
                    errors,
                    cache.insert(key, values),
                );
            },
            None => {
                lemma_refresh_isolation(
                    directory,
                    es,
                    keys,
                    position + 1,
                    refreshed,
                    errors + 1,
                    cache,
                );
            },
        }
    }
}

/// The key that a request writes after a miss is one that the cycle can
/// read: it stands for the endpoint and the name of the request.
pub proof fn lemma_missed_key_is_refreshed(
    cache: Map<Seq<char>, Seq<Seq<char>>>,
    es: Seq<EndpointView>,
    uri_path: Seq<char>,
    name: Seq<char>,
)
    requires
        looked_up(cache, es, uri_path, name) is Miss,
    ensures
        key_target(es, looked_up(cache, es, uri_path, name)->key) == Some(
            (looked_up(cache, es, uri_path, name)->endpoint, name),
        ),
{
    lemma_decode_encoded(crate::request::endpoint_path(uri_path), name);
}

} // verus!
