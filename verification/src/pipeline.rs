//! The query pipeline: from an endpoint and a name to a list of values.
//!
//! The pipeline searches once for the name and, where the endpoint asks
//! for it, looks up each value of that search as an entry of its own. It
//! does not search by itself: it says which search to make and is told
//! what the search brought back. [`Pipeline::start`] gives the first
//! search, [`Pipeline::advance`] takes each answer and gives the next
//! search, the final values, or the failure.

use vstd::prelude::*;
use vstd::string::*;
use crate::config::{dn_translation, EndpointConfig, EndpointView, ResultProcessingView};
use crate::filter::{
    build_filter, first_placeholder, lemma_substitute_once, placeholder_count, substitute,
};
use crate::text::{append_texts, same_text, texts};

verus! {

/// A search for the values of one attribute.
#[derive(Clone, Debug)]
pub struct SearchRequest {
    /// The entry below which to search.
    pub base: String,
    /// The scope, as a word.
    pub scope: String,
    /// The filter that an entry must match.
    pub filter: String,
    /// The attribute whose values are wanted.
    pub attribute: String,
}

/// What a `SearchRequest` holds.
pub struct SearchRequestView {
    pub base: Seq<char>,
    pub scope: Seq<char>,
    pub filter: Seq<char>,
    pub attribute: Seq<char>,
}

impl View for SearchRequest {
    type V = SearchRequestView;

    open spec fn view(&self) -> SearchRequestView {
        SearchRequestView {
            base: self.base@,
            scope: self.scope@,
            filter: self.filter@,
            attribute: self.attribute@,
        }
    }
}

/// What became of a search.
#[derive(Debug)]
pub enum SearchOutcome {
    /// The search was made and gave these values, possibly none.
    Found(Vec<String>),
    /// The search could not be made or was refused.
    Failed,
}

impl View for SearchOutcome {
    type V = Option<Seq<Seq<char>>>;

    open spec fn view(&self) -> Option<Seq<Seq<char>>> {
        match self {
            SearchOutcome::Found(values) => Some(texts(values@)),
            SearchOutcome::Failed => None,
        }
    }
}

/// Which search of a pipeline failed.
#[derive(Clone, Copy, Debug, PartialEq, Eq, Structural)]
pub enum QueryFailure {
    /// The search for the name.
    PrimarySearch,
    /// The lookup of the value at `index` of the first search.
    ChainedLookup { index: usize },
}

enum Stage {
    Primary { processing: Option<(String, String)> },
    Chained { attribute: String, pending: Vec<String>, next: usize, collected: Vec<String> },
}

/// A pipeline that waits for the answer to the search it asked for.
pub struct Pipeline {
    stage: Stage,
}

/// What a waiting pipeline holds.
pub enum PipelineView {
    /// It waits for the search for the name, and will then process the
    /// values as `processing` says.
    Primary { processing: Option<ResultProcessingView> },
    /// It waits for the lookup of `pending[next]`. The lookups before it
    /// gave `collected`.
    Chained { attribute: Seq<char>, pending: Seq<Seq<char>>, next: int, collected: Seq<Seq<char>> },
}

/// What a pipeline does next.
pub enum PipelineStep {
    /// Make the search `request` and hand its outcome to `pipeline`.
    Search { pipeline: Pipeline, request: SearchRequest },
    /// The pipeline is through, with these values. `unknown_kind` says
    /// that the endpoint asks for a processing of a kind that is not
    /// known, and that the values are therefore those of the first search.
    Done { values: Vec<String>, unknown_kind: bool },
    /// A search failed, and with it the whole call.
    Failed(QueryFailure),
}

/// What a `PipelineStep` holds.
pub enum StepView {
    Search { pipeline: PipelineView, request: SearchRequestView },
    Done { values: Seq<Seq<char>>, unknown_kind: bool },
    Failed(QueryFailure),
}

impl View for Pipeline {
    type V = PipelineView;

    closed spec fn view(&self) -> PipelineView {
        match self.stage {
            Stage::Primary { processing } => PipelineView::Primary {
                processing: match processing {
                    Some((kind, attribute)) => Some(
                        ResultProcessingView { kind: kind@, attribute: attribute@ },
                    ),
                    None => None,
                },
            },
            Stage::Chained { attribute, pending, next, collected } => PipelineView::Chained {
                attribute: attribute@,
                pending: texts(pending@),
                next: next as int,
                collected: texts(collected@),
            },
        }
    }
}

impl View for PipelineStep {
    type V = StepView;

    open spec fn view(&self) -> StepView {
        match self {
            PipelineStep::Search { pipeline, request } => StepView::Search {
                pipeline: pipeline@,
                request: request@,
            },
            PipelineStep::Done { values, unknown_kind } => StepView::Done {
                values: texts(values@),
                unknown_kind: *unknown_kind,
            },
            PipelineStep::Failed(failure) => StepView::Failed(*failure),
        }
    }
}

/// The search for `name` at an endpoint: the endpoint's base, scope and
/// attribute, and its filter template with the name in the placeholder's
/// place.
pub open spec fn primary_request(e: EndpointView, name: Seq<char>) -> SearchRequestView {
    SearchRequestView {
        base: e.search_base,
        scope: e.search_scope,
        filter: substitute(e.search_filter, name),
        attribute: e.attribute,
    }
}

/// The lookup of the entry `dn` itself, whatever it is, for `attribute`.
pub open spec fn chained_request(dn: Seq<char>, attribute: Seq<char>) -> SearchRequestView {
    SearchRequestView {
        base: dn,
        scope: "base"@,
        filter: "(objectClass=*)"@,
        attribute,
    }
}

/// The first step of the pipeline for `name` at an endpoint.
pub open spec fn first_step(e: EndpointView, name: Seq<char>) -> StepView {
    StepView::Search {
        pipeline: PipelineView::Primary { processing: e.result_processing },
        request: primary_request(e, name),
    }
}

/// The step of a chain in which the lookups before `next` gave
/// `collected`: the lookup of `pending[next]`, or the end with
/// `collected` where nothing is pending any more.
pub open spec fn chain_step(
    attribute: Seq<char>,
    pending: Seq<Seq<char>>,
    next: int,
    collected: Seq<Seq<char>>,
) -> StepView {
    if 0 <= next < pending.len() {
        StepView::Search {
            pipeline: PipelineView::Chained { attribute, pending, next, collected },
            request: chained_request(pending[next], attribute),
        }
    } else {
        StepView::Done { values: collected, unknown_kind: false }
    }
}

/// The step that follows when a waiting pipeline is told the outcome of
/// its search.
pub open spec fn next_step(p: PipelineView, outcome: Option<Seq<Seq<char>>>) -> StepView {
    match p {
        PipelineView::Primary { processing } => match outcome {
            None => StepView::Failed(QueryFailure::PrimarySearch),
            Some(values) => match processing {
                None => StepView::Done { values, unknown_kind: false },
                Some(p) => if p.kind == dn_translation() {
                    chain_step(p.attribute, values, 0, Seq::empty())
                } else {
                    StepView::Done { values, unknown_kind: true }
                },
            },
        },
        PipelineView::Chained { attribute, pending, next, collected } => match outcome {
            None => StepView::Failed(QueryFailure::ChainedLookup { index: next as usize }),
            Some(values) => chain_step(attribute, pending, next + 1, collected + values),
        },
    }
}

fn chained_search(dn: &str, attribute: &str) -> (request: SearchRequest)
    ensures
        request@ == chained_request(dn@, attribute@),
{
    SearchRequest {
        base: String::from_str(dn),
        scope: String::from_str("base"),
        filter: String::from_str("(objectClass=*)"),
        attribute: String::from_str(attribute),
    }
}

fn continue_chain(
    attribute: String,
    pending: Vec<String>,
    next: usize,
    collected: Vec<String>,
) -> (step: PipelineStep)
    ensures
        step@ == chain_step(attribute@, texts(pending@), next as int, texts(collected@)),
{
    if next < pending.len() {
        let request = chained_search(pending[next].as_str(), attribute.as_str());
        PipelineStep::Search {
            pipeline: Pipeline { stage: Stage::Chained { attribute, pending, next, collected } },
            request,
        }
    } else {
        PipelineStep::Done { values: collected, unknown_kind: false }
    }
}

impl Pipeline {
    #[verifier::type_invariant]
    spec fn lookup_pending(self) -> bool {
        match self.stage {
            Stage::Primary { .. } => true,
            Stage::Chained { pending, next, .. } => next < pending.len(),
        }
    }

    /// Starts the pipeline for `name` at `endpoint`: gives the search for
    /// the name, which is to be made first, and the pipeline that waits
    /// for its outcome.
    pub fn start(endpoint: &EndpointConfig, name: &str) -> (first: (Pipeline, SearchRequest))
        ensures
            (StepView::Search { pipeline: first.0@, request: first.1@ }) == first_step(
                endpoint@,
                name@,
            ),
    {
        let processing = match endpoint.result_processing() {
            Some(p) => Some((p.kind().clone(), p.attribute().clone())),
            None => None,
        };
        let request = SearchRequest {
            base: endpoint.search_base().clone(),
            scope: endpoint.search_scope().clone(),
            filter: build_filter(endpoint.search_filter().as_str(), name),
            attribute: endpoint.attribute().clone(),
        };
        (Pipeline { stage: Stage::Primary { processing } }, request)
    }

    /// Takes the outcome of the search that was asked for and says what
    /// comes next. A failed search fails the call, whatever was found
    /// before. The values of the first search are the result where no
    /// processing is configured, or one of an unknown kind. For a
    /// `dn_translation` each of them is looked up in turn, and the
    /// result is what the lookups gave, in that order.
    pub fn advance(self, outcome: SearchOutcome) -> (step: PipelineStep)
        ensures
            step@ == next_step(self@, outcome@),
    {
        proof {
            use_type_invariant(&self);
        }
        match self.stage {
            Stage::Primary { processing } => match outcome {
                SearchOutcome::Failed => PipelineStep::Failed(QueryFailure::PrimarySearch),
                SearchOutcome::Found(values) => match processing {
                    None => PipelineStep::Done { values, unknown_kind: false },
                    Some((kind, attribute)) => {
                        if same_text(kind.as_str(), "dn_translation") {
                            let collected: Vec<String> = Vec::new();
                            assert(texts(collected@) =~= Seq::<Seq<char>>::empty());
                            continue_chain(attribute, values, 0, collected)
                        } else {
                            PipelineStep::Done { values, unknown_kind: true }
                        }
                    },
                },
            },
            Stage::Chained { attribute, pending, next, collected } => match outcome {
                SearchOutcome::Failed => PipelineStep::Failed(
                    QueryFailure::ChainedLookup { index: next },
                ),
                SearchOutcome::Found(values) => {
                    let mut collected = collected;
                    append_texts(&mut collected, &values);
                    continue_chain(attribute, pending, next + 1, collected)
                },
            },
        }
    }
}

/// With exactly one placeholder in the endpoint's filter template, the
/// filter of the first search is the template with the name in the
/// placeholder's place: the placeholder is gone, and nothing else of the
/// template has changed.
pub proof fn lemma_primary_filter(e: EndpointView, name: Seq<char>)
    requires
        placeholder_count(e.search_filter) == 1,
    ensures
        primary_request(e, name).filter == e.search_filter.take(
            first_placeholder(e.search_filter),
        ) + name + e.search_filter.skip(first_placeholder(e.search_filter) + 2),
{
    lemma_substitute_once(e.search_filter, name);
}

// ---------------------------------------------------------------------
// The pipeline against a directory
// ---------------------------------------------------------------------
/// What a chain of lookups comes to in a directory that answers each
/// search as `directory` says (`None` for a search that fails), from the
/// lookup of `pending[from]` on, when the lookups before it gave
/// `collected`: the first failure, or else everything that was found, in
/// the order of `pending`.
pub open spec fn chained(
    directory: spec_fn(SearchRequestView) -> Option<Seq<Seq<char>>>,
    attribute: Seq<char>,
    pending: Seq<Seq<char>>,
    from: int,
    collected: Seq<Seq<char>>,
) -> StepView
    decreases pending.len() - from,
{
    if from < 0 || from >= pending.len() {
        StepView::Done { values: collected, unknown_kind: false }
    } else {
        match directory(chained_request(pending[from], attribute)) {
            None => StepView::Failed(QueryFailure::ChainedLookup { index: from as usize }),
            Some(found) => chained(directory, attribute, pending, from + 1, collected + found),
        }
    }
}

/// What the query for `name` at an endpoint comes to in a directory that
/// answers each search as `directory` says.
pub open spec fn executed(
    directory: spec_fn(SearchRequestView) -> Option<Seq<Seq<char>>>,
    e: EndpointView,
    name: Seq<char>,
) -> StepView {
    match directory(primary_request(e, name)) {
        None => StepView::Failed(QueryFailure::PrimarySearch),
        Some(values) => match e.result_processing {
            None => StepView::Done { values, unknown_kind: false },
            Some(p) => if p.kind == dn_translation() {
                chained(directory, p.attribute, values, 0, Seq::empty())
            } else {
                StepView::Done { values, unknown_kind: true }
            },
        },
    }
}

/// How far a step is from the end: first by whether the first search is
/// still to come, then by the number of lookups still to come.
pub open spec fn step_rank(step: StepView) -> int {
    match step {
        StepView::Search { pipeline: PipelineView::Primary { .. }, .. } => 2,
        StepView::Search { pipeline: PipelineView::Chained { .. }, .. } => 1,
        _ => 0,
    }
}

/// Number of lookups still to come at a step.
pub open spec fn step_remaining(step: StepView) -> int {
    match step {
        StepView::Search { pipeline: PipelineView::Chained { pending, next, .. }, .. } => if next
            < pending.len() {
            pending.len() - next
        } else {
            0
        },
        _ => 0,
    }
}

/// The last step that is reached from `step` when every search that the
/// pipeline asks for is answered as `directory` says.
pub open spec fn driven(
    directory: spec_fn(SearchRequestView) -> Option<Seq<Seq<char>>>,
    step: StepView,
) -> StepView
    decreases step_rank(step), step_remaining(step),
{
    match step {
        StepView::Search { pipeline, request } => driven(
            directory,
            next_step(pipeline, directory(request)),
        ),
        _ => step,
    }
}

/// A chain that is driven step by step comes to what `chained` says.
pub proof fn lemma_driven_chain(
    directory: spec_fn(SearchRequestView) -> Option<Seq<Seq<char>>>,
    attribute: Seq<char>,
    pending: Seq<Seq<char>>,
    from: int,
    collected: Seq<Seq<char>>,
)
    requires
        0 <= from,
    ensures
        driven(directory, chain_step(attribute, pending, from, collected)) == chained(
            directory,
            attribute,
            pending,
            from,
            collected,
        ),
    decreases pending.len() - from,
{
    if from < pending.len() {
        let waiting = PipelineView::Chained { attribute, pending, next: from, collected };
        let outcome = directory(chained_request(pending[from], attribute));
        assert(driven(directory, chain_step(attribute, pending, from, collected)) == driven(
            directory,
            next_step(waiting, outcome),
        ));
        match outcome {
            None => {
                lemma_driven_last(directory, next_step(waiting, outcome));
            },
            Some(found) => {
                lemma_driven_chain(directory, attribute, pending, from + 1, collected + found);
            },
        }
    }
}

/// A step that asks for no search is the last.
pub proof fn lemma_driven_last(
    directory: spec_fn(SearchRequestView) -> Option<Seq<Seq<char>>>,
    step: StepView,
)
    requires
        !(step is Search),
    ensures
        driven(directory, step) == step,
{
}

/// The pipeline, started for `name` at an endpoint and driven step by
/// step against a directory, comes to what `executed` says of that
/// endpoint, name and directory. The outcome is a function of these three:
/// against a directory that has not changed, the same call gives the same
/// values in the same order.
pub proof fn lemma_pipeline_executes(
    directory: spec_fn(SearchRequestView) -> Option<Seq<Seq<char>>>,
    e: EndpointView,
    name: Seq<char>,
)
    ensures
        driven(directory, first_step(e, name)) == executed(directory, e, name),
{
    let waiting = PipelineView::Primary { processing: e.result_processing };
    let outcome = directory(primary_request(e, name));
    assert(driven(directory, first_step(e, name)) == driven(directory, next_step(waiting, outcome)));
    match outcome {
        None => {
            lemma_driven_last(directory, next_step(waiting, outcome));
        },
        Some(values) => match e.result_processing {
            None => {
                lemma_driven_last(directory, next_step(waiting, outcome));
            },
            Some(p) => {
                if p.kind == dn_translation() {
                    lemma_driven_chain(directory, p.attribute, values, 0, Seq::empty());
                } else {
                    lemma_driven_last(directory, next_step(waiting, outcome));
                }
            },
        },
    }
}

/// Where every lookup of a chain is answered, the chain comes to the
/// answers put together in the order of the values that were looked up.
pub proof fn lemma_chain_found(
    directory: spec_fn(SearchRequestView) -> Option<Seq<Seq<char>>>,
    attribute: Seq<char>,
    pending: Seq<Seq<char>>,
    answers: Seq<Seq<Seq<char>>>,
    from: int,
    collected: Seq<Seq<char>>,
)
    requires
        0 <= from <= pending.len(),
        answers.len() == pending.len(),
        forall|i: int|
            from <= i < pending.len() ==> directory(
                chained_request(#[trigger] pending[i], attribute),
            ) == Some(answers[i]),
    ensures
        chained(directory, attribute, pending, from, collected) == (StepView::Done {
            values: collected + answers.skip(from).flatten(),
            unknown_kind: false,
        }),
    decreases pending.len() - from,
{
    let rest = answers.skip(from);
    if from < pending.len() {
        lemma_chain_found(directory, attribute, pending, answers, from + 1, collected + answers[from]);
        assert(rest.first() == answers[from]);
        assert(rest.drop_first() =~= answers.skip(from + 1));
        assert(rest.flatten() == answers[from] + answers.skip(from + 1).flatten());
        assert(collected + answers[from] + answers.skip(from + 1).flatten() =~= collected
            + rest.flatten());
    } else {
        assert(rest =~= Seq::<Seq<Seq<char>>>::empty());
        assert(rest.flatten() =~= Seq::<Seq<char>>::empty());
        assert(collected + rest.flatten() =~= collected);
    }
}

/// Where the lookup of `pending[failing]` fails and those before it are
/// answered, the chain fails at `failing`: nothing of what was found is
/// handed out.
pub proof fn lemma_chain_failed(
    directory: spec_fn(SearchRequestView) -> Option<Seq<Seq<char>>>,
    attribute: Seq<char>,
    pending: Seq<Seq<char>>,
    failing: int,
    from: int,
    collected: Seq<Seq<char>>,
)
    requires
        0 <= from <= failing < pending.len(),
        directory(chained_request(pending[failing], attribute)) is None,
        forall|i: int|
            from <= i < failing ==> directory(chained_request(#[trigger] pending[i], attribute))
                is Some,
    ensures
        chained(directory, attribute, pending, from, collected) == StepView::Failed(
            QueryFailure::ChainedLookup { index: failing as usize },
        ),
    decreases failing - from,
{
    if from < failing {
        let found = directory(chained_request(pending[from], attribute))->0;
        lemma_chain_failed(directory, attribute, pending, failing, from + 1, collected + found);
    }
}

/// With a processing of a kind that is not known, the values of the first
/// search are the result as they are.
pub proof fn lemma_unknown_kind_keeps_values(
    directory: spec_fn(SearchRequestView) -> Option<Seq<Seq<char>>>,
    e: EndpointView,
    name: Seq<char>,
)
    requires
        e.result_processing is Some,
        e.result_processing->0.kind != dn_translation(),
        directory(primary_request(e, name)) is Some,
    ensures
        executed(directory, e, name) == (StepView::Done {
            values: directory(primary_request(e, name))->0,
            unknown_kind: true,
        }),
        next_step(
            PipelineView::Primary { processing: e.result_processing },
            directory(primary_request(e, name)),
        ) == executed(directory, e, name),
{
}

} // verus!
