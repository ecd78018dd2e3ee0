//! The command-line advisor: a shorter pipeline without reranking.
//!
//! The query is expanded with the synonym table and searched for. If the
//! search finds nothing, a language model is asked for search keywords and
//! the index is searched once more with them. The answer is generated from
//! the hits as they came.

use crate::assembly::{ProductSummary, ProductSummaryView};
use crate::context::{
    assemble_plain_context, hit_sources, list_hit_sources, plain_context_text, sorted_names,
    RagResponse, RagResponseView,
};
use crate::llm::{keyword_prompt, make_keyword_prompt};
use crate::models::opt_view;
use crate::normalize::{expand_with_synonyms, expansion};
use crate::retrieve::{hit_views, Hit, HitView};
use crate::rewrite::{clean_rewrite, cleaned};
use crate::table::Table;
use vstd::prelude::*;
use vstd::string::StringExecFns;

verus! {

/// How many rows the first search asks for.
pub const FIRST_SEARCH_LIMIT: usize = 10;

/// How many rows the search with suggested keywords asks for.
pub const RETRY_SEARCH_LIMIT: usize = 3;

/// What the advisor is waiting for.
#[derive(Debug, Clone, Copy, PartialEq, Eq, Structural)]
pub enum AdvisorPhase {
    AwaitingSearch,
    AwaitingKeywords,
    AwaitingRetry,
    AwaitingAnswer,
    Done,
}

/// The state of a query of the advisor.
#[derive(Debug, Clone)]
pub struct AdvisorState {
    pub phase: AdvisorPhase,
    pub raw: String,
    pub hits: Vec<Hit>,
}

/// The view of [`AdvisorState`]: every string as its character sequence.
pub struct AdvisorStateView {
    pub phase: AdvisorPhase,
    pub raw: Seq<char>,
    pub hits: Seq<HitView>,
}

impl View for AdvisorState {
    type V = AdvisorStateView;

    open spec fn view(&self) -> AdvisorStateView {
        AdvisorStateView { phase: self.phase, raw: self.raw@, hits: hit_views(self.hits@) }
    }
}

/// What the driver reports to the advisor.
#[derive(Debug, Clone)]
pub enum AdvisorEvent {
    /// The index was searched.
    Retrieved(Vec<Hit>),
    /// The model suggested keywords, or the call failed.
    Keywords(Option<String>),
    /// The answer was generated.
    Answered(String),
    /// The pending action failed.
    Failed(String),
}

/// The view of [`AdvisorEvent`]: every string as its character sequence.
pub enum AdvisorEventView {
    Retrieved(Seq<HitView>),
    Keywords(Option<Seq<char>>),
    Answered(Seq<char>),
    Failed(Seq<char>),
}

impl View for AdvisorEvent {
    type V = AdvisorEventView;

    open spec fn view(&self) -> AdvisorEventView {
        match *self {
            AdvisorEvent::Retrieved(hits) => AdvisorEventView::Retrieved(hit_views(hits@)),
            AdvisorEvent::Keywords(words) => AdvisorEventView::Keywords(opt_view(words)),
            AdvisorEvent::Answered(text) => AdvisorEventView::Answered(text@),
            AdvisorEvent::Failed(message) => AdvisorEventView::Failed(message@),
        }
    }
}

/// How a query of the advisor ends.
#[derive(Debug, Clone)]
pub enum AdvisorOutcome {
    /// Neither search found anything.
    NothingFound,
    /// The answer, with the sources of the hits it was generated from.
    Answered(RagResponse),
    /// A search or the generation failed.
    Failed(String),
}

/// The view of [`AdvisorOutcome`]: every string as its character sequence.
pub enum AdvisorOutcomeView {
    NothingFound,
    Answered(RagResponseView),
    Failed(Seq<char>),
}

/// What the driver of the advisor is to do next.
#[derive(Debug, Clone)]
pub enum AdvisorAction {
    Search { query: String, limit: usize },
    SuggestKeywords { prompt: String },
    Generate { context: String, query: String },
    Finish(AdvisorOutcome),
}

/// The view of [`AdvisorAction`]: every string as its character sequence.
pub enum AdvisorActionView {
    Search { query: Seq<char>, limit: usize },
    SuggestKeywords { prompt: Seq<char> },
    Generate { context: Seq<char>, query: Seq<char> },
    Finish(AdvisorOutcomeView),
}

impl View for AdvisorAction {
    type V = AdvisorActionView;

    open spec fn view(&self) -> AdvisorActionView {
        match *self {
            AdvisorAction::Search { query, limit } => AdvisorActionView::Search {
                query: query@,
                limit,
            },
            AdvisorAction::SuggestKeywords { prompt } => AdvisorActionView::SuggestKeywords {
                prompt: prompt@,
            },
            AdvisorAction::Generate { context, query } => AdvisorActionView::Generate {
                context: context@,
                query: query@,
            },
            AdvisorAction::Finish(outcome) => AdvisorActionView::Finish(
                match outcome {
                    AdvisorOutcome::NothingFound => AdvisorOutcomeView::NothingFound,
                    AdvisorOutcome::Answered(response) => AdvisorOutcomeView::Answered(response@),
                    AdvisorOutcome::Failed(message) => AdvisorOutcomeView::Failed(message@),
                },
            ),
        }
    }
}

/// The message of a query that ended because an event did not answer the
/// pending action.
pub const ADVISOR_OUT_OF_TURN: &'static str = "the event does not answer the pending action";

/// How a query of the advisor begins: with a search for the raw query and
/// its dictionary expansion.
pub open spec fn advisor_begin(raw: Seq<char>, synonyms: Seq<(Seq<char>, Seq<char>)>) -> (
    AdvisorStateView,
    AdvisorActionView,
) {
    (
        AdvisorStateView { phase: AdvisorPhase::AwaitingSearch, raw, hits: Seq::empty() },
        AdvisorActionView::Search {
            query: raw + expansion(raw, synonyms),
            limit: FIRST_SEARCH_LIMIT,
        },
    )
}

/// The end of a query of the advisor.
pub open spec fn advisor_end(state: AdvisorStateView, outcome: AdvisorOutcomeView) -> (
    AdvisorStateView,
    AdvisorActionView,
) {
    (AdvisorStateView { phase: AdvisorPhase::Done, ..state }, AdvisorActionView::Finish(outcome))
}

/// The request for an answer from the hits.
pub open spec fn advisor_generate(
    state: AdvisorStateView,
    hits: Seq<HitView>,
    summaries: Seq<(Seq<char>, ProductSummaryView)>,
) -> (AdvisorStateView, AdvisorActionView) {
    (
        AdvisorStateView { phase: AdvisorPhase::AwaitingAnswer, hits, ..state },
        AdvisorActionView::Generate {
            context: plain_context_text(hits, summaries),
            query: state.raw,
        },
    )
}

/// The transition of the advisor. A first search without hits leads to a
/// request for keywords; keywords lead to a second search, their absence to
/// the end of the query; a second search without hits ends the query; hits
/// of either search lead to the generation of the answer.
pub open spec fn advisor_step(
    state: AdvisorStateView,
    event: AdvisorEventView,
    summaries: Seq<(Seq<char>, ProductSummaryView)>,
) -> (AdvisorStateView, AdvisorActionView) {
    match (state.phase, event) {
        (AdvisorPhase::AwaitingSearch, AdvisorEventView::Retrieved(hits)) => if hits.len() == 0 {
            (
                AdvisorStateView { phase: AdvisorPhase::AwaitingKeywords, ..state },
                AdvisorActionView::SuggestKeywords { prompt: keyword_prompt(state.raw) },
            )
        } else {
            advisor_generate(state, hits, summaries)
        },
        (AdvisorPhase::AwaitingKeywords, AdvisorEventView::Keywords(Some(words))) => (
            AdvisorStateView { phase: AdvisorPhase::AwaitingRetry, ..state },
            AdvisorActionView::Search { query: cleaned(words), limit: RETRY_SEARCH_LIMIT },
        ),
        (AdvisorPhase::AwaitingKeywords, AdvisorEventView::Keywords(None)) => advisor_end(
            state,
            AdvisorOutcomeView::NothingFound,
        ),
        (AdvisorPhase::AwaitingKeywords, AdvisorEventView::Failed(_)) => advisor_end(
            state,
            AdvisorOutcomeView::NothingFound,
        ),
        (AdvisorPhase::AwaitingRetry, AdvisorEventView::Retrieved(hits)) => if hits.len() == 0 {
            advisor_end(state, AdvisorOutcomeView::NothingFound)
        } else {
            advisor_generate(state, hits, summaries)
        },
        (AdvisorPhase::AwaitingAnswer, AdvisorEventView::Answered(answer)) => advisor_end(
            state,
            AdvisorOutcomeView::Answered(
                RagResponseView { answer, sources: sorted_names(hit_sources(state.hits)) },
            ),
        ),
        (AdvisorPhase::AwaitingSearch, AdvisorEventView::Failed(message)) => advisor_end(
            state,
            AdvisorOutcomeView::Failed(message),
        ),
        (AdvisorPhase::AwaitingRetry, AdvisorEventView::Failed(message)) => advisor_end(
            state,
            AdvisorOutcomeView::Failed(message),
        ),
        (AdvisorPhase::AwaitingAnswer, AdvisorEventView::Failed(message)) => advisor_end(
            state,
            AdvisorOutcomeView::Failed(message),
        ),
        _ => advisor_end(state, AdvisorOutcomeView::Failed(ADVISOR_OUT_OF_TURN@)),
    }
}

fn end(state: AdvisorState, outcome: AdvisorOutcome) -> (out: (AdvisorState, AdvisorAction))
    ensures
        out.0@ == (AdvisorStateView { phase: AdvisorPhase::Done, ..state@ }),
        out.1 == AdvisorAction::Finish(outcome),
{
    let mut next = state;
    next.phase = AdvisorPhase::Done;
    (next, AdvisorAction::Finish(outcome))
}

fn generate(state: AdvisorState, hits: Vec<Hit>, summaries: &Table<ProductSummary>) -> (out: (
    AdvisorState,
    AdvisorAction,
))
    requires
        summaries.wf(),
    ensures
        (out.0@, out.1@) == advisor_generate(state@, hit_views(hits@), summaries.entries()),
{
    let context = assemble_plain_context(&hits, summaries);
    let query = state.raw.clone();
    let mut next = state;
    next.phase = AdvisorPhase::AwaitingAnswer;
    next.hits = hits;
    (next, AdvisorAction::Generate { context, query })
}

/// Begins a query of the advisor.
pub fn advisor_start(raw: &str, synonyms: &Table<String>) -> (out: (AdvisorState, AdvisorAction))
    requires
        synonyms.wf(),
    ensures
        (out.0@, out.1@) == advisor_begin(raw@, synonyms.entries()),
{
    let state = AdvisorState {
        phase: AdvisorPhase::AwaitingSearch,
        raw: String::from_str(raw),
        hits: Vec::new(),
    };
    assert(hit_views(state.hits@) =~= Seq::<HitView>::empty());
    let query = expand_with_synonyms(String::from_str(raw), raw, synonyms);
    (state, AdvisorAction::Search { query, limit: FIRST_SEARCH_LIMIT })
}

/// Takes the advisor one step.
pub fn advisor_advance(
    state: AdvisorState,
    event: AdvisorEvent,
    summaries: &Table<ProductSummary>,
) -> (out: (AdvisorState, AdvisorAction))
    requires
        summaries.wf(),
    ensures
        (out.0@, out.1@) == advisor_step(state@, event@, summaries.entries()),
{
    match state.phase {
        AdvisorPhase::AwaitingSearch => match event {
            AdvisorEvent::Retrieved(hits) => {
                if hits.len() == 0 {
                    let prompt = make_keyword_prompt(state.raw.as_str());
                    let mut next = state;
                    next.phase = AdvisorPhase::AwaitingKeywords;
                    (next, AdvisorAction::SuggestKeywords { prompt })
                } else {
                    generate(state, hits, summaries)
                }
            },
            AdvisorEvent::Failed(message) => end(state, AdvisorOutcome::Failed(message)),
            _ => end(state, AdvisorOutcome::Failed(String::from_str(ADVISOR_OUT_OF_TURN))),
        },
        AdvisorPhase::AwaitingKeywords => match event {
            AdvisorEvent::Keywords(Some(words)) => {
                let query = clean_rewrite(words.as_str());
                let mut next = state;
                next.phase = AdvisorPhase::AwaitingRetry;
                (next, AdvisorAction::Search { query, limit: RETRY_SEARCH_LIMIT })
            },
            AdvisorEvent::Keywords(None) => end(state, AdvisorOutcome::NothingFound),
            AdvisorEvent::Failed(_) => end(state, AdvisorOutcome::NothingFound),
            _ => end(state, AdvisorOutcome::Failed(String::from_str(ADVISOR_OUT_OF_TURN))),
        },
        AdvisorPhase::AwaitingRetry => match event {
            AdvisorEvent::Retrieved(hits) => {
                if hits.len() == 0 {
                    end(state, AdvisorOutcome::NothingFound)
                } else {
                    generate(state, hits, summaries)
                }
            },
            AdvisorEvent::Failed(message) => end(state, AdvisorOutcome::Failed(message)),
            _ => end(state, AdvisorOutcome::Failed(String::from_str(ADVISOR_OUT_OF_TURN))),
        },
        AdvisorPhase::AwaitingAnswer => match event {
            AdvisorEvent::Answered(answer) => {
                let sources = list_hit_sources(&state.hits);
                end(state, AdvisorOutcome::Answered(RagResponse { answer, sources }))
            },
            AdvisorEvent::Failed(message) => end(state, AdvisorOutcome::Failed(message)),
            _ => end(state, AdvisorOutcome::Failed(String::from_str(ADVISOR_OUT_OF_TURN))),
        },
        AdvisorPhase::Done => end(
            state,
            AdvisorOutcome::Failed(String::from_str(ADVISOR_OUT_OF_TURN)),
        ),
    }
}

} // verus!
