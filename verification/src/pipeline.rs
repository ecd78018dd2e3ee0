//! The query pipeline as a state machine.
//!
//! Answering a query takes up to five exchanges with the outside world: a
//! rewrite by a language model, a search of the vector index, possibly a
//! second search, a rerank, and the generation of the answer. The machine
//! decides; its driver acts. `start` and `advance` return the next action
//! for the driver to perform, and the driver reports the outcome as the
//! next event. Failures of the optional stages (rewriting, reranking) are
//! absorbed here; failures of the mandatory ones end the query with an
//! error message.

use crate::assembly::{ProductSummary, ProductSummaryView};
use crate::category::{allow_set, category_filtered, filter_by_category, lifted_for};
use crate::context::{
    assemble_context, context_text, source_list, RagResponse, RagResponseView, NOTHING_FOUND,
    NOTHING_RELEVANT,
};
use crate::intent::{extract_intent, filter_expression, forced_set, quoted_spans, search_filter};
use crate::llm::REWRITE_INSTRUCTION;
use crate::models::opt_view;
use crate::normalize::{expanded_query, prepare_query};
use crate::rerank::{
    choose_passages, final_selection, is_ranked, judge_documents, judge_texts, outcome_view,
    ranked, scored_views, RerankReply, ReplyView, ScoredChunk, ScoredView,
};
use crate::retrieve::{
    candidate_views, fallback_due, gather_candidates, gathered, hit_views, needs_fallback,
    Candidate, CandidateView, Hit, HitView,
};
use crate::rewrite::{
    make_rewrite_request, rewrite_request, rewrite_wanted, settle_query, settled, should_rewrite,
    turn_views, Turn, TurnView,
};
use crate::settings::Limits;
use crate::table::Table;
use crate::text::views;
use vstd::prelude::*;
use vstd::string::StringExecFns;

verus! {

/// What the machine is waiting for.
#[derive(Debug, Clone, Copy, PartialEq, Eq, Structural)]
pub enum Phase {
    AwaitingRewrite,
    AwaitingSearch,
    AwaitingFallback,
    AwaitingRerank,
    AwaitingAnswer,
    Done,
}

/// Which fallbacks a query has taken so far. A query that takes one still
/// answers, in a degraded way; the record makes that visible.
#[derive(Debug, Clone, Copy, PartialEq, Eq, Structural)]
pub struct Fallbacks {
    /// The rewriting model gave no answer; the expanded query was kept.
    pub rewrite_abandoned: bool,
    /// The first search found nothing; the raw query was searched.
    pub searched_raw: bool,
    /// The category filter would have left no candidate and was lifted.
    pub filter_lifted: bool,
    /// The rerank service gave no reply that could be followed; the
    /// selection is unranked.
    pub rerank_skipped: bool,
}

/// No fallback taken.
pub open spec fn no_fallbacks() -> Fallbacks {
    Fallbacks {
        rewrite_abandoned: false,
        searched_raw: false,
        filter_lifted: false,
        rerank_skipped: false,
    }
}

/// The state of a query between two exchanges.
#[derive(Debug, Clone)]
pub struct QueryState {
    pub phase: Phase,
    /// The fallbacks taken so far.
    pub fallbacks: Fallbacks,
    /// The query as the user wrote it.
    pub raw: String,
    /// The string the index is searched with and the answer is asked for.
    pub search_target: String,
    /// The filter that restricts searches to the forced set, if any.
    pub filter: Option<String>,
    /// The forced set: the documents the query refers to by name.
    pub forced_files: Vec<String>,
    /// Rows fetched directly for the forced set.
    pub forced: Vec<Hit>,
    /// The candidates that are being reranked.
    pub candidates: Vec<Candidate>,
    /// The passages the answer is generated from.
    pub chosen: Vec<ScoredChunk>,
}

/// The view of [`QueryState`]: every string as its character sequence.
pub struct QueryStateView {
    pub phase: Phase,
    pub fallbacks: Fallbacks,
    pub raw: Seq<char>,
    pub search_target: Seq<char>,
    pub filter: Option<Seq<char>>,
    pub forced_files: Seq<Seq<char>>,
    pub forced: Seq<HitView>,
    pub candidates: Seq<CandidateView>,
    pub chosen: Seq<ScoredView>,
}

impl View for QueryState {
    type V = QueryStateView;

    open spec fn view(&self) -> QueryStateView {
        QueryStateView {
            phase: self.phase,
            fallbacks: self.fallbacks,
            raw: self.raw@,
            search_target: self.search_target@,
            filter: opt_view(self.filter),
            forced_files: views(self.forced_files@),
            forced: hit_views(self.forced@),
            candidates: candidate_views(self.candidates@),
            chosen: scored_views(self.chosen@),
        }
    }
}

/// What the driver reports.
#[derive(Debug, Clone)]
pub enum Event {
    /// The rewriting model answered, or the call failed.
    Rewritten(Option<String>),
    /// The index was searched: the rows fetched directly for the files the
    /// search action named, and the nearest rows in ranked order.
    Retrieved { forced: Vec<Hit>, nearest: Vec<Hit> },
    /// The rerank service answered, or the call failed.
    Reranked(Option<RerankReply>),
    /// The answer was generated.
    Answered(String),
    /// The pending action failed, with a message for the caller.
    Failed(String),
}

/// The view of [`Event`]: every string as its character sequence.
pub enum EventView {
    Rewritten(Option<Seq<char>>),
    Retrieved { forced: Seq<HitView>, nearest: Seq<HitView> },
    Reranked(Option<ReplyView>),
    Answered(Seq<char>),
    Failed(Seq<char>),
}

impl View for Event {
    type V = EventView;

    open spec fn view(&self) -> EventView {
        match *self {
            Event::Rewritten(answer) => EventView::Rewritten(opt_view(answer)),
            Event::Retrieved { forced, nearest } => EventView::Retrieved {
                forced: hit_views(forced@),
                nearest: hit_views(nearest@),
            },
            Event::Reranked(outcome) => EventView::Reranked(outcome_view(outcome)),
            Event::Answered(text) => EventView::Answered(text@),
            Event::Failed(message) => EventView::Failed(message@),
        }
    }
}

/// The stage at which a query failed.
#[derive(Debug, Clone, Copy, PartialEq, Eq, Structural)]
pub enum Stage {
    /// Embedding the search string or searching the index.
    Retrieval,
    /// Generating the answer.
    Generation,
    /// The driver reported an event that does not answer the pending
    /// action.
    Protocol,
}

/// The failure of a query: the stage that failed and a message for the
/// caller.
#[derive(Debug, Clone)]
pub struct QueryFailure {
    pub stage: Stage,
    pub message: String,
}

/// The view of [`QueryFailure`]: every string as its character sequence.
pub struct QueryFailureView {
    pub stage: Stage,
    pub message: Seq<char>,
}

impl View for QueryFailure {
    type V = QueryFailureView;

    open spec fn view(&self) -> QueryFailureView {
        QueryFailureView { stage: self.stage, message: self.message@ }
    }
}

/// The name a stage is reported under.
pub open spec fn stage_label(stage: Stage) -> Seq<char> {
    match stage {
        Stage::Retrieval => "retrieval"@,
        Stage::Generation => "generation"@,
        Stage::Protocol => "protocol"@,
    }
}

/// The failure as one line: the stage, then the message.
pub open spec fn labeled_text(failure: QueryFailureView) -> Seq<char> {
    stage_label(failure.stage) + ": "@ + failure.message
}

impl QueryFailure {
    /// The failure as one line: the stage, then the message.
    pub fn labeled(&self) -> (out: String)
        ensures
            out@ == labeled_text(self@),
    {
        let mut out = match self.stage {
            Stage::Retrieval => String::from_str("retrieval"),
            Stage::Generation => String::from_str("generation"),
            Stage::Protocol => String::from_str("protocol"),
        };
        out.append(": ");
        out.append(self.message.as_str());
        out
    }
}

/// What the driver is to do next.
#[derive(Debug)]
pub enum Action {
    /// Ask the language model to rewrite the query.
    Rewrite { instruction: String, request: String },
    /// Embed `query` and fetch the `limit` nearest rows, restricted by
    /// `filter` when there is one. Beside that, fetch up to `limit` rows of
    /// each file in `fetch` directly, without ranking them.
    Search { query: String, filter: Option<String>, limit: usize, fetch: Vec<String> },
    /// Submit the documents to the rerank service for `query`.
    Rerank { query: String, documents: Vec<String> },
    /// Ask the language model to answer `query` from `context`.
    Generate { context: String, query: String },
    /// The query is over: hand the response, or the failure, to the caller.
    Finish(Result<RagResponse, QueryFailure>),
}

/// The view of [`Action`]: every string as its character sequence.
pub enum ActionView {
    Rewrite { instruction: Seq<char>, request: Seq<char> },
    Search { query: Seq<char>, filter: Option<Seq<char>>, limit: usize, fetch: Seq<Seq<char>> },
    Rerank { query: Seq<char>, documents: Seq<Seq<char>> },
    Generate { context: Seq<char>, query: Seq<char> },
    Finish(Result<RagResponseView, QueryFailureView>),
}

impl View for Action {
    type V = ActionView;

    open spec fn view(&self) -> ActionView {
        match *self {
            Action::Rewrite { instruction, request } => ActionView::Rewrite {
                instruction: instruction@,
                request: request@,
            },
            Action::Search { query, filter, limit, fetch } => ActionView::Search {
                query: query@,
                filter: opt_view(filter),
                limit,
                fetch: views(fetch@),
            },
            Action::Rerank { query, documents } => ActionView::Rerank {
                query: query@,
                documents: views(documents@),
            },
            Action::Generate { context, query } => ActionView::Generate {
                context: context@,
                query: query@,
            },
            Action::Finish(outcome) => ActionView::Finish(
                match outcome {
                    Ok(response) => Ok(response@),
                    Err(failure) => Err(failure@),
                },
            ),
        }
    }
}

/// The message of a query that ended because an event did not answer the
/// pending action.
pub const OUT_OF_TURN: &'static str = "the event does not answer the pending action";

/// The state with the query over.
pub open spec fn finished(state: QueryStateView) -> QueryStateView {
    QueryStateView { phase: Phase::Done, ..state }
}

/// The first search for the state's search string. It also asks for the
/// rows of the forced set, which are fetched directly.
pub open spec fn search_for(state: QueryStateView, limits: Limits) -> ActionView {
    ActionView::Search {
        query: state.search_target,
        filter: state.filter,
        limit: limits.recall_limit,
        fetch: state.forced_files,
    }
}

/// The repeated search for the state's search string. The rows of the
/// forced set are held already and are not asked for again.
pub open spec fn search_again(state: QueryStateView, limits: Limits) -> ActionView {
    ActionView::Search {
        query: state.search_target,
        filter: state.filter,
        limit: limits.recall_limit,
        fetch: Seq::empty(),
    }
}

/// How a query begins: the query is normalised and expanded, the forced set
/// is turned into a filter, and either a rewrite is requested or the index
/// is searched at once.
pub open spec fn begin(
    raw: Seq<char>,
    history: Seq<TurnView>,
    synonyms: Seq<(Seq<char>, Seq<char>)>,
    summaries: Seq<(Seq<char>, ProductSummaryView)>,
    limits: Limits,
) -> (QueryStateView, ActionView) {
    let state = QueryStateView {
        phase: if rewrite_wanted(history.len(), raw) {
            Phase::AwaitingRewrite
        } else {
            Phase::AwaitingSearch
        },
        fallbacks: no_fallbacks(),
        raw,
        search_target: expanded_query(raw, synonyms),
        filter: filter_expression(forced_set(quoted_spans(raw), summaries)),
        forced_files: forced_set(quoted_spans(raw), summaries),
        forced: Seq::empty(),
        candidates: Seq::empty(),
        chosen: Seq::empty(),
    };
    if rewrite_wanted(history.len(), raw) {
        (
            state,
            ActionView::Rewrite {
                instruction: REWRITE_INSTRUCTION@,
                request: rewrite_request(history, raw),
            },
        )
    } else {
        (state, search_for(state, limits))
    }
}

/// After the rewrite: the search string is settled and the index is
/// searched with it.
pub open spec fn on_rewritten(state: QueryStateView, answer: Option<Seq<char>>, limits: Limits) -> (
    QueryStateView,
    ActionView,
) {
    let next = QueryStateView {
        phase: Phase::AwaitingSearch,
        fallbacks: Fallbacks { rewrite_abandoned: answer.is_none(), ..state.fallbacks },
        search_target: settled(state.search_target, state.raw, answer),
        ..state
    };
    (next, search_for(next, limits))
}

/// After a search. A first search that found no nearest row with a search
/// string other than the raw query is repeated with the raw query.
/// Otherwise the forced rows and the nearest rows, up to the recall limit,
/// are merged; without any candidate the query ends, with candidates they
/// are filtered by category and sent to reranking.
pub open spec fn on_retrieved(
    state: QueryStateView,
    forced: Seq<HitView>,
    nearest: Seq<HitView>,
    summaries: Seq<(Seq<char>, ProductSummaryView)>,
    limits: Limits,
) -> (QueryStateView, ActionView) {
    if state.phase == Phase::AwaitingSearch && fallback_due(
        nearest.len(),
        state.search_target,
        state.raw,
    ) {
        let next = QueryStateView {
            phase: Phase::AwaitingFallback,
            fallbacks: Fallbacks { searched_raw: true, ..state.fallbacks },
            search_target: state.raw,
            forced: state.forced + forced,
            ..state
        };
        (next, search_again(next, limits))
    } else {
        let pool = gathered(state.forced + forced, nearest, limits.recall_limit as nat);
        if pool.len() == 0 {
            (
                QueryStateView { phase: Phase::Done, forced: state.forced + forced, ..state },
                ActionView::Finish(
                    Ok(RagResponseView { answer: NOTHING_FOUND@, sources: Seq::empty() }),
                ),
            )
        } else {
            let kept = category_filtered(state.raw, pool);
            (
                QueryStateView {
                    phase: Phase::AwaitingRerank,
                    fallbacks: Fallbacks {
                        filter_lifted: lifted_for(allow_set(state.raw), pool),
                        ..state.fallbacks
                    },
                    forced: state.forced + forced,
                    candidates: kept,
                    ..state
                },
                ActionView::Rerank {
                    query: state.search_target,
                    documents: judge_texts(kept, summaries),
                },
            )
        }
    }
}

/// After reranking: the passages are chosen; without any the query ends,
/// with some the answer is requested.
pub open spec fn on_reranked(
    state: QueryStateView,
    outcome: Option<ReplyView>,
    summaries: Seq<(Seq<char>, ProductSummaryView)>,
    limits: Limits,
) -> (QueryStateView, ActionView) {
    let chosen = final_selection(state.candidates, outcome, limits);
    let fallbacks = Fallbacks { rerank_skipped: !ranked(outcome), ..state.fallbacks };
    if chosen.len() == 0 {
        (
            QueryStateView { phase: Phase::Done, fallbacks, ..state },
            ActionView::Finish(
                Ok(RagResponseView { answer: NOTHING_RELEVANT@, sources: Seq::empty() }),
            ),
        )
    } else {
        (
            QueryStateView { phase: Phase::AwaitingAnswer, fallbacks, chosen, ..state },
            ActionView::Generate {
                context: context_text(chosen, summaries),
                query: state.search_target,
            },
        )
    }
}

/// After generation: the response carries the answer and the sources of the
/// chosen passages.
pub open spec fn on_answered(state: QueryStateView, answer: Seq<char>) -> (
    QueryStateView,
    ActionView,
) {
    (
        finished(state),
        ActionView::Finish(Ok(RagResponseView { answer, sources: source_list(state.chosen) })),
    )
}

/// The query ends with a failure.
pub open spec fn on_failed(state: QueryStateView, stage: Stage, message: Seq<char>) -> (
    QueryStateView,
    ActionView,
) {
    (finished(state), ActionView::Finish(Err(QueryFailureView { stage, message })))
}

/// The transition of the machine. A failure reported while a rewrite or a
/// rerank is pending counts as the absence of an answer of that service; a
/// failure reported while a search or the generation is pending ends the
/// query with a failure of that stage. An event that does not answer the
/// pending action ends the query as well.
pub open spec fn step(
    state: QueryStateView,
    event: EventView,
    summaries: Seq<(Seq<char>, ProductSummaryView)>,
    limits: Limits,
) -> (QueryStateView, ActionView) {
    match (state.phase, event) {
        (Phase::AwaitingRewrite, EventView::Rewritten(answer)) => on_rewritten(
            state,
            answer,
            limits,
        ),
        (Phase::AwaitingRewrite, EventView::Failed(_)) => on_rewritten(state, None, limits),
        (Phase::AwaitingSearch, EventView::Retrieved { forced, nearest }) => on_retrieved(
            state,
            forced,
            nearest,
            summaries,
            limits,
        ),
        (Phase::AwaitingFallback, EventView::Retrieved { forced, nearest }) => on_retrieved(
            state,
            forced,
            nearest,
            summaries,
            limits,
        ),
        (Phase::AwaitingSearch, EventView::Failed(message)) => on_failed(
            state,
            Stage::Retrieval,
            message,
        ),
        (Phase::AwaitingFallback, EventView::Failed(message)) => on_failed(
            state,
            Stage::Retrieval,
            message,
        ),
        (Phase::AwaitingRerank, EventView::Reranked(outcome)) => on_reranked(
            state,
            outcome,
            summaries,
            limits,
        ),
        (Phase::AwaitingRerank, EventView::Failed(_)) => on_reranked(
            state,
            None,
            summaries,
            limits,
        ),
        (Phase::AwaitingAnswer, EventView::Answered(answer)) => on_answered(state, answer),
        (Phase::AwaitingAnswer, EventView::Failed(message)) => on_failed(
            state,
            Stage::Generation,
            message,
        ),
        _ => on_failed(state, Stage::Protocol, OUT_OF_TURN@),
    }
}

fn copy_filter(filter: &Option<String>) -> (copy: Option<String>)
    ensures
        opt_view(copy) == opt_view(*filter),
{
    match filter {
        Some(text) => Some(text.clone()),
        None => None,
    }
}

fn search_action(state: &QueryState, limits: &Limits) -> (action: Action)
    ensures
        action@ == search_for(state@, *limits),
{
    let fetch = state.forced_files.clone();
    assert(views(fetch@) =~= views(state.forced_files@));
    Action::Search {
        query: state.search_target.clone(),
        filter: copy_filter(&state.filter),
        limit: limits.recall_limit,
        fetch,
    }
}

fn repeat_action(state: &QueryState, limits: &Limits) -> (action: Action)
    ensures
        action@ == search_again(state@, *limits),
{
    let fetch: Vec<String> = Vec::new();
    assert(views(fetch@) =~= Seq::<Seq<char>>::empty());
    Action::Search {
        query: state.search_target.clone(),
        filter: copy_filter(&state.filter),
        limit: limits.recall_limit,
        fetch,
    }
}

fn fail(state: QueryState, stage: Stage, message: String) -> (out: (QueryState, Action))
    ensures
        (out.0@, out.1@) == on_failed(state@, stage, message@),
{
    let mut next = state;
    next.phase = Phase::Done;
    (next, Action::Finish(Err(QueryFailure { stage, message })))
}

fn out_of_turn(state: QueryState) -> (out: (QueryState, Action))
    ensures
        (out.0@, out.1@) == on_failed(state@, Stage::Protocol, OUT_OF_TURN@),
{
    fail(state, Stage::Protocol, String::from_str(OUT_OF_TURN))
}

/// Begins a query.
pub fn start(
    raw: &str,
    history: &Vec<Turn>,
    synonyms: &Table<String>,
    summaries: &Table<ProductSummary>,
    limits: &Limits,
) -> (out: (QueryState, Action))
    requires
        synonyms.wf(),
        summaries.wf(),
    ensures
        (out.0@, out.1@) == begin(
            raw@,
            turn_views(history@),
            synonyms.entries(),
            summaries.entries(),
            *limits,
        ),
{
    let rewrite = should_rewrite(history, raw);
    let forced = extract_intent(raw, summaries);
    let state = QueryState {
        phase: if rewrite {
            Phase::AwaitingRewrite
        } else {
            Phase::AwaitingSearch
        },
        fallbacks: Fallbacks {
            rewrite_abandoned: false,
            searched_raw: false,
            filter_lifted: false,
            rerank_skipped: false,
        },
        raw: String::from_str(raw),
        search_target: prepare_query(raw, synonyms),
        filter: search_filter(&forced),
        forced_files: forced,
        forced: Vec::new(),
        candidates: Vec::new(),
        chosen: Vec::new(),
    };
    proof {
        assert(hit_views(state.forced@) =~= Seq::<HitView>::empty());
        assert(candidate_views(state.candidates@) =~= Seq::<CandidateView>::empty());
        assert(scored_views(state.chosen@) =~= Seq::<ScoredView>::empty());
    }
    if rewrite {
        let action = Action::Rewrite {
            instruction: String::from_str(REWRITE_INSTRUCTION),
            request: make_rewrite_request(history, raw),
        };
        (state, action)
    } else {
        let action = search_action(&state, limits);
        (state, action)
    }
}

fn after_rewrite(state: QueryState, answer: Option<String>, limits: &Limits) -> (out: (
    QueryState,
    Action,
))
    ensures
        (out.0@, out.1@) == on_rewritten(state@, opt_view(answer), *limits),
{
    let QueryState {
        phase: _,
        fallbacks,
        raw,
        search_target,
        filter,
        forced_files,
        forced,
        candidates,
        chosen,
    } = state;
    let abandoned = answer.is_none();
    let target = settle_query(search_target, raw.as_str(), answer);
    let next = QueryState {
        phase: Phase::AwaitingSearch,
        fallbacks: Fallbacks { rewrite_abandoned: abandoned, ..fallbacks },
        raw,
        search_target: target,
        filter,
        forced_files,
        forced,
        candidates,
        chosen,
    };
    let action = search_action(&next, limits);
    (next, action)
}

fn after_retrieval(
    state: QueryState,
    forced: Vec<Hit>,
    nearest: Vec<Hit>,
    summaries: &Table<ProductSummary>,
    limits: &Limits,
) -> (out: (QueryState, Action))
    requires
        summaries.wf(),
    ensures
        (out.0@, out.1@) == on_retrieved(
            state@,
            hit_views(forced@),
            hit_views(nearest@),
            summaries.entries(),
            *limits,
        ),
{
    let QueryState {
        phase,
        fallbacks,
        raw,
        search_target,
        filter,
        forced_files,
        forced: held,
        candidates,
        chosen,
    } = state;
    let mut all_forced = held;
    let mut more = forced;
    all_forced.append(&mut more);
    assert(hit_views(all_forced@) =~= state@.forced + hit_views(forced@));
    let first_search = match phase {
        Phase::AwaitingSearch => true,
        _ => false,
    };
    if first_search && needs_fallback(nearest.len(), search_target.as_str(), raw.as_str()) {
        let next = QueryState {
            phase: Phase::AwaitingFallback,
            fallbacks: Fallbacks { searched_raw: true, ..fallbacks },
            search_target: raw.clone(),
            raw,
            filter,
            forced_files,
            forced: all_forced,
            candidates,
            chosen,
        };
        let action = repeat_action(&next, limits);
        (next, action)
    } else {
        let pool = gather_candidates(&all_forced, nearest, limits.recall_limit);
        if pool.len() == 0 {
            let next = QueryState {
                phase: Phase::Done,
                fallbacks,
                raw,
                search_target,
                filter,
                forced_files,
                forced: all_forced,
                candidates,
                chosen,
            };
            let response = RagResponse::nothing_found();
            assert(response@.sources =~= Seq::<Seq<char>>::empty());
            (next, Action::Finish(Ok(response)))
        } else {
            let kept = filter_by_category(raw.as_str(), pool);
            let documents = judge_documents(&kept.candidates, summaries);
            let query = search_target.clone();
            let next = QueryState {
                phase: Phase::AwaitingRerank,
                fallbacks: Fallbacks { filter_lifted: kept.lifted, ..fallbacks },
                raw,
                search_target,
                filter,
                forced_files,
                forced: all_forced,
                candidates: kept.candidates,
                chosen,
            };
            (next, Action::Rerank { query, documents })
        }
    }
}

fn after_rerank(
    state: QueryState,
    outcome: Option<RerankReply>,
    summaries: &Table<ProductSummary>,
    limits: &Limits,
) -> (out: (QueryState, Action))
    requires
        summaries.wf(),
    ensures
        (out.0@, out.1@) == on_reranked(state@, outcome_view(outcome), summaries.entries(), *limits),
{
    let picked = choose_passages(&state.candidates, &outcome, limits);
    let skipped = !is_ranked(&outcome);
    if picked.len() == 0 {
        let mut next = state;
        next.phase = Phase::Done;
        next.fallbacks.rerank_skipped = skipped;
        let response = RagResponse::nothing_relevant();
        assert(response@.sources =~= Seq::<Seq<char>>::empty());
        (next, Action::Finish(Ok(response)))
    } else {
        let context = assemble_context(&picked, summaries);
        let query = state.search_target.clone();
        let mut next = state;
        next.phase = Phase::AwaitingAnswer;
        next.fallbacks.rerank_skipped = skipped;
        next.chosen = picked;
        (next, Action::Generate { context, query })
    }
}

fn after_answer(state: QueryState, answer: String) -> (out: (QueryState, Action))
    ensures
        (out.0@, out.1@) == on_answered(state@, answer@),
{
    let response = RagResponse::answered(answer, &state.chosen);
    let mut next = state;
    next.phase = Phase::Done;
    (next, Action::Finish(Ok(response)))
}

/// Takes the machine one step: given what the driver reports, returns the
/// next state and the next action.
pub fn advance(
    state: QueryState,
    event: Event,
    summaries: &Table<ProductSummary>,
    limits: &Limits,
) -> (out: (QueryState, Action))
    requires
        summaries.wf(),
    ensures
        (out.0@, out.1@) == step(state@, event@, summaries.entries(), *limits),
{
    match state.phase {
        Phase::AwaitingRewrite => match event {
            Event::Rewritten(answer) => after_rewrite(state, answer, limits),
            Event::Failed(_) => after_rewrite(state, None, limits),
            _ => out_of_turn(state),
        },
        Phase::AwaitingSearch => match event {
            Event::Retrieved { forced, nearest } => after_retrieval(
                state,
                forced,
                nearest,
                summaries,
                limits,
            ),
            Event::Failed(message) => fail(state, Stage::Retrieval, message),
            _ => out_of_turn(state),
        },
        Phase::AwaitingFallback => match event {
            Event::Retrieved { forced, nearest } => after_retrieval(
                state,
                forced,
                nearest,
                summaries,
                limits,
            ),
            Event::Failed(message) => fail(state, Stage::Retrieval, message),
            _ => out_of_turn(state),
        },
        Phase::AwaitingRerank => match event {
            Event::Reranked(outcome) => after_rerank(state, outcome, summaries, limits),
            Event::Failed(_) => after_rerank(state, None, summaries, limits),
            _ => out_of_turn(state),
        },
        Phase::AwaitingAnswer => match event {
            Event::Answered(answer) => after_answer(state, answer),
            Event::Failed(message) => fail(state, Stage::Generation, message),
            _ => out_of_turn(state),
        },
        Phase::Done => out_of_turn(state),
    }
}

} // verus!
