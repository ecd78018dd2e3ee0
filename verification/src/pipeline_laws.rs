//! What holds of every query, whatever the outside services answer.

use crate::assembly::ProductSummaryView;
use crate::category::{allow_set, category_filtered, lemma_filtered_is_kept};
use crate::context::{lemma_single_source, RagResponseView, NOTHING_RELEVANT};
use crate::intent::{filter_expression, forced_set, quoted_spans};
use crate::pipeline::{
    begin, on_answered, on_reranked, on_retrieved, step, ActionView, EventView,
    QueryStateView,
};
use crate::rerank::{
    final_selection, is_candidate, lemma_empty_ranking_selects_nothing,
    lemma_final_selection_well_chosen, scored, ReplyView, ScoredView,
};
use crate::retrieve::{from_hits, gathered, lemma_gathered_from_hits, CandidateView, HitView};
use crate::rewrite::TurnView;
use crate::settings::Limits;
use vstd::prelude::*;

verus! {

/// The passage has the source and the text of one of the hits.
pub open spec fn passage_from_hits(passage: ScoredView, hits: Seq<HitView>) -> bool {
    exists|i: int|
        0 <= i < hits.len() && (#[trigger] hits[i]).source == passage.source && hits[i].text
            == passage.text
}

/// A query begins with the filter of its forced set, and a search it begins
/// with carries that filter and asks for the rows of the forced set
/// directly.
pub proof fn lemma_query_begins_with_the_forced_filter(
    raw: Seq<char>,
    history: Seq<TurnView>,
    synonyms: Seq<(Seq<char>, Seq<char>)>,
    summaries: Seq<(Seq<char>, ProductSummaryView)>,
    limits: Limits,
)
    ensures
        begin(raw, history, synonyms, summaries, limits).0.filter == filter_expression(
            forced_set(quoted_spans(raw), summaries),
        ),
        begin(raw, history, synonyms, summaries, limits).1 matches ActionView::Search {
            filter,
            fetch,
            ..
        } ==> filter == filter_expression(forced_set(quoted_spans(raw), summaries)) && fetch
            == forced_set(quoted_spans(raw), summaries),
{
}

/// No step changes the filter of a query, and every search a step asks for,
/// the repeated search with the raw query included, carries it and asks for
/// no more rows than the recall limit.
pub proof fn lemma_every_search_carries_the_filter(
    state: QueryStateView,
    event: EventView,
    summaries: Seq<(Seq<char>, ProductSummaryView)>,
    limits: Limits,
)
    ensures
        step(state, event, summaries, limits).0.filter == state.filter,
        step(state, event, summaries, limits).0.raw == state.raw,
        step(state, event, summaries, limits).1 matches ActionView::Search { filter, limit, .. }
            ==> filter == state.filter && limit == limits.recall_limit,
{
}

/// Every candidate that goes to reranking is a row the driver reported.
pub proof fn lemma_candidates_come_from_hits(
    state: QueryStateView,
    forced: Seq<HitView>,
    nearest: Seq<HitView>,
    summaries: Seq<(Seq<char>, ProductSummaryView)>,
    limits: Limits,
    k: int,
)
    requires
        on_retrieved(state, forced, nearest, summaries, limits).1 is Rerank,
        0 <= k < on_retrieved(state, forced, nearest, summaries, limits).0.candidates.len(),
    ensures
        from_hits(
            on_retrieved(state, forced, nearest, summaries, limits).0.candidates[k],
            state.forced + forced + nearest,
        ),
{
    let pool = gathered(state.forced + forced, nearest, limits.recall_limit as nat);
    let kept = category_filtered(state.raw, pool);
    lemma_filtered_is_kept(allow_set(state.raw), pool, k);
    let at = choose|at: int| 0 <= at < pool.len() && pool[at] == kept[k];
    lemma_gathered_from_hits(state.forced + forced, nearest, limits.recall_limit as nat, at);
}

/// Every passage chosen for the context is one of the candidates.
pub proof fn lemma_passages_are_candidates(
    candidates: Seq<CandidateView>,
    outcome: Option<ReplyView>,
    limits: Limits,
    i: int,
)
    requires
        0 <= i < final_selection(candidates, outcome, limits).len(),
    ensures
        exists|j: int|
            0 <= j < candidates.len() && (#[trigger] candidates[j]).source == final_selection(
                candidates,
                outcome,
                limits,
            )[i].source && candidates[j].text == final_selection(candidates, outcome, limits)[i].text,
{
    let chosen = final_selection(candidates, outcome, limits);
    lemma_final_selection_well_chosen(candidates, outcome, limits);
    assert(is_candidate(candidates, chosen[i]));
    let j = choose|j: int|
        0 <= j < candidates.len() && scored(#[trigger] candidates[j], chosen[i].score) == chosen[i];
    assert(candidates[j].source == chosen[i].source);
}

/// Every passage of the generation context is a row the driver reported:
/// what is not in the index cannot reach the context.
pub proof fn lemma_passages_come_from_hits(
    state: QueryStateView,
    forced: Seq<HitView>,
    nearest: Seq<HitView>,
    outcome: Option<ReplyView>,
    summaries: Seq<(Seq<char>, ProductSummaryView)>,
    limits: Limits,
    i: int,
)
    requires
        on_retrieved(state, forced, nearest, summaries, limits).1 is Rerank,
        0 <= i < final_selection(
            on_retrieved(state, forced, nearest, summaries, limits).0.candidates,
            outcome,
            limits,
        ).len(),
    ensures
        passage_from_hits(
            final_selection(
                on_retrieved(state, forced, nearest, summaries, limits).0.candidates,
                outcome,
                limits,
            )[i],
            state.forced + forced + nearest,
        ),
{
    let candidates = on_retrieved(state, forced, nearest, summaries, limits).0.candidates;
    let chosen = final_selection(candidates, outcome, limits);
    let hits = state.forced + forced + nearest;
    lemma_passages_are_candidates(candidates, outcome, limits, i);
    let j = choose|j: int|
        0 <= j < candidates.len() && (#[trigger] candidates[j]).source == chosen[i].source
            && candidates[j].text == chosen[i].text;
    lemma_candidates_come_from_hits(state, forced, nearest, summaries, limits, j);
    let h = choose|h: int|
        0 <= h < hits.len() && (#[trigger] hits[h]).source == candidates[j].source && hits[h].text
            == candidates[j].text;
    assert(hits[h].source == chosen[i].source && hits[h].text == chosen[i].text);
}

/// A query whose searches report rows of one document only, and which
/// reaches generation, answers with the generated text and names exactly
/// that document as its source. This holds whether the rerank service
/// ranked the passages or was down.
pub proof fn lemma_answer_names_the_only_source(
    state: QueryStateView,
    forced: Seq<HitView>,
    nearest: Seq<HitView>,
    outcome: Option<ReplyView>,
    answer: Seq<char>,
    summaries: Seq<(Seq<char>, ProductSummaryView)>,
    limits: Limits,
    source: Seq<char>,
)
    requires
        forall|h: int|
            0 <= h < (state.forced + forced + nearest).len() ==> (#[trigger] (state.forced + forced
                + nearest)[h]).source == source,
        on_retrieved(state, forced, nearest, summaries, limits).1 is Rerank,
        on_reranked(
            on_retrieved(state, forced, nearest, summaries, limits).0,
            outcome,
            summaries,
            limits,
        ).1 is Generate,
    ensures
        on_answered(
            on_reranked(
                on_retrieved(state, forced, nearest, summaries, limits).0,
                outcome,
                summaries,
                limits,
            ).0,
            answer,
        ).1 == ActionView::Finish(Ok(RagResponseView { answer, sources: seq![source] })),
{
    let searched = on_retrieved(state, forced, nearest, summaries, limits).0;
    let chosen = final_selection(searched.candidates, outcome, limits);
    let hits = state.forced + forced + nearest;
    assert forall|i: int| 0 <= i < chosen.len() implies (#[trigger] chosen[i]).source == source by {
        lemma_passages_come_from_hits(state, forced, nearest, outcome, summaries, limits, i);
        let h = choose|h: int|
            0 <= h < hits.len() && (#[trigger] hits[h]).source == chosen[i].source && hits[h].text
                == chosen[i].text;
    }
    lemma_single_source(chosen, source);
}

/// A rerank reply that was read and ranks nothing ends the query with the
/// message that what was found did not pass the relevance check; it is not
/// taken for a failure of the service.
pub proof fn lemma_empty_ranking_ends_the_query(
    state: QueryStateView,
    reply: ReplyView,
    summaries: Seq<(Seq<char>, ProductSummaryView)>,
    limits: Limits,
)
    requires
        reply.indices.len() == 0,
    ensures
        on_reranked(state, Some(reply), summaries, limits).1 == ActionView::Finish(
            Ok(RagResponseView { answer: NOTHING_RELEVANT@, sources: Seq::empty() }),
        ),
        !on_reranked(state, Some(reply), summaries, limits).0.fallbacks.rerank_skipped,
{
    lemma_empty_ranking_selects_nothing(
        state.candidates,
        reply,
        limits.recall_limit as nat,
        limits.max_chunks_per_doc as nat,
    );
}

} // verus!
