//! Reranking: choosing the passages of the generation context.
//!
//! An external service scores the candidates against the query. From its
//! ordering the final passages are chosen greedily: a passage is taken
//! unless the selection is full, its score is below the floor, or its
//! document already contributes as many passages as the diversity cap
//! allows. When the service cannot be reached, refuses, or answers
//! something unreadable, the same choice is made over the candidates in
//! their incoming order. A reply that ranks nothing is followed like any
//! other: nothing is selected.
//!
//! Scores are single-precision floating-point numbers. They are held here
//! as their IEEE-754 bit patterns, on which the comparison with the floor is
//! a comparison of integers, together with the text they are displayed as.

use crate::assembly::{ProductSummary, ProductSummaryView};
use crate::retrieve::{candidate_views, Candidate, CandidateView};
use crate::settings::Limits;
use crate::table::{lookup, Table};
use crate::text::{lemma_views_push, views};
use vstd::prelude::*;
use vstd::string::StringExecFns;

verus! {

/// A relevance score: the bit pattern of a single-precision number and the
/// text it is shown as.
#[derive(Debug, Clone)]
pub struct Score {
    pub bits: u32,
    pub shown: String,
}

/// The view of [`Score`]: every string as its character sequence.
pub struct ScoreView {
    pub bits: u32,
    pub shown: Seq<char>,
}

impl View for Score {
    type V = ScoreView;

    open spec fn view(&self) -> ScoreView {
        ScoreView { bits: self.bits, shown: self.shown@ }
    }
}

/// The views of a sequence of scores.
pub open spec fn score_views(scores: Seq<Score>) -> Seq<ScoreView> {
    Seq::new(scores.len(), |i: int| scores[i]@)
}

/// The bit pattern of the score floor, `-5.0`.
pub const SCORE_FLOOR_BITS: u32 = 0xC0A0_0000;

/// The bit pattern of negative infinity, the largest pattern of a negative
/// number.
pub const NEGATIVE_INFINITY_BITS: u32 = 0xFF80_0000;

/// The score is a number below the floor. Negative numbers have patterns
/// that grow with their magnitude, so these are the patterns above that of
/// the floor up to negative infinity; patterns beyond are not numbers and
/// compare below nothing.
pub open spec fn below_floor(bits: u32) -> bool {
    SCORE_FLOOR_BITS < bits <= NEGATIVE_INFINITY_BITS
}

/// The score that stands in when the service gave none: zero.
pub open spec fn placeholder_score() -> ScoreView {
    ScoreView { bits: 0, shown: "0.0"@ }
}

/// The answer of the rerank service: positions in the submitted list in the
/// service's order of preference, and the score of each.
#[derive(Debug, Clone)]
pub struct RerankReply {
    pub indices: Vec<usize>,
    pub scores: Vec<Score>,
}

/// The view of [`RerankReply`]: every string as its character sequence.
pub struct ReplyView {
    pub indices: Seq<usize>,
    pub scores: Seq<ScoreView>,
}

impl View for RerankReply {
    type V = ReplyView;

    open spec fn view(&self) -> ReplyView {
        ReplyView { indices: self.indices@, scores: score_views(self.scores@) }
    }
}

/// The view of an optional reply.
pub open spec fn outcome_view(outcome: Option<RerankReply>) -> Option<ReplyView> {
    match outcome {
        Some(reply) => Some(reply@),
        None => None,
    }
}

/// A passage chosen for the generation context, with its score.
#[derive(Debug, Clone)]
pub struct ScoredChunk {
    pub source: String,
    pub text: String,
    pub score: Score,
    pub forced: bool,
}

/// The view of [`ScoredChunk`]: every string as its character sequence.
pub struct ScoredView {
    pub source: Seq<char>,
    pub text: Seq<char>,
    pub score: ScoreView,
    pub forced: bool,
}

impl View for ScoredChunk {
    type V = ScoredView;

    open spec fn view(&self) -> ScoredView {
        ScoredView {
            source: self.source@,
            text: self.text@,
            score: self.score@,
            forced: self.forced,
        }
    }
}

/// The views of a sequence of chosen passages.
pub open spec fn scored_views(items: Seq<ScoredChunk>) -> Seq<ScoredView> {
    Seq::new(items.len(), |i: int| items[i]@)
}

/// What the judge is shown for a candidate: the chunk text, preceded by the
/// summary of its product when the product is known.
pub open spec fn judge_text(
    candidate: CandidateView,
    summaries: Seq<(Seq<char>, ProductSummaryView)>,
) -> Seq<char> {
    match lookup(summaries, candidate.source) {
        Some(summary) => summary.intro + "\n文件內容: "@ + candidate.text,
        None => candidate.text,
    }
}

/// What the judge is shown, candidate by candidate.
pub open spec fn judge_texts(
    candidates: Seq<CandidateView>,
    summaries: Seq<(Seq<char>, ProductSummaryView)>,
) -> Seq<Seq<char>> {
    Seq::new(candidates.len(), |i: int| judge_text(candidates[i], summaries))
}

/// The candidate with a score attached.
pub open spec fn scored(candidate: CandidateView, score: ScoreView) -> ScoredView {
    ScoredView { source: candidate.source, text: candidate.text, score, forced: candidate.forced }
}

/// The passages of one document.
pub open spec fn from_source(source: Seq<char>) -> spec_fn(ScoredView) -> bool {
    |item: ScoredView| item.source == source
}

/// How many of the chosen passages belong to the document.
pub open spec fn count_of(chosen: Seq<ScoredView>, source: Seq<char>) -> nat {
    chosen.filter(from_source(source)).len()
}

/// The reply can be followed: it has a score for every position it ranks.
/// A reply with fewer scores than positions is as unreadable as a body that
/// does not parse.
pub open spec fn usable(reply: ReplyView) -> bool {
    reply.scores.len() >= reply.indices.len()
}

/// The selection after the first `n` positions of the reply. A position is
/// passed over when the selection is full, when it names no candidate, when
/// its score is below the floor and the candidate is not forced, or when
/// the candidate's document has reached the cap.
pub open spec fn take_ranked(
    candidates: Seq<CandidateView>,
    reply: ReplyView,
    limit: nat,
    cap: nat,
    n: nat,
) -> Seq<ScoredView>
    decreases n,
{
    if n == 0 {
        Seq::empty()
    } else {
        let before = take_ranked(candidates, reply, limit, cap, (n - 1) as nat);
        let at = reply.indices[n - 1] as int;
        let score = reply.scores[n - 1];
        if before.len() >= limit || at >= candidates.len() || (below_floor(score.bits)
            && !candidates[at].forced) || count_of(before, candidates[at].source) >= cap {
            before
        } else {
            before.push(scored(candidates[at], score))
        }
    }
}

/// The selection after the first `n` candidates in incoming order, each
/// with the placeholder score.
pub open spec fn take_unranked(candidates: Seq<CandidateView>, limit: nat, cap: nat, n: nat) -> Seq<
    ScoredView,
>
    decreases n,
{
    if n == 0 {
        Seq::empty()
    } else {
        let before = take_unranked(candidates, limit, cap, (n - 1) as nat);
        if before.len() >= limit || count_of(before, candidates[n - 1].source) >= cap {
            before
        } else {
            before.push(scored(candidates[n - 1], placeholder_score()))
        }
    }
}

/// The selection follows the ranking of the service: there is a reply and
/// it is usable.
pub open spec fn ranked(outcome: Option<ReplyView>) -> bool {
    match outcome {
        Some(reply) => usable(reply),
        None => false,
    }
}

/// The selection: by the service's ranking when its reply is usable, in
/// incoming order otherwise.
pub open spec fn selection(
    candidates: Seq<CandidateView>,
    outcome: Option<ReplyView>,
    limit: nat,
    cap: nat,
) -> Seq<ScoredView> {
    match outcome {
        Some(reply) => if usable(reply) {
            take_ranked(candidates, reply, limit, cap, reply.indices.len())
        } else {
            take_unranked(candidates, limit, cap, candidates.len())
        },
        None => take_unranked(candidates, limit, cap, candidates.len()),
    }
}

/// The first `n` of the chosen passages, or all of them if there are fewer.
pub open spec fn first_of(chosen: Seq<ScoredView>, n: nat) -> Seq<ScoredView> {
    if n <= chosen.len() {
        chosen.take(n as int)
    } else {
        chosen
    }
}

/// The passage is one of the candidates with a score attached.
pub open spec fn is_candidate(candidates: Seq<CandidateView>, item: ScoredView) -> bool {
    exists|j: int|
        0 <= j < candidates.len() && scored(#[trigger] candidates[j], item.score) == item
}

/// The passages of the generation context under a deployment's limits: the
/// selection, which may hold as many passages as a search recalls, cut to
/// the target count.
pub open spec fn final_selection(
    candidates: Seq<CandidateView>,
    outcome: Option<ReplyView>,
    limits: Limits,
) -> Seq<ScoredView> {
    first_of(
        selection(
            candidates,
            outcome,
            limits.recall_limit as nat,
            limits.max_chunks_per_doc as nat,
        ),
        limits.rerank_limit as nat,
    )
}

/// What holds of a selection made under `limit` and `cap`: it is not longer
/// than the limit; no document contributes more passages than the cap; each
/// passage is one of the candidates; and no passage has a score below the
/// floor unless it is a forced one.
pub open spec fn well_chosen(
    chosen: Seq<ScoredView>,
    candidates: Seq<CandidateView>,
    limit: nat,
    cap: nat,
) -> bool {
    &&& chosen.len() <= limit
    &&& forall|source: Seq<char>| #[trigger] count_of(chosen, source) <= cap
    &&& forall|i: int| 0 <= i < chosen.len() ==> is_candidate(candidates, #[trigger] chosen[i])
    &&& forall|i: int|
        0 <= i < chosen.len() && !(#[trigger] chosen[i]).forced ==> !below_floor(
            chosen[i].score.bits,
        )
}

proof fn lemma_count_push(chosen: Seq<ScoredView>, item: ScoredView, source: Seq<char>)
    ensures
        count_of(chosen.push(item), source) == count_of(chosen, source) + (if item.source
            == source {
            1nat
        } else {
            0nat
        }),
{
    chosen.lemma_filter_push(item, from_source(source));
}

proof fn lemma_well_chosen_push(
    chosen: Seq<ScoredView>,
    candidates: Seq<CandidateView>,
    limit: nat,
    cap: nat,
    at: int,
    score: ScoreView,
)
    requires
        well_chosen(chosen, candidates, limit, cap),
        chosen.len() < limit,
        0 <= at < candidates.len(),
        count_of(chosen, candidates[at].source) < cap,
        candidates[at].forced || !below_floor(score.bits),
    ensures
        well_chosen(chosen.push(scored(candidates[at], score)), candidates, limit, cap),
{
    let item = scored(candidates[at], score);
    let grown = chosen.push(item);
    assert forall|source: Seq<char>| #[trigger] count_of(grown, source) <= cap by {
        lemma_count_push(chosen, item, source);
    }
    assert forall|i: int| 0 <= i < grown.len() implies is_candidate(
        candidates,
        #[trigger] grown[i],
    ) by {
        if i < chosen.len() {
            assert(grown[i] == chosen[i]);
        } else {
            assert(scored(candidates[at], grown[i].score) == grown[i]);
        }
    }
}

proof fn lemma_nothing_well_chosen(candidates: Seq<CandidateView>, limit: nat, cap: nat)
    ensures
        well_chosen(Seq::<ScoredView>::empty(), candidates, limit, cap),
{
    reveal(Seq::filter);
    assert forall|source: Seq<char>| #[trigger]
        count_of(Seq::<ScoredView>::empty(), source) <= cap by {}
}

/// Every stage of the ranked selection is well chosen.
pub proof fn lemma_ranked_well_chosen(
    candidates: Seq<CandidateView>,
    reply: ReplyView,
    limit: nat,
    cap: nat,
    n: nat,
)
    ensures
        well_chosen(take_ranked(candidates, reply, limit, cap, n), candidates, limit, cap),
    decreases n,
{
    if n == 0 {
        lemma_nothing_well_chosen(candidates, limit, cap);
    } else {
        lemma_ranked_well_chosen(candidates, reply, limit, cap, (n - 1) as nat);
        let before = take_ranked(candidates, reply, limit, cap, (n - 1) as nat);
        let at = reply.indices[n - 1] as int;
        let score = reply.scores[n - 1];
        if !(before.len() >= limit || at >= candidates.len() || (below_floor(score.bits)
            && !candidates[at].forced) || count_of(before, candidates[at].source) >= cap) {
            lemma_well_chosen_push(before, candidates, limit, cap, at, score);
        }
    }
}

/// Every stage of the unranked selection is well chosen.
pub proof fn lemma_unranked_well_chosen(
    candidates: Seq<CandidateView>,
    limit: nat,
    cap: nat,
    n: nat,
)
    requires
        n <= candidates.len(),
    ensures
        well_chosen(take_unranked(candidates, limit, cap, n), candidates, limit, cap),
    decreases n,
{
    if n == 0 {
        lemma_nothing_well_chosen(candidates, limit, cap);
    } else {
        lemma_unranked_well_chosen(candidates, limit, cap, (n - 1) as nat);
        let before = take_unranked(candidates, limit, cap, (n - 1) as nat);
        if !(before.len() >= limit || count_of(before, candidates[n - 1].source) >= cap) {
            lemma_well_chosen_push(before, candidates, limit, cap, n - 1, placeholder_score());
        }
    }
}

/// Diversity cap and score floor: whatever the service answered, no
/// document contributes more passages to the selection than the cap, the
/// selection is not longer than the limit, and a passage with a score below
/// the floor is never selected unless it is a forced one.
pub proof fn lemma_selection_well_chosen(
    candidates: Seq<CandidateView>,
    outcome: Option<ReplyView>,
    limit: nat,
    cap: nat,
)
    ensures
        well_chosen(selection(candidates, outcome, limit, cap), candidates, limit, cap),
{
    lemma_unranked_well_chosen(candidates, limit, cap, candidates.len());
    match outcome {
        Some(reply) => {
            lemma_ranked_well_chosen(candidates, reply, limit, cap, reply.indices.len());
        },
        None => {},
    }
}

/// A reply that was read and ranks nothing selects nothing: the service
/// was there and found no passage worth ranking, so the degraded mode is
/// not entered.
pub proof fn lemma_empty_ranking_selects_nothing(
    candidates: Seq<CandidateView>,
    reply: ReplyView,
    limit: nat,
    cap: nat,
)
    requires
        reply.indices.len() == 0,
    ensures
        ranked(Some(reply)),
        selection(candidates, Some(reply), limit, cap) == Seq::<ScoredView>::empty(),
{
}

/// A forced candidate survives the score floor: when the service ranks it
/// while the selection has room and its document is under the cap, it is
/// selected whatever its score.
pub proof fn lemma_forced_candidate_is_selected(
    candidates: Seq<CandidateView>,
    reply: ReplyView,
    limit: nat,
    cap: nat,
    n: nat,
)
    requires
        n > 0,
        reply.indices[n - 1] < candidates.len(),
        candidates[reply.indices[n - 1] as int].forced,
        take_ranked(candidates, reply, limit, cap, (n - 1) as nat).len() < limit,
        count_of(
            take_ranked(candidates, reply, limit, cap, (n - 1) as nat),
            candidates[reply.indices[n - 1] as int].source,
        ) < cap,
    ensures
        take_ranked(candidates, reply, limit, cap, n) == take_ranked(
            candidates,
            reply,
            limit,
            cap,
            (n - 1) as nat,
        ).push(scored(candidates[reply.indices[n - 1] as int], reply.scores[n - 1])),
{
}

/// Where no candidate is forced, no selected passage has a score below the
/// floor, whatever the cap and the limit.
pub proof fn lemma_unforced_selection_respects_floor(
    candidates: Seq<CandidateView>,
    outcome: Option<ReplyView>,
    limit: nat,
    cap: nat,
)
    requires
        forall|j: int| 0 <= j < candidates.len() ==> !(#[trigger] candidates[j]).forced,
    ensures
        forall|i: int|
            0 <= i < selection(candidates, outcome, limit, cap).len() ==> !below_floor(
                (#[trigger] selection(candidates, outcome, limit, cap)[i]).score.bits,
            ),
{
    let chosen = selection(candidates, outcome, limit, cap);
    lemma_selection_well_chosen(candidates, outcome, limit, cap);
    assert forall|i: int| 0 <= i < chosen.len() implies !below_floor(
        (#[trigger] chosen[i]).score.bits,
    ) by {
        assert(is_candidate(candidates, chosen[i]));
        let j = choose|j: int|
            0 <= j < candidates.len() && scored(#[trigger] candidates[j], chosen[i].score)
                == chosen[i];
        assert(!candidates[j].forced);
    }
}

/// Cutting a selection short keeps it well chosen.
pub proof fn lemma_first_of_well_chosen(
    chosen: Seq<ScoredView>,
    candidates: Seq<CandidateView>,
    limit: nat,
    cap: nat,
    n: nat,
)
    requires
        well_chosen(chosen, candidates, limit, cap),
    ensures
        well_chosen(first_of(chosen, n), candidates, limit, cap),
        first_of(chosen, n).len() <= n,
{
    if n <= chosen.len() {
        let cut = chosen.take(n as int);
        assert forall|source: Seq<char>| #[trigger] count_of(cut, source) <= cap by {
            chosen.lemma_filter_take_len(from_source(source), n as int);
            assert(count_of(chosen, source) <= cap);
        }
        assert forall|i: int| 0 <= i < cut.len() implies is_candidate(
            candidates,
            #[trigger] cut[i],
        ) by {
            assert(cut[i] == chosen[i]);
        }
        assert forall|i: int| 0 <= i < cut.len() && !(#[trigger] cut[i]).forced implies !below_floor(
            cut[i].score.bits,
        ) by {
            assert(cut[i] == chosen[i]);
        }
    }
}

/// The passages of the generation context are well chosen and not more
/// than the target count.
pub proof fn lemma_final_selection_well_chosen(
    candidates: Seq<CandidateView>,
    outcome: Option<ReplyView>,
    limits: Limits,
)
    ensures
        well_chosen(
            final_selection(candidates, outcome, limits),
            candidates,
            limits.recall_limit as nat,
            limits.max_chunks_per_doc as nat,
        ),
        final_selection(candidates, outcome, limits).len() <= limits.rerank_limit,
{
    let limit = limits.recall_limit as nat;
    let cap = limits.max_chunks_per_doc as nat;
    lemma_selection_well_chosen(candidates, outcome, limit, cap);
    lemma_first_of_well_chosen(
        selection(candidates, outcome, limit, cap),
        candidates,
        limit,
        cap,
        limits.rerank_limit as nat,
    );
}

impl Score {
    /// The score that stands in when the service gave none.
    pub fn placeholder() -> (score: Score)
        ensures
            score@ == placeholder_score(),
    {
        Score { bits: 0, shown: String::from_str("0.0") }
    }

    /// A copy of the score.
    pub fn duplicate(&self) -> (copy: Score)
        ensures
            copy@ == self@,
    {
        Score { bits: self.bits, shown: self.shown.clone() }
    }

    /// Whether the score is a number below the floor.
    pub fn is_below_floor(&self) -> (below: bool)
        ensures
            below == below_floor(self.bits),
    {
        SCORE_FLOOR_BITS < self.bits && self.bits <= NEGATIVE_INFINITY_BITS
    }
}

impl ScoredChunk {
    /// A copy of the passage.
    pub fn duplicate(&self) -> (copy: ScoredChunk)
        ensures
            copy@ == self@,
    {
        ScoredChunk {
            source: self.source.clone(),
            text: self.text.clone(),
            score: self.score.duplicate(),
            forced: self.forced,
        }
    }
}

/// Builds what the judge is shown for each candidate.
pub fn judge_documents(candidates: &Vec<Candidate>, summaries: &Table<ProductSummary>) -> (out: Vec<
    String,
>)
    requires
        summaries.wf(),
    ensures
        views(out@) == judge_texts(candidate_views(candidates@), summaries.entries()),
{
    let mut out: Vec<String> = Vec::new();
    let ghost target = judge_texts(candidate_views(candidates@), summaries.entries());
    let mut i: usize = 0;
    assert(views(out@) =~= target.take(0));
    while i < candidates.len()
        invariant
            summaries.wf(),
            i <= candidates.len(),
            out.len() == i,
            target == judge_texts(candidate_views(candidates@), summaries.entries()),
            views(out@) == target.take(i as int),
        decreases candidates.len() - i,
    {
        let candidate = &candidates[i];
        let shown = match summaries.get(candidate.source.as_str()) {
            Some(summary) => {
                let mut text = summary.intro.clone();
                text.append("\n文件內容: ");
                text.append(candidate.text.as_str());
                text
            },
            None => candidate.text.clone(),
        };
        proof {
            assert(candidate_views(candidates@)[i as int] == candidate@);
            assert(shown@ == target[i as int]);
            lemma_views_push(out@, shown);
            assert(target.take(i as int).push(shown@) =~= target.take(i + 1));
        }
        out.push(shown);
        i += 1;
    }
    assert(target.take(candidates.len() as int) =~= target);
    out
}

fn count_from(chosen: &Vec<ScoredChunk>, source: &String) -> (count: usize)
    ensures
        count == count_of(scored_views(chosen@), source@),
{
    let ghost all = scored_views(chosen@);
    let mut count: usize = 0;
    let mut i: usize = 0;
    proof {
        reveal(Seq::filter);
        assert(all.take(0) =~= Seq::<ScoredView>::empty());
    }
    while i < chosen.len()
        invariant
            i <= chosen.len(),
            all == scored_views(chosen@),
            count <= i,
            count == count_of(all.take(i as int), source@),
        decreases chosen.len() - i,
    {
        proof {
            assert(all.take(i + 1) =~= all.take(i as int).push(all[i as int]));
            lemma_count_push(all.take(i as int), all[i as int], source@);
            assert(all[i as int].source == chosen@[i as int].source@);
        }
        if chosen[i].source == *source {
            count += 1;
        }
        i += 1;
    }
    assert(all.take(chosen.len() as int) =~= all);
    count
}

fn attach(candidate: &Candidate, score: Score) -> (item: ScoredChunk)
    ensures
        item@ == scored(candidate@, score@),
{
    ScoredChunk {
        source: candidate.source.clone(),
        text: candidate.text.clone(),
        score,
        forced: candidate.forced,
    }
}

/// Chooses passages by the ranking of a usable reply.
pub fn select_ranked(candidates: &Vec<Candidate>, reply: &RerankReply, limit: usize, cap: usize) -> (chosen:
    Vec<ScoredChunk>)
    requires
        usable(reply@),
    ensures
        scored_views(chosen@) == take_ranked(
            candidate_views(candidates@),
            reply@,
            limit as nat,
            cap as nat,
            reply@.indices.len(),
        ),
{
    let mut chosen: Vec<ScoredChunk> = Vec::new();
    let ghost pool = candidate_views(candidates@);
    let mut i: usize = 0;
    assert(scored_views(chosen@) =~= Seq::<ScoredView>::empty());
    while i < reply.indices.len()
        invariant
            i <= reply.indices.len(),
            usable(reply@),
            pool == candidate_views(candidates@),
            scored_views(chosen@) == take_ranked(pool, reply@, limit as nat, cap as nat, i as nat),
        decreases reply.indices.len() - i,
    {
        let at = reply.indices[i];
        let score = &reply.scores[i];
        proof {
            assert(reply@.scores[i as int] == score@);
            if at < candidates.len() {
                assert(pool[at as int] == candidates@[at as int]@);
            }
        }
        if chosen.len() < limit && at < candidates.len() {
            let candidate = &candidates[at];
            if (candidate.forced || !score.is_below_floor()) && count_from(
                &chosen,
                &candidate.source,
            ) < cap {
                let item = attach(candidate, score.duplicate());
                proof {
                    assert(scored_views(chosen@.push(item)) =~= scored_views(chosen@).push(item@));
                }
                chosen.push(item);
            }
        }
        i += 1;
    }
    chosen
}

/// Chooses passages in the incoming order of the candidates, each with the
/// placeholder score.
pub fn select_unranked(candidates: &Vec<Candidate>, limit: usize, cap: usize) -> (chosen: Vec<
    ScoredChunk,
>)
    ensures
        scored_views(chosen@) == take_unranked(
            candidate_views(candidates@),
            limit as nat,
            cap as nat,
            candidates@.len(),
        ),
{
    let mut chosen: Vec<ScoredChunk> = Vec::new();
    let ghost pool = candidate_views(candidates@);
    let mut i: usize = 0;
    assert(scored_views(chosen@) =~= Seq::<ScoredView>::empty());
    while i < candidates.len()
        invariant
            i <= candidates.len(),
            pool == candidate_views(candidates@),
            scored_views(chosen@) == take_unranked(pool, limit as nat, cap as nat, i as nat),
        decreases candidates.len() - i,
    {
        let candidate = &candidates[i];
        proof {
            assert(pool[i as int] == candidate@);
        }
        if chosen.len() < limit && count_from(&chosen, &candidate.source) < cap {
            let item = attach(candidate, Score::placeholder());
            proof {
                assert(scored_views(chosen@.push(item)) =~= scored_views(chosen@).push(item@));
            }
            chosen.push(item);
        }
        i += 1;
    }
    chosen
}

/// Whether the selection follows the ranking of the service.
pub fn is_ranked(outcome: &Option<RerankReply>) -> (yes: bool)
    ensures
        yes == ranked(outcome_view(*outcome)),
{
    match outcome {
        Some(reply) => reply.scores.len() >= reply.indices.len(),
        None => false,
    }
}

/// Chooses the passages of the generation context. `outcome` is the reply
/// of the rerank service, or nothing if the service could not be reached,
/// refused, or answered something unreadable; in that case, and when the
/// reply lacks scores, the candidates are taken in their incoming order. A
/// reply that ranks nothing selects nothing. The query never fails on
/// account of the service.
pub fn rerank_selection(
    candidates: &Vec<Candidate>,
    outcome: &Option<RerankReply>,
    limit: usize,
    cap: usize,
) -> (chosen: Vec<ScoredChunk>)
    ensures
        scored_views(chosen@) == selection(
            candidate_views(candidates@),
            outcome_view(*outcome),
            limit as nat,
            cap as nat,
        ),
        well_chosen(scored_views(chosen@), candidate_views(candidates@), limit as nat, cap as nat),
{
    proof {
        lemma_selection_well_chosen(
            candidate_views(candidates@),
            outcome_view(*outcome),
            limit as nat,
            cap as nat,
        );
    }
    match outcome {
        Some(reply) => {
            if is_ranked(outcome) {
                select_ranked(candidates, reply, limit, cap)
            } else {
                select_unranked(candidates, limit, cap)
            }
        },
        None => select_unranked(candidates, limit, cap),
    }
}

/// Keeps the first `n` chosen passages.
pub fn keep_first(chosen: Vec<ScoredChunk>, n: usize) -> (out: Vec<ScoredChunk>)
    ensures
        scored_views(out@) == first_of(scored_views(chosen@), n as nat),
{
    let mut out = chosen;
    if n <= out.len() {
        out.truncate(n);
        assert(scored_views(out@) =~= scored_views(chosen@).take(n as int));
    }
    out
}

/// Chooses the passages of the generation context under a deployment's
/// limits.
pub fn choose_passages(
    candidates: &Vec<Candidate>,
    outcome: &Option<RerankReply>,
    limits: &Limits,
) -> (chosen: Vec<ScoredChunk>)
    ensures
        scored_views(chosen@) == final_selection(
            candidate_views(candidates@),
            outcome_view(*outcome),
            *limits,
        ),
        well_chosen(
            scored_views(chosen@),
            candidate_views(candidates@),
            limits.recall_limit as nat,
            limits.max_chunks_per_doc as nat,
        ),
        chosen@.len() <= limits.rerank_limit,
{
    proof {
        lemma_final_selection_well_chosen(
            candidate_views(candidates@),
            outcome_view(*outcome),
            *limits,
        );
    }
    let selected = rerank_selection(
        candidates,
        outcome,
        limits.recall_limit,
        limits.max_chunks_per_doc,
    );
    keep_first(selected, limits.rerank_limit)
}

} // verus!
