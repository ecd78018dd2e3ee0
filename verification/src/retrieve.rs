//! Candidates: what retrieval hands to the later stages.
//!
//! Rows fetched directly for the forced set come first and are marked as
//! forced; rows found by nearest-neighbour search follow. Of several rows
//! with the same chunk text only the first is kept. A search contributes no
//! more rows than it asked for: the nearest rows are cut at the limit, the
//! forced rows at the limit for each file.

use vstd::prelude::*;

verus! {

/// A row returned by the index: the file it belongs to and its chunk text.
#[derive(Debug, Clone)]
pub struct Hit {
    pub source: String,
    pub text: String,
}

/// The view of [`Hit`]: every string as its character sequence.
pub struct HitView {
    pub source: Seq<char>,
    pub text: Seq<char>,
}

impl View for Hit {
    type V = HitView;

    open spec fn view(&self) -> HitView {
        HitView { source: self.source@, text: self.text@ }
    }
}

/// The views of a sequence of hits.
pub open spec fn hit_views(hits: Seq<Hit>) -> Seq<HitView> {
    Seq::new(hits.len(), |i: int| hits[i]@)
}

/// A passage that may enter the generation context. `forced` tells that it
/// was fetched for an explicit reference of the user, not found by
/// similarity.
#[derive(Debug, Clone)]
pub struct Candidate {
    pub source: String,
    pub text: String,
    pub forced: bool,
}

/// The view of [`Candidate`]: every string as its character sequence.
pub struct CandidateView {
    pub source: Seq<char>,
    pub text: Seq<char>,
    pub forced: bool,
}

impl View for Candidate {
    type V = CandidateView;

    open spec fn view(&self) -> CandidateView {
        CandidateView { source: self.source@, text: self.text@, forced: self.forced }
    }
}

/// The views of a sequence of candidates.
pub open spec fn candidate_views(items: Seq<Candidate>) -> Seq<CandidateView> {
    Seq::new(items.len(), |i: int| items[i]@)
}

impl Candidate {
    /// A copy of the candidate.
    pub fn duplicate(&self) -> (copy: Candidate)
        ensures
            copy@ == self@,
    {
        Candidate { source: self.source.clone(), text: self.text.clone(), forced: self.forced }
    }
}

/// The hits as candidates, all marked alike.
pub open spec fn marked(hits: Seq<HitView>, forced: bool) -> Seq<CandidateView> {
    Seq::new(
        hits.len(),
        |i: int| CandidateView { source: hits[i].source, text: hits[i].text, forced },
    )
}

/// Some item has this chunk text.
pub open spec fn text_seen(items: Seq<CandidateView>, text: Seq<char>) -> bool {
    exists|j: int| 0 <= j < items.len() && (#[trigger] items[j]).text == text
}

/// The items whose chunk text did not occur earlier in the sequence, in
/// order.
pub open spec fn distinct_texts(items: Seq<CandidateView>) -> Seq<CandidateView>
    decreases items.len(),
{
    if items.len() == 0 {
        Seq::empty()
    } else {
        let before = distinct_texts(items.drop_last());
        if text_seen(items.drop_last(), items.last().text) {
            before
        } else {
            before.push(items.last())
        }
    }
}

/// The merged candidate list: forced rows, then nearest rows, one entry per
/// chunk text.
pub open spec fn merged(forced: Seq<HitView>, nearest: Seq<HitView>) -> Seq<CandidateView> {
    distinct_texts(marked(forced, true) + marked(nearest, false))
}

/// The first `n` hits, or all of them if there are fewer.
pub open spec fn first_hits(hits: Seq<HitView>, n: nat) -> Seq<HitView> {
    if n <= hits.len() {
        hits.take(n as int)
    } else {
        hits
    }
}

/// The hits of one file.
pub open spec fn hits_of_file(source: Seq<char>) -> spec_fn(HitView) -> bool {
    |hit: HitView| hit.source == source
}

/// The hits with at most `n` of each file: a hit is left out when `n`
/// earlier hits of its file were kept.
pub open spec fn capped_per_file(hits: Seq<HitView>, n: nat) -> Seq<HitView>
    decreases hits.len(),
{
    if hits.len() == 0 {
        Seq::empty()
    } else {
        let before = capped_per_file(hits.drop_last(), n);
        if before.filter(hits_of_file(hits.last().source)).len() >= n {
            before
        } else {
            before.push(hits.last())
        }
    }
}

/// The candidates of a search that asked for `limit` rows: at most `limit`
/// forced rows of each file and at most `limit` of the nearest rows,
/// merged.
pub open spec fn gathered(forced: Seq<HitView>, nearest: Seq<HitView>, limit: nat) -> Seq<
    CandidateView,
> {
    merged(capped_per_file(forced, limit), first_hits(nearest, limit))
}

/// A second search with the raw query is due when the first one found
/// nothing and was not made with the raw query itself.
pub open spec fn fallback_due(found: nat, search_target: Seq<char>, raw: Seq<char>) -> bool {
    found == 0 && search_target != raw
}

/// The item at position `i` is the first of the sequence with its chunk
/// text.
pub open spec fn first_with_text(items: Seq<CandidateView>, i: int) -> bool {
    0 <= i < items.len() && !text_seen(items.take(i), items[i].text)
}

/// `entry` is an item of the sequence that is the first with its chunk
/// text.
pub open spec fn is_first_occurrence(items: Seq<CandidateView>, entry: CandidateView) -> bool {
    exists|i: int| first_with_text(items, i) && items[i] == entry
}

/// Deduplication neither invents nor loses a chunk text.
pub proof fn lemma_distinct_texts_complete(items: Seq<CandidateView>, text: Seq<char>)
    ensures
        text_seen(distinct_texts(items), text) == text_seen(items, text),
    decreases items.len(),
{
    if items.len() > 0 {
        let rest = items.drop_last();
        let last = items.last();
        lemma_distinct_texts_complete(rest, text);
        lemma_distinct_texts_complete(rest, last.text);
        let kept = distinct_texts(items);
        if text_seen(items, text) {
            let j = choose|j: int| 0 <= j < items.len() && (#[trigger] items[j]).text == text;
            if j < rest.len() {
                assert(rest[j].text == text);
                assert(text_seen(rest, text));
                let k = choose|k: int|
                    0 <= k < distinct_texts(rest).len() && (#[trigger] distinct_texts(
                        rest,
                    )[k]).text == text;
                assert(kept[k].text == text);
            } else if text_seen(rest, last.text) {
                let k = choose|k: int|
                    0 <= k < distinct_texts(rest).len() && (#[trigger] distinct_texts(
                        rest,
                    )[k]).text == text;
                assert(kept[k].text == text);
            } else {
                assert(kept[kept.len() - 1].text == text);
            }
        }
        if text_seen(kept, text) {
            let k = choose|k: int| 0 <= k < kept.len() && (#[trigger] kept[k]).text == text;
            if k < distinct_texts(rest).len() {
                assert(distinct_texts(rest)[k].text == text);
                assert(text_seen(distinct_texts(rest), text));
                let j = choose|j: int| 0 <= j < rest.len() && (#[trigger] rest[j]).text == text;
                assert(items[j].text == text);
            } else {
                assert(items[items.len() - 1].text == text);
            }
        }
    }
}

/// After deduplication no two entries share a chunk text.
pub proof fn lemma_distinct_texts_unique(items: Seq<CandidateView>)
    ensures
        forall|a: int, b: int|
            0 <= a < b < distinct_texts(items).len() ==> (#[trigger] distinct_texts(items)[a]).text
                != (#[trigger] distinct_texts(items)[b]).text,
    decreases items.len(),
{
    if items.len() > 0 {
        let rest = items.drop_last();
        let last = items.last();
        lemma_distinct_texts_unique(rest);
        lemma_distinct_texts_complete(rest, last.text);
        let kept = distinct_texts(items);
        assert forall|a: int, b: int| 0 <= a < b < kept.len() implies (#[trigger] kept[a]).text != (
        #[trigger] kept[b]).text by {
            if b < distinct_texts(rest).len() {
                assert(kept[a] == distinct_texts(rest)[a]);
                assert(kept[b] == distinct_texts(rest)[b]);
            } else {
                assert(kept[a] == distinct_texts(rest)[a]);
                if kept[a].text == last.text {
                    assert(text_seen(distinct_texts(rest), last.text));
                }
            }
        }
    }
}

/// Every entry that deduplication keeps is the first item of the input with
/// its chunk text, so it carries the source that was seen first.
pub proof fn lemma_distinct_texts_first(items: Seq<CandidateView>, k: int)
    requires
        0 <= k < distinct_texts(items).len(),
    ensures
        is_first_occurrence(items, distinct_texts(items)[k]),
    decreases items.len(),
{
    let rest = items.drop_last();
    let last = items.last();
    if k < distinct_texts(rest).len() {
        lemma_distinct_texts_first(rest, k);
        let i = choose|i: int| first_with_text(rest, i) && rest[i] == distinct_texts(rest)[k];
        assert(items[i] == rest[i]);
        assert(items.take(i) =~= rest.take(i));
        assert(first_with_text(items, i));
    } else {
        let i = items.len() - 1;
        assert(items.take(i) =~= rest);
        assert(items[i] == distinct_texts(items)[k]);
        assert(first_with_text(items, i));
    }
}

/// The merged list has exactly one entry per distinct chunk text of the
/// rows it was made from, and each entry is the first row with its text:
/// forced rows before nearest rows, each list in its own order.
pub proof fn lemma_merge_one_entry_per_text(forced: Seq<HitView>, nearest: Seq<HitView>)
    ensures
        forall|a: int, b: int|
            0 <= a < b < merged(forced, nearest).len() ==> (#[trigger] merged(
                forced,
                nearest,
            )[a]).text != (#[trigger] merged(forced, nearest)[b]).text,
        forall|text: Seq<char>|
            text_seen(merged(forced, nearest), text) == #[trigger] text_seen(
                marked(forced, true) + marked(nearest, false),
                text,
            ),
        forall|k: int|
            0 <= k < merged(forced, nearest).len() ==> is_first_occurrence(
                marked(forced, true) + marked(nearest, false),
                #[trigger] merged(forced, nearest)[k],
            ),
{
    let all = marked(forced, true) + marked(nearest, false);
    lemma_distinct_texts_unique(all);
    assert forall|text: Seq<char>|
        text_seen(merged(forced, nearest), text) == #[trigger] text_seen(all, text) by {
        lemma_distinct_texts_complete(all, text);
    }
    assert forall|k: int| 0 <= k < merged(forced, nearest).len() implies is_first_occurrence(
        all,
        #[trigger] merged(forced, nearest)[k],
    ) by {
        lemma_distinct_texts_first(all, k);
    }
}

/// Deduplication never lengthens a list.
pub proof fn lemma_distinct_texts_length(items: Seq<CandidateView>)
    ensures
        distinct_texts(items).len() <= items.len(),
    decreases items.len(),
{
    if items.len() > 0 {
        lemma_distinct_texts_length(items.drop_last());
    }
}

/// Capping keeps at most `n` hits of each file, adds none and reorders
/// none.
pub proof fn lemma_capped_per_file(hits: Seq<HitView>, n: nat, source: Seq<char>)
    ensures
        capped_per_file(hits, n).filter(hits_of_file(source)).len() <= n,
        capped_per_file(hits, n).len() <= hits.len(),
        forall|k: int|
            0 <= k < capped_per_file(hits, n).len() ==> hits.contains(
                #[trigger] capped_per_file(hits, n)[k],
            ),
    decreases hits.len(),
{
    reveal(Seq::filter);
    if hits.len() > 0 {
        let rest = hits.drop_last();
        let last = hits.last();
        let before = capped_per_file(rest, n);
        let after = capped_per_file(hits, n);
        lemma_capped_per_file(rest, n, source);
        before.lemma_filter_push(last, hits_of_file(source));
        assert forall|k: int| 0 <= k < after.len() implies hits.contains(#[trigger] after[k]) by {
            if k < before.len() {
                assert(rest.contains(before[k]));
                let i = choose|i: int| 0 <= i < rest.len() && rest[i] == before[k];
                assert(hits[i] == after[k]);
            } else {
                assert(hits[hits.len() - 1] == after[k]);
            }
        }
    }
}

/// A search contributes no more candidates than the rows it asked for,
/// beside the forced rows.
pub proof fn lemma_gathered_length(forced: Seq<HitView>, nearest: Seq<HitView>, limit: nat)
    ensures
        gathered(forced, nearest, limit).len() <= forced.len() + limit,
{
    lemma_capped_per_file(forced, limit, Seq::empty());
    lemma_distinct_texts_length(
        marked(capped_per_file(forced, limit), true) + marked(first_hits(nearest, limit), false),
    );
}

proof fn lemma_distinct_texts_extends(a: Seq<CandidateView>, b: Seq<CandidateView>)
    ensures
        distinct_texts(a).len() <= distinct_texts(a + b).len(),
        distinct_texts(a + b).take(distinct_texts(a).len() as int) == distinct_texts(a),
        forall|k: int|
            distinct_texts(a).len() <= k < distinct_texts(a + b).len() ==> b.contains(
                #[trigger] distinct_texts(a + b)[k],
            ),
    decreases b.len(),
{
    let head = distinct_texts(a);
    if b.len() == 0 {
        assert(a + b =~= a);
        assert(head.take(head.len() as int) =~= head);
    } else {
        let rest = b.drop_last();
        assert((a + b).drop_last() =~= a + rest);
        assert((a + b).last() == b.last());
        lemma_distinct_texts_extends(a, rest);
        let shorter = distinct_texts(a + rest);
        let whole = distinct_texts(a + b);
        assert(whole.take(head.len() as int) =~= shorter.take(head.len() as int));
        assert forall|k: int| head.len() <= k < whole.len() implies b.contains(
            #[trigger] whole[k],
        ) by {
            if k < shorter.len() {
                assert(rest.contains(shorter[k]));
                let i = choose|i: int| 0 <= i < rest.len() && rest[i] == shorter[k];
                assert(b[i] == whole[k]);
            } else {
                assert(b[b.len() - 1] == whole[k]);
            }
        }
    }
}

/// Forced rows take priority: in the merged list every forced candidate
/// stands before every candidate that is not forced.
pub proof fn lemma_forced_candidates_come_first(forced: Seq<HitView>, nearest: Seq<HitView>)
    ensures
        forall|a: int, b: int|
            0 <= a < b < merged(forced, nearest).len() && (#[trigger] merged(
                forced,
                nearest,
            )[b]).forced ==> (#[trigger] merged(forced, nearest)[a]).forced,
{
    let first = marked(forced, true);
    let second = marked(nearest, false);
    let head = distinct_texts(first);
    let whole = merged(forced, nearest);
    lemma_distinct_texts_extends(first, second);
    assert forall|a: int, b: int|
        0 <= a < b < whole.len() && (#[trigger] whole[b]).forced implies (
    #[trigger] whole[a]).forced by {
        if b >= head.len() {
            assert(second.contains(whole[b]));
            let i = choose|i: int| 0 <= i < second.len() && second[i] == whole[b];
            assert(!second[i].forced);
        }
        assert(whole[a] == whole.take(head.len() as int)[a]);
        assert(head[a] == whole[a]);
        lemma_distinct_texts_first(first, a);
        let i = choose|i: int| first_with_text(first, i) && first[i] == head[a];
        assert(first[i].forced);
    }
}

/// The candidate has the source and the text of one of the hits.
pub open spec fn from_hits(candidate: CandidateView, hits: Seq<HitView>) -> bool {
    exists|i: int|
        0 <= i < hits.len() && (#[trigger] hits[i]).source == candidate.source && hits[i].text
            == candidate.text
}

/// Every gathered candidate is a row that was reported: it has the source
/// and the text of a forced or a nearest hit. Retrieval invents nothing.
pub proof fn lemma_gathered_from_hits(
    forced: Seq<HitView>,
    nearest: Seq<HitView>,
    limit: nat,
    k: int,
)
    requires
        0 <= k < gathered(forced, nearest, limit).len(),
    ensures
        from_hits(gathered(forced, nearest, limit)[k], forced + nearest),
{
    let near = first_hits(nearest, limit);
    let direct = capped_per_file(forced, limit);
    let all = marked(direct, true) + marked(near, false);
    lemma_distinct_texts_first(all, k);
    lemma_capped_per_file(forced, limit, Seq::empty());
    let i = choose|i: int| first_with_text(all, i) && all[i] == distinct_texts(all)[k];
    let hits = forced + nearest;
    if i < direct.len() {
        assert(all[i] == marked(direct, true)[i]);
        assert(forced.contains(direct[i]));
        let f = choose|f: int| 0 <= f < forced.len() && forced[f] == direct[i];
        assert(hits[f] == forced[f]);
    } else {
        let j = i - direct.len();
        assert(all[i] == marked(near, false)[j]);
        assert(near[j] == nearest[j]);
        assert(hits[forced.len() + j] == nearest[j]);
    }
}

fn has_text(items: &Vec<Candidate>, text: &String) -> (seen: bool)
    ensures
        seen == text_seen(candidate_views(items@), text@),
{
    let mut i: usize = 0;
    while i < items.len()
        invariant
            i <= items.len(),
            forall|k: int| 0 <= k < i ==> (#[trigger] candidate_views(items@)[k]).text != text@,
        decreases items.len() - i,
    {
        if items[i].text == *text {
            assert(candidate_views(items@)[i as int].text == text@);
            return true;
        }
        i += 1;
    }
    false
}

fn absorb(out: &mut Vec<Candidate>, hits: &Vec<Hit>, forced: bool, Ghost(earlier): Ghost<
    Seq<CandidateView>,
>)
    requires
        candidate_views(old(out)@) == distinct_texts(earlier),
    ensures
        candidate_views(final(out)@) == distinct_texts(earlier + marked(hit_views(hits@), forced)),
{
    let ghost added = marked(hit_views(hits@), forced);
    let mut i: usize = 0;
    assert(earlier + added.take(0) =~= earlier);
    while i < hits.len()
        invariant
            i <= hits.len(),
            added == marked(hit_views(hits@), forced),
            candidate_views(out@) == distinct_texts(earlier + added.take(i as int)),
        decreases hits.len() - i,
    {
        let ghost upto = earlier + added.take(i as int);
        let ghost next = earlier + added.take(i + 1);
        proof {
            assert(next.drop_last() =~= upto);
            assert(next.last() == added[i as int]);
            assert(added[i as int].text == hits@[i as int]@.text);
            lemma_distinct_texts_complete(upto, hits@[i as int]@.text);
        }
        if !has_text(out, &hits[i].text) {
            let entry = Candidate {
                source: hits[i].source.clone(),
                text: hits[i].text.clone(),
                forced,
            };
            proof {
                assert(entry@ == added[i as int]);
                assert(candidate_views(out@.push(entry)) =~= candidate_views(out@).push(entry@));
            }
            out.push(entry);
        }
        i += 1;
    }
    assert(added.take(hits.len() as int) =~= added);
}

/// Merges the rows fetched for the forced set with the rows found by
/// similarity search and removes duplicates: of all rows with the same
/// chunk text only the first stays, forced rows taking priority.
pub fn merge_candidates(forced: &Vec<Hit>, nearest: &Vec<Hit>) -> (out: Vec<Candidate>)
    ensures
        candidate_views(out@) == merged(hit_views(forced@), hit_views(nearest@)),
{
    let mut out: Vec<Candidate> = Vec::new();
    let ghost nothing = Seq::<CandidateView>::empty();
    assert(candidate_views(out@) =~= distinct_texts(nothing));
    absorb(&mut out, forced, true, Ghost(nothing));
    let ghost first = marked(hit_views(forced@), true);
    assert(nothing + first =~= first);
    absorb(&mut out, nearest, false, Ghost(first));
    out
}

fn count_of_file(hits: &Vec<Hit>, source: &String) -> (count: usize)
    ensures
        count == hit_views(hits@).filter(hits_of_file(source@)).len(),
{
    let ghost all = hit_views(hits@);
    let mut count: usize = 0;
    let mut i: usize = 0;
    proof {
        reveal(Seq::filter);
        assert(all.take(0) =~= Seq::<HitView>::empty());
    }
    while i < hits.len()
        invariant
            i <= hits.len(),
            all == hit_views(hits@),
            count <= i,
            count == all.take(i as int).filter(hits_of_file(source@)).len(),
        decreases hits.len() - i,
    {
        proof {
            assert(all.take(i + 1) =~= all.take(i as int).push(all[i as int]));
            all.take(i as int).lemma_filter_push(all[i as int], hits_of_file(source@));
            assert(all[i as int].source == hits@[i as int].source@);
        }
        if hits[i].source == *source {
            count += 1;
        }
        i += 1;
    }
    assert(all.take(hits.len() as int) =~= all);
    count
}

/// Keeps at most `n` hits of each file, the first ones.
pub fn cap_per_file(hits: &Vec<Hit>, n: usize) -> (out: Vec<Hit>)
    ensures
        hit_views(out@) == capped_per_file(hit_views(hits@), n as nat),
{
    let mut out: Vec<Hit> = Vec::new();
    let ghost all = hit_views(hits@);
    let mut i: usize = 0;
    assert(all.take(0) =~= Seq::<HitView>::empty());
    assert(hit_views(out@) =~= Seq::<HitView>::empty());
    while i < hits.len()
        invariant
            i <= hits.len(),
            all == hit_views(hits@),
            hit_views(out@) == capped_per_file(all.take(i as int), n as nat),
        decreases hits.len() - i,
    {
        proof {
            assert(all.take(i + 1).drop_last() =~= all.take(i as int));
            assert(all.take(i + 1).last() == hits@[i as int]@);
        }
        if count_of_file(&out, &hits[i].source) < n {
            let copy = Hit { source: hits[i].source.clone(), text: hits[i].text.clone() };
            proof {
                assert(hit_views(out@.push(copy)) =~= hit_views(out@).push(copy@));
            }
            out.push(copy);
        }
        i += 1;
    }
    assert(all.take(hits.len() as int) =~= all);
    out
}

/// Gathers the candidates of a search that asked for `limit` rows. Forced
/// rows beyond `limit` of one file and nearest rows beyond `limit` are left
/// out, so that the search contributes no more than it asked for.
pub fn gather_candidates(forced: &Vec<Hit>, nearest: Vec<Hit>, limit: usize) -> (out: Vec<
    Candidate,
>)
    ensures
        candidate_views(out@) == gathered(hit_views(forced@), hit_views(nearest@), limit as nat),
        out@.len() <= forced@.len() + limit,
{
    proof {
        lemma_gathered_length(hit_views(forced@), hit_views(nearest@), limit as nat);
    }
    let mut near = nearest;
    if limit <= near.len() {
        near.truncate(limit);
        assert(hit_views(near@) =~= hit_views(nearest@).take(limit as int));
    }
    let direct = cap_per_file(forced, limit);
    merge_candidates(&direct, &near)
}

/// Whether a second search with the raw query is due: the first search
/// found nothing and its search string was not the raw query.
pub fn needs_fallback(found: usize, search_target: &str, raw: &str) -> (due: bool)
    ensures
        due == fallback_due(found as nat, search_target@, raw@),
{
    found == 0 && !crate::text::str_eq(search_target, raw)
}

} // verus!
