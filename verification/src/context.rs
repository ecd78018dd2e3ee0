//! The generation context and the response of a query.
//!
//! The context has two parts: an overview with the summary of every product
//! that contributes a passage, and the passages themselves, each tagged with
//! its relevance and its source. The response names the sources in sorted
//! order, each once.

use crate::assembly::{ProductSummary, ProductSummaryView};
use crate::rerank::{scored_views, ScoredChunk, ScoredView};
use crate::retrieve::{hit_views, Hit, HitView};
use crate::table::{lookup, Table};
use crate::text::{
    chars_lt, chars_of, lemma_lex_irreflexive, lemma_lex_total, lemma_lex_transitive,
    lemma_views_push, lex_lt, views,
};
use vstd::prelude::*;
use vstd::string::StringExecFns;

verus! {

/// What a query returns: the generated answer and the files whose passages
/// were in the context.
#[derive(Debug, Clone)]
pub struct RagResponse {
    pub answer: String,
    pub sources: Vec<String>,
}

/// The view of [`RagResponse`]: every string as its character sequence.
pub struct RagResponseView {
    pub answer: Seq<char>,
    pub sources: Seq<Seq<char>>,
}

impl View for RagResponse {
    type V = RagResponseView;

    open spec fn view(&self) -> RagResponseView {
        RagResponseView { answer: self.answer@, sources: views(self.sources@) }
    }
}

/// The answer given when retrieval found nothing.
pub const NOTHING_FOUND: &'static str = "抱歉，資料庫中找不到相關資訊，請嘗試其他關鍵字。";

/// The answer given when passages were found but none survived the
/// relevance check.
pub const NOTHING_RELEVANT: &'static str = "雖然有相關文檔，但經過相關性檢測後被過濾掉了。";

/// Each name is below the next.
pub open spec fn increasing(names: Seq<Seq<char>>) -> bool {
    forall|i: int, j: int| 0 <= i < j < names.len() ==> lex_lt(names[i], names[j])
}

/// A sorted list of names with `name` put in its place, unless it is there
/// already.
pub open spec fn inserted(sorted: Seq<Seq<char>>, name: Seq<char>) -> Seq<Seq<char>>
    decreases sorted.len(),
{
    if sorted.len() == 0 {
        seq![name]
    } else if sorted.last() == name {
        sorted
    } else if lex_lt(sorted.last(), name) {
        sorted.push(name)
    } else {
        inserted(sorted.drop_last(), name).push(sorted.last())
    }
}

/// The names sorted, each once.
pub open spec fn sorted_names(names: Seq<Seq<char>>) -> Seq<Seq<char>>
    decreases names.len(),
{
    if names.len() == 0 {
        Seq::empty()
    } else {
        inserted(sorted_names(names.drop_last()), names.last())
    }
}

/// The source of every passage, in order.
pub open spec fn sources_of(items: Seq<ScoredView>) -> Seq<Seq<char>> {
    Seq::new(items.len(), |i: int| items[i].source)
}

/// The source of every hit, in order.
pub open spec fn hit_sources(hits: Seq<HitView>) -> Seq<Seq<char>> {
    Seq::new(hits.len(), |i: int| hits[i].source)
}

/// The sources of the passages, sorted, each once.
pub open spec fn source_list(items: Seq<ScoredView>) -> Seq<Seq<char>> {
    sorted_names(sources_of(items))
}

/// Some passage comes from this source.
pub open spec fn is_source(items: Seq<ScoredView>, name: Seq<char>) -> bool {
    exists|i: int| 0 <= i < items.len() && (#[trigger] items[i]).source == name
}

/// One passage as it is written into the context.
pub open spec fn passage_block(item: ScoredView) -> Seq<char> {
    "📄 [精選片段] (關聯度:"@ + item.score.shown + ") 來源: "@ + item.source + "\n內容: "@
        + item.text + "\n\n"@
}

/// `passage_block` as a function value.
pub open spec fn as_block() -> spec_fn(ScoredView) -> Seq<char> {
    |item: ScoredView| passage_block(item)
}

/// The overview entry of a source: its summary, or nothing when the product
/// is not known.
pub open spec fn overview_entry(
    name: Seq<char>,
    summaries: Seq<(Seq<char>, ProductSummaryView)>,
) -> Seq<char> {
    match lookup(summaries, name) {
        Some(summary) => "📄 來源: "@ + name + "\n"@ + summary.intro + "\n"@,
        None => Seq::<char>::empty(),
    }
}

/// `overview_entry` as a function value.
pub open spec fn as_entry(summaries: Seq<(Seq<char>, ProductSummaryView)>) -> spec_fn(
    Seq<char>,
) -> Seq<char> {
    |name: Seq<char>| overview_entry(name, summaries)
}

/// One search hit as it is written into a context without scores.
pub open spec fn plain_block(hit: HitView) -> Seq<char> {
    "📄 [片段] 來源: "@ + hit.source + "\n內容: "@ + hit.text + "\n\n"@
}

/// `plain_block` as a function value.
pub open spec fn as_plain_block() -> spec_fn(HitView) -> Seq<char> {
    |hit: HitView| plain_block(hit)
}

/// A context: the overview of the named products, then the passage blocks.
pub open spec fn framed(
    names: Seq<Seq<char>>,
    blocks: Seq<Seq<char>>,
    summaries: Seq<(Seq<char>, ProductSummaryView)>,
) -> Seq<char> {
    "=== 相關商品基本介紹 ===\n"@ + names.map_values(as_entry(summaries)).flatten()
        + "========================\n\n"@ + "=== 詳細檢索片段 ===\n"@ + blocks.flatten()
}

/// The generation context of the chosen passages.
pub open spec fn context_text(
    items: Seq<ScoredView>,
    summaries: Seq<(Seq<char>, ProductSummaryView)>,
) -> Seq<char> {
    framed(source_list(items), items.map_values(as_block()), summaries)
}

/// The generation context of search hits that were not reranked.
pub open spec fn plain_context_text(
    hits: Seq<HitView>,
    summaries: Seq<(Seq<char>, ProductSummaryView)>,
) -> Seq<char> {
    framed(sorted_names(hit_sources(hits)), hits.map_values(as_plain_block()), summaries)
}

proof fn lemma_inserted(sorted: Seq<Seq<char>>, name: Seq<char>)
    requires
        increasing(sorted),
    ensures
        increasing(inserted(sorted, name)),
        forall|other: Seq<char>|
            #[trigger] inserted(sorted, name).contains(other) <==> (sorted.contains(other) || other
                == name),
    decreases sorted.len(),
{
    let after = inserted(sorted, name);
    if sorted.len() == 0 {
        assert(after[0] == name);
        assert forall|other: Seq<char>| #[trigger]
            after.contains(other) <==> (sorted.contains(other) || other == name) by {
            if other == name {
                assert(after[0] == other);
            }
        }
    } else if sorted.last() == name {
        assert(sorted[sorted.len() - 1] == name);
    } else if lex_lt(sorted.last(), name) {
        assert forall|i: int, j: int| 0 <= i < j < after.len() implies lex_lt(after[i], after[j]) by {
            if j < sorted.len() {
            } else if i < sorted.len() - 1 {
                lemma_lex_transitive(sorted[i], sorted.last(), name);
            }
        }
        assert forall|other: Seq<char>| #[trigger]
            after.contains(other) <==> (sorted.contains(other) || other == name) by {
            if other == name {
                assert(after[sorted.len() as int] == other);
            }
            if sorted.contains(other) {
                let i = choose|i: int| 0 <= i < sorted.len() && sorted[i] == other;
                assert(after[i] == other);
            }
        }
    } else {
        let rest = sorted.drop_last();
        let last = sorted.last();
        lemma_lex_total(last, name);
        assert(increasing(rest));
        lemma_inserted(rest, name);
        let middle = inserted(rest, name);
        assert forall|i: int, j: int| 0 <= i < j < after.len() implies lex_lt(after[i], after[j]) by {
            if j < middle.len() {
            } else {
                assert(middle.contains(middle[i]));
                if middle[i] == name {
                } else {
                    assert(rest.contains(middle[i]));
                    let k = choose|k: int| 0 <= k < rest.len() && rest[k] == middle[i];
                    assert(lex_lt(sorted[k], sorted[sorted.len() - 1]));
                }
            }
        }
        assert forall|other: Seq<char>| #[trigger]
            after.contains(other) <==> (sorted.contains(other) || other == name) by {
            if after.contains(other) {
                let i = choose|i: int| 0 <= i < after.len() && after[i] == other;
                if i < middle.len() {
                    assert(middle.contains(other));
                    if rest.contains(other) {
                        let k = choose|k: int| 0 <= k < rest.len() && rest[k] == other;
                        assert(sorted[k] == other);
                    }
                } else {
                    assert(sorted[sorted.len() - 1] == other);
                }
            }
            if sorted.contains(other) {
                let k = choose|k: int| 0 <= k < sorted.len() && sorted[k] == other;
                if k < rest.len() {
                    assert(rest[k] == other);
                    assert(rest.contains(other));
                    assert(middle.contains(other));
                    let i = choose|i: int| 0 <= i < middle.len() && middle[i] == other;
                    assert(after[i] == other);
                } else {
                    assert(after[middle.len() as int] == other);
                }
            }
            if other == name {
                assert(middle.contains(other));
                let i = choose|i: int| 0 <= i < middle.len() && middle[i] == other;
                assert(after[i] == other);
            }
        }
    }
}

/// Sorting yields an increasing sequence, hence one without repetition,
/// that holds exactly the names it was given.
pub proof fn lemma_sorted_names(names: Seq<Seq<char>>)
    ensures
        increasing(sorted_names(names)),
        forall|name: Seq<char>| #[trigger] sorted_names(names).contains(name) <==> names.contains(name),
    decreases names.len(),
{
    if names.len() > 0 {
        let rest = names.drop_last();
        let last = names.last();
        lemma_sorted_names(rest);
        lemma_inserted(sorted_names(rest), last);
        assert forall|name: Seq<char>| #[trigger]
            sorted_names(names).contains(name) <==> names.contains(name) by {
            if names.contains(name) {
                let i = choose|i: int| 0 <= i < names.len() && names[i] == name;
                if i < rest.len() {
                    assert(rest[i] == name);
                    assert(rest.contains(name));
                }
            }
            if rest.contains(name) {
                let i = choose|i: int| 0 <= i < rest.len() && rest[i] == name;
                assert(names[i] == name);
            }
            if name == last {
                assert(names[names.len() - 1] == name);
            }
        }
    }
}

/// The source list is sorted without repetition and holds exactly the
/// sources of the passages.
pub proof fn lemma_source_list(items: Seq<ScoredView>)
    ensures
        increasing(source_list(items)),
        forall|name: Seq<char>| #[trigger]
            source_list(items).contains(name) <==> is_source(items, name),
{
    let names = sources_of(items);
    lemma_sorted_names(names);
    assert forall|name: Seq<char>| #[trigger]
        source_list(items).contains(name) <==> is_source(items, name) by {
        if names.contains(name) {
            let i = choose|i: int| 0 <= i < names.len() && names[i] == name;
            assert(items[i].source == name);
        }
        if is_source(items, name) {
            let i = choose|i: int| 0 <= i < items.len() && (#[trigger] items[i]).source == name;
            assert(names[i] == name);
        }
    }
}

/// Passages that all come from one source have that source as their source
/// list.
pub proof fn lemma_single_source(items: Seq<ScoredView>, source: Seq<char>)
    requires
        items.len() > 0,
        forall|i: int| 0 <= i < items.len() ==> (#[trigger] items[i]).source == source,
    ensures
        source_list(items) == seq![source],
{
    let names = source_list(items);
    lemma_source_list(items);
    assert(items[0].source == source);
    assert(is_source(items, source));
    assert(names.contains(source));
    assert forall|k: int| 0 <= k < names.len() implies names[k] == source by {
        assert(names.contains(names[k]));
        assert(is_source(items, names[k]));
    }
    if names.len() >= 2 {
        lemma_lex_irreflexive(source);
        assert(lex_lt(names[0], names[1]));
    }
    assert(names =~= seq![source]);
}

proof fn lemma_inserted_above(sorted: Seq<Seq<char>>, name: Seq<char>, at: int)
    requires
        0 <= at <= sorted.len(),
        forall|k: int| at <= k < sorted.len() ==> lex_lt(name, #[trigger] sorted[k]),
    ensures
        inserted(sorted, name) == inserted(sorted.take(at), name) + sorted.skip(at),
    decreases sorted.len() - at,
{
    if at == sorted.len() {
        assert(sorted.take(at) =~= sorted);
        assert(inserted(sorted, name) + sorted.skip(at) =~= inserted(sorted, name));
    } else {
        let last = sorted.last();
        let rest = sorted.drop_last();
        assert(lex_lt(name, sorted[sorted.len() - 1]));
        lemma_lex_irreflexive(name);
        if lex_lt(last, name) {
            lemma_lex_transitive(name, last, name);
        }
        assert forall|k: int| at <= k < rest.len() implies lex_lt(name, #[trigger] rest[k]) by {
            assert(rest[k] == sorted[k]);
        }
        lemma_inserted_above(rest, name, at);
        assert(rest.take(at) =~= sorted.take(at));
        assert((inserted(rest.take(at), name) + rest.skip(at)).push(last) =~= inserted(
            sorted.take(at),
            name,
        ) + sorted.skip(at));
    }
}

fn insert_sorted(names: &mut Vec<String>, name: &String)
    ensures
        views(final(names)@) == inserted(views(old(names)@), name@),
{
    let key = chars_of(name.as_str());
    let ghost before = views(names@);
    let mut at: usize = names.len();
    let mut searching = true;
    while searching && at > 0
        invariant
            at <= names.len(),
            key@ == name@,
            before == views(names@),
            forall|k: int| at <= k < before.len() ==> lex_lt(name@, #[trigger] before[k]),
            !searching ==> at > 0 && !lex_lt(name@, before[at - 1]),
        decreases at + (if searching {
            1int
        } else {
            0int
        }),
    {
        let other = chars_of(names[at - 1].as_str());
        assert(before[at - 1] == other@);
        if chars_lt(&key, &other) {
            at -= 1;
        } else {
            searching = false;
        }
    }
    proof {
        lemma_inserted_above(before, name@, at as int);
    }
    let ghost low = before.take(at as int);
    if at > 0 && names[at - 1] == *name {
        proof {
            assert(low.last() == before[at - 1]);
            assert(low + before.skip(at as int) =~= before);
        }
    } else {
        proof {
            if at > 0 {
                assert(low.last() == before[at - 1]);
                lemma_lex_total(low.last(), name@);
                assert(lex_lt(low.last(), name@));
            }
            assert(inserted(low, name@) =~= low.push(name@));
        }
        let owned = name.clone();
        names.insert(at, owned);
        proof {
            assert(views(names@) =~= low.push(name@) + before.skip(at as int));
        }
    }
}

/// Sorts names, keeping each once.
pub fn sort_names(names: &Vec<String>) -> (sorted: Vec<String>)
    ensures
        views(sorted@) == sorted_names(views(names@)),
        increasing(views(sorted@)),
        forall|name: Seq<char>| #[trigger]
            views(sorted@).contains(name) <==> views(names@).contains(name),
{
    let mut sorted: Vec<String> = Vec::new();
    let ghost all = views(names@);
    let mut i: usize = 0;
    assert(all.take(0) =~= Seq::<Seq<char>>::empty());
    assert(views(sorted@) =~= Seq::<Seq<char>>::empty());
    while i < names.len()
        invariant
            i <= names.len(),
            all == views(names@),
            views(sorted@) == sorted_names(all.take(i as int)),
        decreases names.len() - i,
    {
        proof {
            assert(all.take(i + 1).drop_last() =~= all.take(i as int));
            assert(all.take(i + 1).last() == names@[i as int]@);
        }
        insert_sorted(&mut sorted, &names[i]);
        i += 1;
    }
    proof {
        assert(all.take(names.len() as int) =~= all);
        lemma_sorted_names(all);
    }
    sorted
}

/// Lists the sources of the chosen passages, sorted, each once.
pub fn list_sources(items: &Vec<ScoredChunk>) -> (sources: Vec<String>)
    ensures
        views(sources@) == source_list(scored_views(items@)),
        increasing(views(sources@)),
        forall|name: Seq<char>| #[trigger]
            views(sources@).contains(name) <==> is_source(scored_views(items@), name),
{
    let mut names: Vec<String> = Vec::new();
    let ghost target = sources_of(scored_views(items@));
    let mut i: usize = 0;
    assert(views(names@) =~= target.take(0));
    while i < items.len()
        invariant
            i <= items.len(),
            names.len() == i,
            target == sources_of(scored_views(items@)),
            views(names@) == target.take(i as int),
        decreases items.len() - i,
    {
        let name = items[i].source.clone();
        proof {
            lemma_views_push(names@, name);
            assert(target.take(i as int).push(name@) =~= target.take(i + 1));
        }
        names.push(name);
        i += 1;
    }
    proof {
        assert(target.take(items.len() as int) =~= target);
        lemma_source_list(scored_views(items@));
    }
    sort_names(&names)
}

/// Lists the sources of search hits, sorted, each once.
pub fn list_hit_sources(hits: &Vec<Hit>) -> (sources: Vec<String>)
    ensures
        views(sources@) == sorted_names(hit_sources(hit_views(hits@))),
{
    let mut names: Vec<String> = Vec::new();
    let ghost target = hit_sources(hit_views(hits@));
    let mut i: usize = 0;
    assert(views(names@) =~= target.take(0));
    while i < hits.len()
        invariant
            i <= hits.len(),
            names.len() == i,
            target == hit_sources(hit_views(hits@)),
            views(names@) == target.take(i as int),
        decreases hits.len() - i,
    {
        let name = hits[i].source.clone();
        proof {
            lemma_views_push(names@, name);
            assert(target.take(i as int).push(name@) =~= target.take(i + 1));
        }
        names.push(name);
        i += 1;
    }
    assert(target.take(hits.len() as int) =~= target);
    sort_names(&names)
}

fn make_passage(item: &ScoredChunk) -> (out: String)
    ensures
        out@ == passage_block(item@),
{
    let mut out = String::from_str("📄 [精選片段] (關聯度:");
    out.append(item.score.shown.as_str());
    out.append(") 來源: ");
    out.append(item.source.as_str());
    out.append("\n內容: ");
    out.append(item.text.as_str());
    out.append("\n\n");
    out
}

fn make_plain_passage(hit: &Hit) -> (out: String)
    ensures
        out@ == plain_block(hit@),
{
    let mut out = String::from_str("📄 [片段] 來源: ");
    out.append(hit.source.as_str());
    out.append("\n內容: ");
    out.append(hit.text.as_str());
    out.append("\n\n");
    out
}

fn append_overview_entry(out: &mut String, name: &String, summaries: &Table<ProductSummary>)
    requires
        summaries.wf(),
    ensures
        final(out)@ == old(out)@ + overview_entry(name@, summaries.entries()),
{
    let ghost before = out@;
    match summaries.get(name.as_str()) {
        Some(summary) => {
            out.append("📄 來源: ");
            out.append(name.as_str());
            out.append("\n");
            out.append(summary.intro.as_str());
            out.append("\n");
            assert(out@ =~= before + overview_entry(name@, summaries.entries()));
        },
        None => {
            assert(out@ =~= before + overview_entry(name@, summaries.entries()));
        },
    }
}

fn frame(names: &Vec<String>, blocks: &Vec<String>, summaries: &Table<ProductSummary>) -> (out:
    String)
    requires
        summaries.wf(),
    ensures
        out@ == framed(views(names@), views(blocks@), summaries.entries()),
{
    let ghost listed = views(names@);
    let ghost entry = as_entry(summaries.entries());
    let mut out = String::from_str("=== 相關商品基本介紹 ===\n");
    let ghost head = out@;
    let mut i: usize = 0;
    proof {
        assert(listed.take(0).map_values(entry) =~= Seq::<Seq<char>>::empty());
        assert(head + listed.take(0).map_values(entry).flatten() =~= head);
    }
    while i < names.len()
        invariant
            summaries.wf(),
            i <= names.len(),
            listed == views(names@),
            entry == as_entry(summaries.entries()),
            out@ == head + listed.take(i as int).map_values(entry).flatten(),
        decreases names.len() - i,
    {
        proof {
            let before = listed.take(i as int);
            assert(listed.take(i + 1) =~= before.push(listed[i as int]));
            before.lemma_push_map_commute(entry, listed[i as int]);
            before.map_values(entry).lemma_flatten_push(entry(listed[i as int]));
        }
        append_overview_entry(&mut out, &names[i], summaries);
        proof {
            assert(out@ =~= head + (listed.take(i as int).map_values(entry).flatten() + entry(
                listed[i as int],
            )));
        }
        i += 1;
    }
    proof {
        assert(listed.take(names.len() as int) =~= listed);
    }
    out.append("========================\n\n");
    out.append("=== 詳細檢索片段 ===\n");
    let ghost top = out@;
    let ghost all = views(blocks@);
    let mut j: usize = 0;
    proof {
        assert(top + all.take(0).flatten() =~= top);
    }
    while j < blocks.len()
        invariant
            j <= blocks.len(),
            all == views(blocks@),
            out@ == top + all.take(j as int).flatten(),
        decreases blocks.len() - j,
    {
        proof {
            let before = all.take(j as int);
            assert(all.take(j + 1) =~= before.push(all[j as int]));
            before.lemma_flatten_push(all[j as int]);
        }
        out.append(blocks[j].as_str());
        proof {
            assert(out@ =~= top + (all.take(j as int).flatten() + all[j as int]));
        }
        j += 1;
    }
    proof {
        assert(all.take(blocks.len() as int) =~= all);
    }
    out
}

/// Builds the generation context: the overview of the products that
/// contribute passages, in the order of the source list, then every chosen
/// passage with its relevance and source.
pub fn assemble_context(items: &Vec<ScoredChunk>, summaries: &Table<ProductSummary>) -> (out:
    String)
    requires
        summaries.wf(),
    ensures
        out@ == context_text(scored_views(items@), summaries.entries()),
{
    let sources = list_sources(items);
    let mut blocks: Vec<String> = Vec::new();
    let ghost all = scored_views(items@);
    let mut i: usize = 0;
    assert(views(blocks@) =~= all.take(0).map_values(as_block()));
    while i < items.len()
        invariant
            i <= items.len(),
            all == scored_views(items@),
            views(blocks@) == all.take(i as int).map_values(as_block()),
        decreases items.len() - i,
    {
        let block = make_passage(&items[i]);
        proof {
            let before = all.take(i as int);
            assert(all[i as int] == items@[i as int]@);
            assert(all.take(i + 1) =~= before.push(all[i as int]));
            before.lemma_push_map_commute(as_block(), all[i as int]);
            lemma_views_push(blocks@, block);
        }
        blocks.push(block);
        i += 1;
    }
    assert(all.take(items.len() as int) =~= all);
    frame(&sources, &blocks, summaries)
}

/// Builds a generation context from search hits that were not reranked:
/// the same frame, the passages tagged with their source only.
pub fn assemble_plain_context(hits: &Vec<Hit>, summaries: &Table<ProductSummary>) -> (out: String)
    requires
        summaries.wf(),
    ensures
        out@ == plain_context_text(hit_views(hits@), summaries.entries()),
{
    let sources = list_hit_sources(hits);
    let mut blocks: Vec<String> = Vec::new();
    let ghost all = hit_views(hits@);
    let mut i: usize = 0;
    assert(views(blocks@) =~= all.take(0).map_values(as_plain_block()));
    while i < hits.len()
        invariant
            i <= hits.len(),
            all == hit_views(hits@),
            views(blocks@) == all.take(i as int).map_values(as_plain_block()),
        decreases hits.len() - i,
    {
        let block = make_plain_passage(&hits[i]);
        proof {
            let before = all.take(i as int);
            assert(all[i as int] == hits@[i as int]@);
            assert(all.take(i + 1) =~= before.push(all[i as int]));
            before.lemma_push_map_commute(as_plain_block(), all[i as int]);
            lemma_views_push(blocks@, block);
        }
        blocks.push(block);
        i += 1;
    }
    assert(all.take(hits.len() as int) =~= all);
    frame(&sources, &blocks, summaries)
}

impl RagResponse {
    /// The response when retrieval found nothing.
    pub fn nothing_found() -> (response: RagResponse)
        ensures
            response@.answer == NOTHING_FOUND@,
            response@.sources.len() == 0,
    {
        RagResponse {
            answer: String::from_str(NOTHING_FOUND),
            sources: Vec::new(),
        }
    }

    /// The response when no passage survived the relevance check.
    pub fn nothing_relevant() -> (response: RagResponse)
        ensures
            response@.answer == NOTHING_RELEVANT@,
            response@.sources.len() == 0,
    {
        RagResponse {
            answer: String::from_str(NOTHING_RELEVANT),
            sources: Vec::new(),
        }
    }

    /// The response that carries a generated answer and names the sources of
    /// the passages it was generated from.
    pub fn answered(answer: String, items: &Vec<ScoredChunk>) -> (response: RagResponse)
        ensures
            response@.answer == answer@,
            response@.sources == source_list(scored_views(items@)),
    {
        RagResponse { answer, sources: list_sources(items) }
    }
}

} // verus!
