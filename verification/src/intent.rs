//! Explicit references to products in a query.
//!
//! A user who puts a name in brackets or quotes means that product and no
//! other. Every such span is looked up in the filenames and product names of
//! the corpus; the documents that match form the forced set, to which
//! retrieval is then restricted.

use crate::assembly::{ProductSummary, ProductSummaryView};
use crate::pattern::{capture_groups, captured_groups, pattern_compiles};
use crate::table::Table;
use crate::text::{contains, is_substring, join, joined, lemma_views_push, views};
use vstd::prelude::*;
use vstd::string::StringExecFns;

verus! {

/// The pattern of a bracketed span: an opening bracket or quote, the
/// shortest run of characters on one line, a closing bracket or quote. The
/// run is the first capture group.
pub const BRACKET_PATTERN: &'static str = "[『「《【“\"‘'（\\(](.*?)[」』》】”\"’'）\\)]";

/// The capture group of the bracket pattern that holds the span.
pub const SPAN_GROUP: usize = 1;

/// The groups that took part in their match, in order.
pub open spec fn present(groups: Seq<Option<Seq<char>>>) -> Seq<Seq<char>>
    decreases groups.len(),
{
    if groups.len() == 0 {
        Seq::empty()
    } else {
        match groups.last() {
            Some(span) => present(groups.drop_last()).push(span),
            None => present(groups.drop_last()),
        }
    }
}

/// The spans of the raw query that stand between brackets or quotes.
pub open spec fn quoted_spans(raw: Seq<char>) -> Seq<Seq<char>> {
    if pattern_compiles(BRACKET_PATTERN@) {
        present(captured_groups(BRACKET_PATTERN@, raw, SPAN_GROUP))
    } else {
        Seq::empty()
    }
}

/// The span occurs in the filename or in the product name of the entry.
pub open spec fn span_matches(span: Seq<char>, entry: (Seq<char>, ProductSummaryView)) -> bool {
    is_substring(span, entry.0) || is_substring(span, entry.1.name)
}

/// Some span matches the entry.
pub open spec fn any_span_matches(
    spans: Seq<Seq<char>>,
    entry: (Seq<char>, ProductSummaryView),
) -> bool {
    exists|i: int| 0 <= i < spans.len() && span_matches(#[trigger] spans[i], entry)
}

/// The entries that some span matches.
pub open spec fn referred_to(spans: Seq<Seq<char>>) -> spec_fn(
    (Seq<char>, ProductSummaryView),
) -> bool {
    |entry: (Seq<char>, ProductSummaryView)| any_span_matches(spans, entry)
}

/// The filename of an entry.
pub open spec fn entry_key() -> spec_fn((Seq<char>, ProductSummaryView)) -> Seq<char> {
    |entry: (Seq<char>, ProductSummaryView)| entry.0
}

/// The forced set: the filenames of the summary table, in table order,
/// whose filename or product name contains one of the spans.
pub open spec fn forced_set(
    spans: Seq<Seq<char>>,
    summaries: Seq<(Seq<char>, ProductSummaryView)>,
) -> Seq<Seq<char>> {
    summaries.filter(referred_to(spans)).map_values(entry_key())
}

/// The condition that selects the rows of one document.
pub open spec fn row_condition(filename: Seq<char>) -> Seq<char> {
    "source_file = '"@ + filename + "'"@
}

/// `row_condition` as a function value.
pub open spec fn as_condition() -> spec_fn(Seq<char>) -> Seq<char> {
    |filename: Seq<char>| row_condition(filename)
}

/// The filter expression that restricts a search to the forced set: the
/// conditions of its filenames joined by `OR`; none for an empty set.
pub open spec fn filter_expression(filenames: Seq<Seq<char>>) -> Option<Seq<char>> {
    if filenames.len() == 0 {
        None
    } else {
        Some(joined(filenames.map_values(as_condition()), " OR "@))
    }
}

/// A forced set of one document restricts a search to the rows of that
/// document.
pub proof fn lemma_single_forced_file(filename: Seq<char>)
    ensures
        filter_expression(seq![filename]) == Some(row_condition(filename)),
{
    assert(seq![filename].map_values(as_condition()) =~= seq![row_condition(filename)]);
}

/// Collects the spans of the raw query that stand between brackets or
/// quotes of any of the supported kinds.
pub fn bracketed_spans(raw: &str) -> (spans: Vec<String>)
    ensures
        views(spans@) == quoted_spans(raw@),
{
    let mut spans: Vec<String> = Vec::new();
    match capture_groups(BRACKET_PATTERN, raw, SPAN_GROUP) {
        None => {
            assert(views(spans@) =~= Seq::<Seq<char>>::empty());
        },
        Some(groups) => {
            let ghost all = captured_groups(BRACKET_PATTERN@, raw@, SPAN_GROUP);
            let mut i: usize = 0;
            assert(all.take(0) =~= Seq::<Option<Seq<char>>>::empty());
            assert(views(spans@) =~= Seq::<Seq<char>>::empty());
            while i < groups.len()
                invariant
                    i <= groups.len(),
                    all == crate::pattern::group_views(groups@),
                    views(spans@) == present(all.take(i as int)),
                decreases groups.len() - i,
            {
                proof {
                    assert(all.take(i + 1).drop_last() =~= all.take(i as int));
                    assert(all.take(i + 1).last() == all[i as int]);
                }
                match &groups[i] {
                    Some(span) => {
                        let owned = span.clone();
                        proof {
                            lemma_views_push(spans@, owned);
                        }
                        spans.push(owned);
                    },
                    None => {},
                }
                i += 1;
            }
            assert(all.take(groups.len() as int) =~= all);
        },
    }
    spans
}

fn matches_any(spans: &Vec<String>, filename: &str, summary: &ProductSummary) -> (hit: bool)
    ensures
        hit == any_span_matches(views(spans@), (filename@, summary@)),
{
    let mut i: usize = 0;
    while i < spans.len()
        invariant
            i <= spans.len(),
            forall|k: int|
                0 <= k < i ==> !span_matches(#[trigger] views(spans@)[k], (filename@, summary@)),
        decreases spans.len() - i,
    {
        let span = spans[i].as_str();
        if contains(filename, span) || contains(summary.name.as_str(), span) {
            assert(span_matches(views(spans@)[i as int], (filename@, summary@)));
            return true;
        }
        i += 1;
    }
    false
}

/// Resolves bracketed spans against the corpus: every document whose
/// filename or product name contains a span joins the forced set. Spans
/// that match nothing leave the set empty, which is not an error.
pub fn forced_filenames(spans: &Vec<String>, summaries: &Table<ProductSummary>) -> (forced: Vec<
    String,
>)
    requires
        summaries.wf(),
    ensures
        views(forced@) == forced_set(views(spans@), summaries.entries()),
{
    let mut forced: Vec<String> = Vec::new();
    let ghost entries = summaries.entries();
    let ghost wanted = referred_to(views(spans@));
    let mut i: usize = 0;
    proof {
        reveal(Seq::filter);
        assert(entries.take(0) =~= Seq::<(Seq<char>, ProductSummaryView)>::empty());
        assert(views(forced@) =~= forced_set(views(spans@), entries.take(0)));
    }
    while i < summaries.len()
        invariant
            summaries.wf(),
            entries == summaries.entries(),
            wanted == referred_to(views(spans@)),
            i <= entries.len(),
            views(forced@) == forced_set(views(spans@), entries.take(i as int)),
        decreases entries.len() - i,
    {
        let filename = summaries.key_at(i);
        let summary = summaries.value_at(i);
        proof {
            let before = entries.take(i as int);
            assert(entries.take(i + 1) =~= before.push(entries[i as int]));
            before.lemma_filter_push(entries[i as int], wanted);
            before.filter(wanted).lemma_push_map_commute(entry_key(), entries[i as int]);
        }
        if matches_any(spans, filename.as_str(), summary) {
            let owned = filename.clone();
            proof {
                lemma_views_push(forced@, owned);
            }
            forced.push(owned);
        }
        i += 1;
    }
    assert(entries.take(entries.len() as int) =~= entries);
    forced
}

/// The forced set of a raw query.
pub fn extract_intent(raw: &str, summaries: &Table<ProductSummary>) -> (forced: Vec<String>)
    requires
        summaries.wf(),
    ensures
        views(forced@) == forced_set(quoted_spans(raw@), summaries.entries()),
{
    let spans = bracketed_spans(raw);
    forced_filenames(&spans, summaries)
}

/// Builds the condition that selects the rows of one document.
pub fn row_filter(filename: &str) -> (out: String)
    ensures
        out@ == row_condition(filename@),
{
    let mut out = String::from_str("source_file = '");
    out.append(filename);
    out.append("'");
    out
}

/// Builds the filter expression that restricts a search to the forced set.
pub fn search_filter(filenames: &Vec<String>) -> (filter: Option<String>)
    ensures
        crate::models::opt_view(filter) == filter_expression(views(filenames@)),
{
    if filenames.len() == 0 {
        return None;
    }
    let mut conditions: Vec<String> = Vec::new();
    let ghost names = views(filenames@);
    let mut i: usize = 0;
    assert(views(conditions@) =~= names.take(0).map_values(as_condition()));
    while i < filenames.len()
        invariant
            i <= filenames.len(),
            names == views(filenames@),
            views(conditions@) == names.take(i as int).map_values(as_condition()),
        decreases filenames.len() - i,
    {
        let condition = row_filter(filenames[i].as_str());
        proof {
            let before = names.take(i as int);
            assert(names.take(i + 1) =~= before.push(names[i as int]));
            before.lemma_push_map_commute(as_condition(), names[i as int]);
            lemma_views_push(conditions@, condition);
        }
        conditions.push(condition);
        i += 1;
    }
    assert(names.take(filenames.len() as int) =~= names);
    Some(join(&conditions, " OR "))
}

} // verus!
