//! Query normalisation and dictionary expansion.
//!
//! The language of the corpus has no word boundaries, so a quantity such as
//! an age or an amount is written with digits directly against ideographs.
//! Normalisation separates the two with a space; dictionary expansion then
//! appends the formal term of every colloquial term the raw query contains.

use crate::pattern::{pattern_compiles, replace_all, replaced_all};
use crate::table::Table;
use crate::text::{contains, is_substring};
use vstd::prelude::*;
use vstd::string::StringExecFns;

verus! {

/// The pattern of a run of digits followed by an ideograph.
pub const DIGITS_THEN_IDEOGRAPH: &'static str = "(\\d+)([\\u4e00-\\u9fa5])";

/// The pattern of an ideograph followed by a run of digits.
pub const IDEOGRAPH_THEN_DIGITS: &'static str = "([\\u4e00-\\u9fa5])(\\d+)";

/// The replacement that puts a space between the two captured parts of a
/// match.
pub const SPACED_PARTS: &'static str = "$1 $2";

/// `text` with a space put between the two parts of every match of
/// `pattern`. A pattern that does not compile changes nothing.
pub open spec fn spaced(pattern: Seq<char>, text: Seq<char>) -> Seq<char> {
    if pattern_compiles(pattern) {
        replaced_all(pattern, text, SPACED_PARTS@)
    } else {
        text
    }
}

/// The normalised query: digits are set apart from a following ideograph,
/// then ideographs from following digits.
pub open spec fn normalized(raw: Seq<char>) -> Seq<char> {
    spaced(IDEOGRAPH_THEN_DIGITS@, spaced(DIGITS_THEN_IDEOGRAPH@, raw))
}

/// What dictionary expansion appends: for every entry of the synonym table
/// whose colloquial term occurs in the raw query, a space and the formal
/// term, in table order.
pub open spec fn expansion(raw: Seq<char>, synonyms: Seq<(Seq<char>, Seq<char>)>) -> Seq<char>
    decreases synonyms.len(),
{
    if synonyms.len() == 0 {
        Seq::<char>::empty()
    } else {
        expansion(raw, synonyms.drop_last()) + (if is_substring(synonyms.last().0, raw) {
            " "@ + synonyms.last().1
        } else {
            Seq::<char>::empty()
        })
    }
}

/// The search string of a query before any rewriting: the normalised query
/// followed by its dictionary expansion.
pub open spec fn expanded_query(raw: Seq<char>, synonyms: Seq<(Seq<char>, Seq<char>)>) -> Seq<
    char,
> {
    normalized(raw) + expansion(raw, synonyms)
}

fn space_out(pattern: &str, text: String) -> (out: String)
    ensures
        out@ == spaced(pattern@, text@),
{
    match replace_all(pattern, text.as_str(), SPACED_PARTS) {
        Some(changed) => changed,
        None => text,
    }
}

/// Canonicalises a raw query: a space is inserted between a run of digits
/// and an adjacent ideograph, in both orders.
pub fn normalize_query(raw: &str) -> (out: String)
    ensures
        out@ == normalized(raw@),
{
    let first = space_out(DIGITS_THEN_IDEOGRAPH, String::from_str(raw));
    space_out(IDEOGRAPH_THEN_DIGITS, first)
}

/// Appends to `base` the formal term of every colloquial term that occurs
/// in the raw query. Nothing is removed: `base` stays a prefix of the
/// result.
pub fn expand_with_synonyms(base: String, raw: &str, synonyms: &Table<String>) -> (out: String)
    requires
        synonyms.wf(),
    ensures
        out@ == base@ + expansion(raw@, synonyms.entries()),
{
    let mut out = base;
    let ghost entries = synonyms.entries();
    let mut i: usize = 0;
    assert(entries.take(0) =~= Seq::<(Seq<char>, Seq<char>)>::empty());
    assert(base@ + Seq::<char>::empty() =~= base@);
    while i < synonyms.len()
        invariant
            synonyms.wf(),
            entries == synonyms.entries(),
            i <= entries.len(),
            out@ == base@ + expansion(raw@, entries.take(i as int)),
        decreases entries.len() - i,
    {
        let slang = synonyms.key_at(i);
        let ghost before = out@;
        proof {
            assert(entries.take(i + 1).drop_last() =~= entries.take(i as int));
            assert(entries.take(i + 1).last() == entries[i as int]);
        }
        if contains(raw, slang.as_str()) {
            out.append(" ");
            out.append(synonyms.value_at(i).as_str());
            proof {
                assert(out@ =~= base@ + (expansion(raw@, entries.take(i as int)) + (" "@
                    + entries[i as int].1)));
            }
        } else {
            proof {
                assert(out@ =~= base@ + (expansion(raw@, entries.take(i as int)) + Seq::<
                    char,
                >::empty()));
            }
        }
        i += 1;
    }
    assert(entries.take(entries.len() as int) =~= entries);
    out
}

/// The search string of a raw query before any rewriting.
pub fn prepare_query(raw: &str, synonyms: &Table<String>) -> (out: String)
    requires
        synonyms.wf(),
    ensures
        out@ == expanded_query(raw@, synonyms.entries()),
{
    expand_with_synonyms(normalize_query(raw), raw, synonyms)
}

} // verus!
