//! History-aware query rewriting.
//!
//! A short question asked in the middle of a conversation ("and the fee?")
//! cannot be searched for on its own. For such a question a language model
//! is asked to write a self-contained search string from the recent turns.
//! The model's answer is never trusted to keep the user's own words: when it
//! drops them, they are put back.

use crate::chunking::or_text;
use crate::models::opt_view;
use crate::text::{
    byte_len, byte_length, contains, is_substring, join, joined, lemma_substring_of_concat,
    lemma_views_push, replace, replace_char, trim, trimmed, views,
};
use vstd::prelude::*;
use vstd::string::StrSliceExecFns;
use vstd::string::StringExecFns;

verus! {

/// One turn of a conversation as the session store holds it. Either part
/// may be missing or not be text.
#[derive(Debug, Clone)]
pub struct Turn {
    pub role: Option<String>,
    pub content: Option<String>,
}

/// The view of [`Turn`]: every string as its character sequence.
pub struct TurnView {
    pub role: Option<Seq<char>>,
    pub content: Option<Seq<char>>,
}

impl View for Turn {
    type V = TurnView;

    open spec fn view(&self) -> TurnView {
        TurnView { role: opt_view(self.role), content: opt_view(self.content) }
    }
}

/// The views of a sequence of turns.
pub open spec fn turn_views(turns: Seq<Turn>) -> Seq<TurnView> {
    Seq::new(turns.len(), |i: int| turns[i]@)
}

/// A query is rewritten only if it has fewer characters than this.
pub const REWRITE_BELOW_CHARS: usize = 50;

/// The safety net applies to queries of more bytes than this.
pub const SAFETY_NET_ABOVE_BYTES: usize = 6;

/// How many of the latest turns the rewriting model is shown.
pub const HISTORY_WINDOW: usize = 4;

/// A rewrite is attempted for a short query asked in a conversation that
/// already has history.
pub open spec fn rewrite_wanted(history_len: nat, raw: Seq<char>) -> bool {
    history_len > 0 && raw.len() < REWRITE_BELOW_CHARS
}

/// One turn as a line of the history shown to the model.
pub open spec fn turn_line(turn: TurnView) -> Seq<char> {
    or_text(turn.role, "unknown"@) + ": "@ + or_text(turn.content, Seq::<char>::empty())
}

/// `turn_line` as a function value.
pub open spec fn as_line() -> spec_fn(TurnView) -> Seq<char> {
    |turn: TurnView| turn_line(turn)
}

/// The latest turns of the history, at most `HISTORY_WINDOW` of them, oldest
/// first.
pub open spec fn recent(history: Seq<TurnView>) -> Seq<TurnView> {
    if history.len() <= HISTORY_WINDOW {
        history
    } else {
        history.skip(history.len() - HISTORY_WINDOW)
    }
}

/// The recent turns, one per line.
pub open spec fn history_lines(history: Seq<TurnView>) -> Seq<char> {
    joined(recent(history).map_values(as_line()), "\n"@)
}

/// What the model is asked to rewrite: the recent history and the query.
pub open spec fn rewrite_request(history: Seq<TurnView>, raw: Seq<char>) -> Seq<char> {
    "對話歷史:\n"@ + history_lines(history) + "\n\n使用者最新問題: "@ + raw
}

/// The model's answer made fit for searching: trimmed, on one line.
pub open spec fn cleaned(output: Seq<char>) -> Seq<char> {
    replace_char(trimmed(output), '\n', " "@)
}

/// The rewrite with the safety net applied: a raw query of more than
/// `SAFETY_NET_ABOVE_BYTES` bytes that the rewrite does not contain is
/// appended to it.
pub open spec fn guarded(rewritten: Seq<char>, raw: Seq<char>) -> Seq<char> {
    if byte_len(raw) > SAFETY_NET_ABOVE_BYTES && !is_substring(raw, rewritten) {
        rewritten + " "@ + raw
    } else {
        rewritten
    }
}

/// The search string after the rewriting stage: the guarded, cleaned answer
/// of the model, or the expanded query when the model gave none.
pub open spec fn settled(expanded: Seq<char>, raw: Seq<char>, answer: Option<Seq<char>>) -> Seq<
    char,
> {
    match answer {
        Some(output) => guarded(cleaned(output), raw),
        None => expanded,
    }
}

/// The safety net: whatever the model wrote, a raw query longer than the
/// minimal length occurs in the guarded rewrite.
pub proof fn lemma_guarded_keeps_query(rewritten: Seq<char>, raw: Seq<char>)
    requires
        byte_len(raw) > SAFETY_NET_ABOVE_BYTES,
    ensures
        is_substring(raw, guarded(rewritten, raw)),
{
    if !is_substring(raw, rewritten) {
        lemma_substring_of_concat(rewritten + " "@, raw, Seq::<char>::empty());
        assert(rewritten + " "@ + raw + Seq::<char>::empty() =~= rewritten + " "@ + raw);
    }
}

/// Rewrite safety net: whenever the model answered, the search string that
/// leaves the rewriting stage contains a raw query longer than the minimal
/// length, whether or not the model's answer kept it.
pub proof fn lemma_rewrite_keeps_query(expanded: Seq<char>, raw: Seq<char>, output: Seq<char>)
    requires
        byte_len(raw) > SAFETY_NET_ABOVE_BYTES,
    ensures
        is_substring(raw, settled(expanded, raw, Some(output))),
{
    lemma_guarded_keeps_query(cleaned(output), raw);
}

/// Whether a rewrite is attempted for this query.
pub fn should_rewrite(history: &Vec<Turn>, raw: &str) -> (wanted: bool)
    ensures
        wanted == rewrite_wanted(history@.len(), raw@),
{
    history.len() > 0 && raw.unicode_len() < REWRITE_BELOW_CHARS
}

fn make_turn_line(turn: &Turn) -> (out: String)
    ensures
        out@ == turn_line(turn@),
{
    let mut out = match &turn.role {
        Some(role) => role.clone(),
        None => String::from_str("unknown"),
    };
    out.append(": ");
    match &turn.content {
        Some(content) => {
            out.append(content.as_str());
        },
        None => {
            assert(out@ + Seq::<char>::empty() =~= out@);
        },
    }
    out
}

/// Writes the latest turns of the history, one per line.
pub fn history_text(history: &Vec<Turn>) -> (out: String)
    ensures
        out@ == history_lines(turn_views(history@)),
{
    let n = history.len();
    let first: usize = if n <= HISTORY_WINDOW {
        0
    } else {
        n - HISTORY_WINDOW
    };
    let ghost shown = recent(turn_views(history@));
    assert(shown =~= turn_views(history@).skip(first as int));
    let mut lines: Vec<String> = Vec::new();
    let mut i: usize = first;
    assert(views(lines@) =~= shown.take(0).map_values(as_line()));
    while i < n
        invariant
            n == history.len(),
            first <= i <= n,
            shown == turn_views(history@).skip(first as int),
            views(lines@) == shown.take(i - first).map_values(as_line()),
        decreases n - i,
    {
        let line = make_turn_line(&history[i]);
        proof {
            let before = shown.take(i - first);
            assert(shown[i - first] == history@[i as int]@);
            assert(shown.take(i - first + 1) =~= before.push(shown[i - first]));
            before.lemma_push_map_commute(as_line(), shown[i - first]);
            lemma_views_push(lines@, line);
        }
        lines.push(line);
        i += 1;
    }
    assert(shown.take(n - first) =~= shown);
    join(&lines, "\n")
}

/// Builds the request put to the rewriting model.
pub fn make_rewrite_request(history: &Vec<Turn>, raw: &str) -> (out: String)
    ensures
        out@ == rewrite_request(turn_views(history@), raw@),
{
    let lines = history_text(history);
    let mut out = String::from_str("對話歷史:\n");
    out.append(lines.as_str());
    out.append("\n\n使用者最新問題: ");
    out.append(raw);
    out
}

/// Makes the model's answer fit for searching.
pub fn clean_rewrite(output: &str) -> (out: String)
    ensures
        out@ == cleaned(output@),
{
    let stripped = trim(output);
    replace(stripped.as_str(), '\n', " ")
}

/// Applies the safety net to a rewrite: a raw query of more than
/// `SAFETY_NET_ABOVE_BYTES` bytes that the rewrite lost is appended to it,
/// so that no keyword the user gave is dropped.
pub fn apply_safety_net(rewritten: String, raw: &str) -> (out: String)
    ensures
        out@ == guarded(rewritten@, raw@),
        byte_len(raw@) > SAFETY_NET_ABOVE_BYTES ==> is_substring(raw@, out@),
{
    proof {
        if byte_len(raw@) > SAFETY_NET_ABOVE_BYTES {
            lemma_guarded_keeps_query(rewritten@, raw@);
        }
    }
    if byte_length(raw) > SAFETY_NET_ABOVE_BYTES && !contains(rewritten.as_str(), raw) {
        let mut out = rewritten;
        out.append(" ");
        out.append(raw);
        out
    } else {
        rewritten
    }
}

/// Settles the search string after the rewriting stage. `answer` is what the
/// model returned, or nothing if the call failed for any reason; a failed
/// rewrite leaves the expanded query in place.
pub fn settle_query(expanded: String, raw: &str, answer: Option<String>) -> (out: String)
    ensures
        out@ == settled(expanded@, raw@, opt_view(answer)),
        answer.is_some() && byte_len(raw@) > SAFETY_NET_ABOVE_BYTES ==> is_substring(raw@, out@),
{
    match answer {
        Some(output) => apply_safety_net(clean_rewrite(output.as_str()), raw),
        None => expanded,
    }
}

} // verus!
