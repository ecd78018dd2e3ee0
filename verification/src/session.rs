//! Conversation history: where it is taken from and what is added to it.
//!
//! A conversation may be kept in a session store or be sent along by the
//! client with every request. The store wins when it can be read and holds
//! readable turns; otherwise the client's copy is used.

use crate::rewrite::{turn_views, Turn, TurnView};
use vstd::prelude::*;
use vstd::string::StringExecFns;

verus! {

/// How many of the latest stored entries are read.
pub const SESSION_WINDOW: usize = 10;

/// How long a stored conversation lives after its last turn, in seconds.
pub const SESSION_TTL_SECONDS: u64 = 86400;

/// What reading the session store gave.
#[derive(Debug, Clone)]
pub enum StoreRead {
    /// There is no store or no session, or the store could not be read.
    Unavailable,
    /// The stored entries, oldest first; an entry that is not valid JSON is
    /// absent.
    Entries(Vec<Option<Turn>>),
}

/// The history a query is answered with, and whether the finished turn is
/// written to the store.
#[derive(Debug, Clone)]
pub struct HistoryChoice {
    pub history: Vec<Turn>,
    pub use_store: bool,
}

/// The views of stored entries.
pub open spec fn entry_views(entries: Seq<Option<Turn>>) -> Seq<Option<TurnView>> {
    Seq::new(
        entries.len(),
        |i: int|
            match entries[i] {
                Some(turn) => Some(turn@),
                None => None,
            },
    )
}

/// The entries that could be read, in order.
pub open spec fn readable(entries: Seq<Option<TurnView>>) -> Seq<TurnView>
    decreases entries.len(),
{
    if entries.len() == 0 {
        Seq::empty()
    } else {
        match entries.last() {
            Some(turn) => readable(entries.drop_last()).push(turn),
            None => readable(entries.drop_last()),
        }
    }
}

/// The history that is used: the readable stored turns if there are any,
/// the client's turns otherwise.
pub open spec fn chosen_history(client: Seq<TurnView>, stored: Option<Seq<Option<TurnView>>>) -> Seq<
    TurnView,
> {
    match stored {
        Some(entries) => if readable(entries).len() > 0 {
            readable(entries)
        } else {
            client
        },
        None => client,
    }
}

/// The store is written to after the turn: it could be read, and it was
/// either empty or held a readable turn.
pub open spec fn store_in_use(stored: Option<Seq<Option<TurnView>>>) -> bool {
    match stored {
        Some(entries) => entries.len() == 0 || readable(entries).len() > 0,
        None => false,
    }
}

/// The view of what reading the store gave.
pub open spec fn read_view(stored: StoreRead) -> Option<Seq<Option<TurnView>>> {
    match stored {
        StoreRead::Unavailable => None,
        StoreRead::Entries(entries) => Some(entry_views(entries@)),
    }
}

/// The key a session is stored under.
pub open spec fn key_of(session: Seq<char>) -> Seq<char> {
    "chat:"@ + session
}

/// Builds the key a session is stored under.
pub fn session_key(session: &str) -> (key: String)
    ensures
        key@ == key_of(session@),
{
    let mut key = String::from_str("chat:");
    key.append(session);
    key
}

fn duplicate_turn(turn: &Turn) -> (copy: Turn)
    ensures
        copy@ == turn@,
{
    Turn {
        role: match &turn.role {
            Some(role) => Some(role.clone()),
            None => None,
        },
        content: match &turn.content {
            Some(content) => Some(content.clone()),
            None => None,
        },
    }
}

/// Chooses the history a query is answered with.
pub fn choose_history(client: Vec<Turn>, stored: &StoreRead) -> (choice: HistoryChoice)
    ensures
        turn_views(choice.history@) == chosen_history(turn_views(client@), read_view(*stored)),
        choice.use_store == store_in_use(read_view(*stored)),
{
    match stored {
        StoreRead::Unavailable => HistoryChoice { history: client, use_store: false },
        StoreRead::Entries(entries) => {
            let ghost all = entry_views(entries@);
            let mut kept: Vec<Turn> = Vec::new();
            let mut i: usize = 0;
            assert(all.take(0) =~= Seq::<Option<TurnView>>::empty());
            assert(turn_views(kept@) =~= Seq::<TurnView>::empty());
            while i < entries.len()
                invariant
                    i <= entries.len(),
                    all == entry_views(entries@),
                    turn_views(kept@) == readable(all.take(i as int)),
                decreases entries.len() - i,
            {
                proof {
                    assert(all.take(i + 1).drop_last() =~= all.take(i as int));
                    assert(all.take(i + 1).last() == all[i as int]);
                }
                match &entries[i] {
                    Some(turn) => {
                        let copy = duplicate_turn(turn);
                        proof {
                            assert(turn_views(kept@.push(copy)) =~= turn_views(kept@).push(copy@));
                        }
                        kept.push(copy);
                    },
                    None => {},
                }
                i += 1;
            }
            assert(all.take(entries.len() as int) =~= all);
            if kept.len() > 0 {
                HistoryChoice { history: kept, use_store: true }
            } else {
                HistoryChoice { history: client, use_store: entries.len() == 0 }
            }
        },
    }
}

/// The two turns a finished exchange adds to the history: the user's query
/// and the assistant's answer.
pub fn exchange_turns(query: &str, answer: &str) -> (turns: (Turn, Turn))
    ensures
        turns.0@ == (TurnView { role: Some("user"@), content: Some(query@) }),
        turns.1@ == (TurnView { role: Some("assistant"@), content: Some(answer@) }),
{
    (
        Turn { role: Some(String::from_str("user")), content: Some(String::from_str(query)) },
        Turn {
            role: Some(String::from_str("assistant")),
            content: Some(String::from_str(answer)),
        },
    )
}

} // verus!
