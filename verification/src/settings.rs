//! Limits of a deployment, read from textual settings.

use crate::text::chars_of;
use vstd::prelude::*;

verus! {

/// The value of a decimal digit.
pub open spec fn digit_value(c: char) -> nat {
    (c as u32 - '0' as u32) as nat
}

/// The character is one of `0` to `9`.
pub open spec fn is_digit(c: char) -> bool {
    '0' as u32 <= c as u32 <= '9' as u32
}

/// All characters are decimal digits.
pub open spec fn all_digits(s: Seq<char>) -> bool {
    forall|i: int| 0 <= i < s.len() ==> is_digit(#[trigger] s[i])
}

/// The number a sequence of decimal digits denotes.
pub open spec fn decimal(s: Seq<char>) -> nat
    decreases s.len(),
{
    if s.len() == 0 {
        0
    } else {
        decimal(s.drop_last()) * 10 + digit_value(s.last())
    }
}

/// The text without a leading plus sign.
pub open spec fn unsigned_part(s: Seq<char>) -> Seq<char> {
    if s.len() > 0 && s[0] == '+' {
        s.drop_first()
    } else {
        s
    }
}

/// The count a setting denotes: an optional plus sign followed by at least
/// one decimal digit, if the number fits the machine's word.
pub open spec fn parsed_count(s: Seq<char>) -> Option<usize> {
    let digits = unsigned_part(s);
    if digits.len() > 0 && all_digits(digits) && decimal(digits) <= usize::MAX {
        Some(decimal(digits) as usize)
    } else {
        None
    }
}

/// The value of a setting, or the default when it is absent or is not a
/// count.
pub open spec fn setting_or(raw: Option<Seq<char>>, default: usize) -> usize {
    match raw {
        Some(text) => match parsed_count(text) {
            Some(value) => value,
            None => default,
        },
        None => default,
    }
}

proof fn lemma_decimal_grows(s: Seq<char>, n: int)
    requires
        0 <= n <= s.len(),
    ensures
        decimal(s.take(n)) <= decimal(s),
    decreases s.len() - n,
{
    if n == s.len() {
        assert(s.take(n) =~= s);
    } else {
        lemma_decimal_grows(s, n + 1);
        assert(s.take(n + 1).drop_last() =~= s.take(n));
    }
}

/// Reads a count from its decimal notation.
pub fn parse_count(text: &str) -> (out: Option<usize>)
    ensures
        out == parsed_count(text@),
{
    let chars = chars_of(text);
    let n = chars.len();
    let first: usize = if n > 0 && chars[0] == '+' {
        1
    } else {
        0
    };
    let ghost digits = unsigned_part(text@);
    assert(digits =~= text@.skip(first as int));
    if first == n {
        return None;
    }
    let mut value: usize = 0;
    let mut i: usize = first;
    assert(digits.take(0) =~= Seq::<char>::empty());
    while i < n
        invariant
            chars@ == text@,
            n == chars.len(),
            first <= i <= n,
            digits == text@.skip(first as int),
            digits == unsigned_part(text@),
            all_digits(digits.take(i - first)),
            value == decimal(digits.take(i - first)),
        decreases n - i,
    {
        let c = chars[i];
        let code = c as u32;
        proof {
            assert(digits[i - first] == c);
            assert(digits.take(i - first + 1).drop_last() =~= digits.take(i - first));
            assert(digits.take(i - first + 1).last() == c);
        }
        if code < '0' as u32 || code > '9' as u32 {
            assert(!is_digit(digits[i - first]));
            return None;
        }
        let digit = (code - '0' as u32) as usize;
        let scaled = match value.checked_mul(10) {
            Some(v) => v,
            None => {
                proof {
                    lemma_decimal_grows(digits, i - first + 1);
                }
                return None;
            },
        };
        let next = match scaled.checked_add(digit) {
            Some(v) => v,
            None => {
                proof {
                    lemma_decimal_grows(digits, i - first + 1);
                }
                return None;
            },
        };
        proof {
            assert forall|k: int| 0 <= k < i - first + 1 implies is_digit(
                #[trigger] digits.take(i - first + 1)[k],
            ) by {
                if k < i - first {
                    assert(digits.take(i - first)[k] == digits[k]);
                }
            }
        }
        value = next;
        i += 1;
    }
    assert(digits.take(n - first) =~= digits);
    Some(value)
}

/// The port the web server listens on where a deployment sets none.
pub const DEFAULT_PORT: u16 = 8080;

/// The port a setting denotes: its count if that is a port number, the
/// default otherwise.
pub open spec fn port_of(raw: Option<Seq<char>>) -> u16 {
    match raw {
        Some(text) => match parsed_count(text) {
            Some(value) => if value <= u16::MAX {
                value as u16
            } else {
                DEFAULT_PORT
            },
            None => DEFAULT_PORT,
        },
        None => DEFAULT_PORT,
    }
}

/// The limits a query is answered under.
#[derive(Debug, Clone, Copy, PartialEq, Eq, Structural)]
pub struct Limits {
    /// How many nearest rows a search asks for, and how many passages the
    /// rerank selection may hold.
    pub recall_limit: usize,
    /// How many passages enter the generation context.
    pub rerank_limit: usize,
    /// The diversity cap: how many passages one document may contribute.
    pub max_chunks_per_doc: usize,
}

/// The limits used where a deployment sets none.
pub open spec fn default_limits() -> Limits {
    Limits { recall_limit: 20, rerank_limit: 3, max_chunks_per_doc: 3 }
}

/// The limits a deployment's settings give.
pub open spec fn limits_of(
    recall: Option<Seq<char>>,
    rerank: Option<Seq<char>>,
    cap: Option<Seq<char>>,
) -> Limits {
    Limits {
        recall_limit: setting_or(recall, default_limits().recall_limit),
        rerank_limit: setting_or(rerank, default_limits().rerank_limit),
        max_chunks_per_doc: setting_or(cap, default_limits().max_chunks_per_doc),
    }
}

/// The view of an optional string slice.
pub open spec fn setting_view(raw: Option<&str>) -> Option<Seq<char>> {
    match raw {
        Some(text) => Some(text@),
        None => None,
    }
}

/// Reads one setting, falling back to `default` when the setting is absent
/// or is not a count.
pub fn read_setting(raw: Option<&str>, default: usize) -> (value: usize)
    ensures
        value == setting_or(setting_view(raw), default),
{
    match raw {
        Some(text) => match parse_count(text) {
            Some(value) => value,
            None => default,
        },
        None => default,
    }
}

/// Reads the port of the web server from its setting.
pub fn read_port(raw: Option<&str>) -> (port: u16)
    ensures
        port == port_of(setting_view(raw)),
{
    match raw {
        Some(text) => match parse_count(text) {
            Some(value) => if value <= 65535 {
                value as u16
            } else {
                DEFAULT_PORT
            },
            None => DEFAULT_PORT,
        },
        None => DEFAULT_PORT,
    }
}

impl Limits {
    /// The limits used where a deployment sets none.
    pub fn standard() -> (limits: Limits)
        ensures
            limits == default_limits(),
    {
        Limits { recall_limit: 20, rerank_limit: 3, max_chunks_per_doc: 3 }
    }

    /// Reads the limits from a deployment's settings.
    pub fn from_settings(recall: Option<&str>, rerank: Option<&str>, cap: Option<&str>) -> (limits:
        Limits)
        ensures
            limits == limits_of(setting_view(recall), setting_view(rerank), setting_view(cap)),
    {
        Limits {
            recall_limit: read_setting(recall, 20),
            rerank_limit: read_setting(rerank, 3),
            max_chunks_per_doc: read_setting(cap, 3),
        }
    }
}

} // verus!
