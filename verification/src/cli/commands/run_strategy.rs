//! Running a trading strategy: which token ids are complete and which are
//! prefixes to resolve against the stored order book snapshots, how a
//! choice among several matches is read, and what each streamed event does.

use vstd::prelude::*;
use crate::address_book::order::{
    lemma_seq_le_antisym, lemma_seq_le_total, lemma_seq_le_trans, seq_le, str_le,
};
use crate::address_book::types::str_eq;
use crate::text::{
    is_prefix, is_suffix, parse_usize, parsed_usize, starts_with, strings_view, strip_suffix,
    trim, trim_str, utf8_len,
};

verus! {

/// A token id shorter than 70 bytes that does not start with `0x` is a
/// prefix to resolve.
pub open spec fn is_token_prefix(token: Seq<char>) -> bool {
    utf8_len(token) < 70 && !is_prefix("0x"@, token)
}

/// Whether a token id is a prefix to resolve.
pub fn needs_resolution(token: &str) -> (r: bool)
    ensures
        r == is_token_prefix(token@),
{
    let v = crate::text::chars_of(token);
    let n = crate::text::utf8_len_capped(&v, 70);
    n < 70 && !starts_with(token, "0x")
}

/// The token id that a snapshot file name stands for, if it is one.
pub open spec fn snapshot_token(name: Seq<char>) -> Option<Seq<char>> {
    if is_suffix("_snapshot.fb"@, name) {
        Some(name.take(name.len() - 12))
    } else {
        None
    }
}

/// `t` is the token of a snapshot among `names` that starts with `prefix`.
pub open spec fn matching_snapshot(names: Seq<Seq<char>>, prefix: Seq<char>, t: Seq<char>) -> bool {
    exists|i: int|
        0 <= i < names.len() && snapshot_token(#[trigger] names[i]) == Some(t) && is_prefix(
            prefix,
            t,
        )
}

/// The strings are in strictly increasing order.
pub open spec fn strictly_sorted(v: Seq<Seq<char>>) -> bool {
    forall|a: int, b: int|
        0 <= a < b < v.len() ==> seq_le(#[trigger] v[a], #[trigger] v[b]) && v[a] != v[b]
}

/// Puts `x` into a strictly sorted list unless it is there already.
pub fn insert_sorted_unique(r: &mut Vec<String>, x: String)
    requires
        strictly_sorted(strings_view(old(r)@)),
    ensures
        strictly_sorted(strings_view(final(r)@)),
        forall|t: Seq<char>|
            strings_view(final(r)@).contains(t) <==> (strings_view(old(r)@).contains(t) || t
                == x@),
{
    let ghost s0 = strings_view(r@);
    let mut i: usize = 0;
    while i < r.len()
        invariant
            i <= r.len(),
            s0 == strings_view(r@),
            strictly_sorted(s0),
            forall|j: int| 0 <= j < i ==> seq_le(s0[j], x@) && s0[j] != x@,
        ensures
            i <= r.len(),
            s0 == strings_view(r@),
            forall|j: int| 0 <= j < i ==> seq_le(s0[j], x@) && s0[j] != x@,
            i < r.len() ==> !(seq_le(s0[i as int], x@) && s0[i as int] != x@),
        decreases r.len() - i,
    {
        let lt = str_le(r[i].as_str(), x.as_str()) && !str_eq(r[i].as_str(), x.as_str());
        proof {
            assert(s0[i as int] == r@[i as int]@);
        }
        if !lt {
            break;
        }
        i = i + 1;
    }
    if i < r.len() && str_eq(r[i].as_str(), x.as_str()) {
        proof {
            assert(s0[i as int] == r@[i as int]@);
            assert forall|t: Seq<char>| s0.contains(t) <==> (s0.contains(t) || t == x@) by {
                if t == x@ {
                    assert(s0[i as int] == t);
                }
            }
        }
        return;
    }
    proof {
        if i < r.len() {
            assert(s0[i as int] == r@[i as int]@);
            assert(!seq_le(s0[i as int], x@) || s0[i as int] == x@);
            assert(s0[i as int] != x@);
            lemma_seq_le_total(s0[i as int], x@);
        }
    }
    let ghost xv = x@;
    r.insert(i, x);
    proof {
        let s1 = strings_view(r@);
        assert(s1 =~= s0.insert(i as int, xv));
        assert forall|a: int, b: int| 0 <= a < b < s1.len() implies seq_le(
            #[trigger] s1[a],
            #[trigger] s1[b],
        ) && s1[a] != s1[b] by {
            if a < i && b == i {
            } else if a < i && b > i {
                assert(s1[b] == s0[b - 1]);
                if b - 1 >= i {
                    assert(seq_le(s0[a], s0[b - 1]) && s0[a] != s0[b - 1]);
                }
            } else if a == i && b > i {
                assert(s1[b] == s0[b - 1]);
                if b - 1 > i {
                    assert(seq_le(s0[i as int], s0[b - 1]) && s0[i as int] != s0[b - 1]);
                    lemma_seq_le_trans(xv, s0[i as int], s0[b - 1]);
                    if xv == s0[b - 1] {
                        lemma_seq_le_antisym(s0[i as int], s0[b - 1]);
                    }
                }
            } else if a > i {
                assert(s1[a] == s0[a - 1]);
                assert(s1[b] == s0[b - 1]);
            }
        }
        assert forall|t: Seq<char>| s1.contains(t) <==> (s0.contains(t) || t == xv) by {
            if s1.contains(t) {
                let k = choose|k: int| 0 <= k < s1.len() && s1[k] == t;
                if k < i {
                    assert(s0[k] == t);
                } else if k > i {
                    assert(s0[k - 1] == t);
                }
            }
            if s0.contains(t) {
                let k = choose|k: int| 0 <= k < s0.len() && s0[k] == t;
                if k < i {
                    assert(s1[k] == t);
                } else {
                    assert(s1[k + 1] == t);
                }
            }
            if t == xv {
                assert(s1[i as int] == t);
            }
        }
    }
}

/// The token ids of the order book snapshot files (`<token>_snapshot.fb`)
/// among `file_names` that start with `prefix`, sorted, each once.
pub fn snapshot_tokens_matching(file_names: &Vec<String>, prefix: &str) -> (r: Vec<String>)
    ensures
        strictly_sorted(strings_view(r@)),
        forall|t: Seq<char>|
            strings_view(r@).contains(t) <==> matching_snapshot(
                strings_view(file_names@),
                prefix@,
                t,
            ),
{
    let ghost names = strings_view(file_names@);
    let mut r: Vec<String> = Vec::new();
    let mut i: usize = 0;
    while i < file_names.len()
        invariant
            i <= file_names.len(),
            names == strings_view(file_names@),
            strictly_sorted(strings_view(r@)),
            forall|t: Seq<char>|
                strings_view(r@).contains(t) <==> matching_snapshot(names.take(i as int), prefix@, t),
        decreases file_names.len() - i,
    {
        proof {
            reveal_strlit("_snapshot.fb");
            assert(names[i as int] == file_names@[i as int]@);
            assert forall|t: Seq<char>|
                matching_snapshot(names.take(i + 1), prefix@, t) <==> (matching_snapshot(
                    names.take(i as int),
                    prefix@,
                    t,
                ) || (snapshot_token(names[i as int]) == Some(t) && is_prefix(prefix@, t))) by {
                if matching_snapshot(names.take(i + 1), prefix@, t) {
                    let k = choose|k: int|
                        0 <= k < names.take(i + 1).len() && snapshot_token(
                            #[trigger] names.take(i + 1)[k],
                        ) == Some(t) && is_prefix(prefix@, t);
                    if k < i {
                        assert(names.take(i as int)[k] == names.take(i + 1)[k]);
                    }
                }
                if matching_snapshot(names.take(i as int), prefix@, t) {
                    let k = choose|k: int|
                        0 <= k < names.take(i as int).len() && snapshot_token(
                            #[trigger] names.take(i as int)[k],
                        ) == Some(t) && is_prefix(prefix@, t);
                    assert(names.take(i + 1)[k] == names.take(i as int)[k]);
                }
                if snapshot_token(names[i as int]) == Some(t) && is_prefix(prefix@, t) {
                    assert(names.take(i + 1)[i as int] == names[i as int]);
                }
            }
        }
        match strip_suffix(file_names[i].as_str(), "_snapshot.fb") {
            Some(token) => {
                if starts_with(token.as_str(), prefix) {
                    insert_sorted_unique(&mut r, token);
                }
            },
            None => {},
        }
        i = i + 1;
    }
    proof {
        assert(names.take(i as int) =~= names);
    }
    r
}

/// How a token prefix resolves.
#[derive(Debug)]
pub enum Resolution {
    /// No stored token starts with the prefix.
    NoMatch,
    /// Exactly one does.
    Unique(String),
    /// Several do; the user picks one.
    Choose(Vec<String>),
}

/// No match, one match, or a choice among several.
pub fn resolution_of(matches: Vec<String>) -> (r: Resolution)
    ensures
        matches@.len() == 0 ==> r is NoMatch,
        matches@.len() == 1 ==> (r matches Resolution::Unique(t) && t@ == matches@[0]@),
        matches@.len() > 1 ==> (r matches Resolution::Choose(v) && strings_view(v@) == strings_view(
            matches@,
        )),
{
    if matches.len() == 0 {
        Resolution::NoMatch
    } else if matches.len() == 1 {
        let t = matches[0].clone();
        Resolution::Unique(t)
    } else {
        Resolution::Choose(matches)
    }
}

/// Why a choice among matches was refused.
#[derive(Debug, Clone, Copy, PartialEq, Eq, Structural)]
pub enum SelectionError {
    /// The answer is not a number.
    NotANumber,
    /// The number is not between 1 and the number of matches.
    OutOfRange,
}

/// Reads the answer to "Enter selection (1-n)": the trimmed answer must be a
/// number from 1 to `count`; the result is the index it names.
pub fn read_selection(input: &str, count: usize) -> (r: Result<usize, SelectionError>)
    ensures
        match parsed_usize(trim(input@)) {
            None => r == Err::<usize, SelectionError>(SelectionError::NotANumber),
            Some(n) => if n == 0 || n > count {
                r == Err::<usize, SelectionError>(SelectionError::OutOfRange)
            } else {
                r == Ok::<usize, SelectionError>((n - 1) as usize)
            },
        },
{
    let t = trim_str(input);
    match parse_usize(t.as_str()) {
        None => Err(SelectionError::NotANumber),
        Some(n) => if n == 0 || n > count {
            Err(SelectionError::OutOfRange)
        } else {
            Ok(n - 1)
        },
    }
}

/// Whether a strategy name is one that can run: only `simple` is.
pub fn strategy_supported(name: &str) -> (r: bool)
    ensures
        r == (name@ == "simple"@),
{
    str_eq(name, "simple")
}

/// The assets to subscribe to: none (that is, all markets) when all
/// markets are asked for, else the resolved tokens.
pub fn subscription_assets(all_markets: bool, resolved: &Vec<String>) -> (r: Vec<String>)
    ensures
        all_markets ==> r@.len() == 0,
        !all_markets ==> strings_view(r@) == strings_view(resolved@),
{
    if all_markets {
        Vec::new()
    } else {
        crate::address_book::types::clone_strings(resolved)
    }
}

/// The kinds of streamed events that the strategy loop tells apart.
#[derive(Debug, Clone, Copy, PartialEq, Eq, Structural)]
pub enum EventKind {
    Book,
    PriceChange,
    Trade,
    LastTradePrice,
    MyOrder,
    MyTrade,
    Other,
}

/// The counters of a strategy session.
#[derive(Debug, Clone, Copy, PartialEq, Eq, Structural)]
pub struct SessionCounters {
    pub event_count: u64,
    pub order_event_count: u64,
}

/// What the loop does about one event beyond counting it.
#[derive(Debug, Clone, Copy, PartialEq, Eq, Structural)]
pub struct EventEffects {
    /// The strategy gets the current order book of its token.
    pub refresh_orderbook: bool,
    /// The event is one of the user's own orders or trades.
    pub own_activity: bool,
}

impl SessionCounters {
    pub fn new() -> (r: Self)
        ensures
            r.event_count == 0,
            r.order_event_count == 0,
    {
        SessionCounters { event_count: 0, order_event_count: 0 }
    }

    /// Counts an event; the user's own orders and trades also count as
    /// order events. Book and price changes of the strategy's token refresh
    /// its order book.
    pub fn record(&mut self, kind: EventKind, for_strategy_token: bool) -> (r: EventEffects)
        requires
            old(self).event_count < u64::MAX,
            old(self).order_event_count < u64::MAX,
        ensures
            final(self).event_count == old(self).event_count + 1,
            final(self).order_event_count == old(self).order_event_count + (if kind
                == EventKind::MyOrder || kind == EventKind::MyTrade {
                1int
            } else {
                0int
            }),
            r.own_activity == (kind == EventKind::MyOrder || kind == EventKind::MyTrade),
            r.refresh_orderbook == ((kind == EventKind::Book || kind == EventKind::PriceChange)
                && for_strategy_token),
    {
        self.event_count = self.event_count + 1;
        let own = kind == EventKind::MyOrder || kind == EventKind::MyTrade;
        if own {
            self.order_event_count = self.order_event_count + 1;
        }
        EventEffects {
            refresh_orderbook: (kind == EventKind::Book || kind == EventKind::PriceChange)
                && for_strategy_token,
            own_activity: own,
        }
    }

    /// The periodic status says the strategy is still waiting until the
    /// first event.
    pub fn waiting(&self) -> (r: bool)
        ensures
            r == (self.event_count == 0),
    {
        self.event_count == 0
    }
}

} // verus!
