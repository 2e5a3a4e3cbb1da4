//! Market browsing: the modes of the markets command, what each does with
//! the query, and the truncation of text for tables.

use vstd::prelude::*;
use crate::text::{byte_prefix_end, chars_of, copy_range, string_of, utf8_len, utf8_len_exceeds};

verus! {

#[derive(Debug, Clone, Copy, PartialEq, Eq, Structural)]
pub enum MarketMode {
    /// List all markets (default)
    List,
    /// Show markets sorted by volume (cached data)
    Volume,
    /// Show actively traded markets (live orderbook data)
    Active,
    /// Search markets by keyword
    Search,
    /// Get details for a specific market
    Details,
    /// Get market from Polymarket URL
    Url,
    /// Query markets from local RocksDB database (fast)
    Db,
}

/// What the markets command does.
#[derive(Debug)]
pub enum MarketsPlan {
    /// Open the markets browser.
    Browser,
    /// List markets, filtered by the query if there is one.
    List(Option<String>),
    /// Markets sorted by volume.
    Volume,
    /// Actively traded markets.
    Active,
    /// Search by the keyword.
    Search(String),
    /// Details of the market named.
    Details(String),
    /// The market of the URL.
    Url(String),
    /// Markets from the local database.
    Db,
    /// The mode needs a query and none was given.
    MissingQuery(MarketMode),
}

/// The list mode without a query opens the browser; search, details and URL
/// modes need the query; the others use it as given.
pub fn markets_plan(mode: MarketMode, query: &Option<String>) -> (r: MarketsPlan)
    ensures
        match mode {
            MarketMode::List => match query {
                None => r is Browser,
                Some(q) => r matches MarketsPlan::List(Some(t)) && t@ == q@,
            },
            MarketMode::Volume => r is Volume,
            MarketMode::Active => r is Active,
            MarketMode::Db => r is Db,
            MarketMode::Search => match query {
                Some(q) => r matches MarketsPlan::Search(t) && t@ == q@,
                None => r == MarketsPlan::MissingQuery(mode),
            },
            MarketMode::Details => match query {
                Some(q) => r matches MarketsPlan::Details(t) && t@ == q@,
                None => r == MarketsPlan::MissingQuery(mode),
            },
            MarketMode::Url => match query {
                Some(q) => r matches MarketsPlan::Url(t) && t@ == q@,
                None => r == MarketsPlan::MissingQuery(mode),
            },
        },
{
    match mode {
        MarketMode::List => match query {
            None => MarketsPlan::Browser,
            Some(q) => MarketsPlan::List(Some(q.clone())),
        },
        MarketMode::Volume => MarketsPlan::Volume,
        MarketMode::Active => MarketsPlan::Active,
        MarketMode::Db => MarketsPlan::Db,
        MarketMode::Search => match query {
            Some(q) => MarketsPlan::Search(q.clone()),
            None => MarketsPlan::MissingQuery(mode),
        },
        MarketMode::Details => match query {
            Some(q) => MarketsPlan::Details(q.clone()),
            None => MarketsPlan::MissingQuery(mode),
        },
        MarketMode::Url => match query {
            Some(q) => MarketsPlan::Url(q.clone()),
            None => MarketsPlan::MissingQuery(mode),
        },
    }
}

/// `max_len - 3`, or 0 below 3.
pub open spec fn cut_bytes(max_len: usize) -> int {
    if max_len >= 3 {
        max_len - 3
    } else {
        0
    }
}

/// Byte `b` of `s` falls between two characters.
pub open spec fn is_char_boundary(s: Seq<char>, b: int) -> bool {
    exists|k: int| 0 <= k <= s.len() && #[trigger] utf8_len(s.take(k)) == b
}

/// The characters of `s` that its first `b` bytes encode.
pub open spec fn byte_prefix(s: Seq<char>, b: int) -> Seq<char> {
    s.take(choose|k: int| 0 <= k <= s.len() && #[trigger] utf8_len(s.take(k)) == b)
}

/// `text` where its UTF-8 form fits in `max_len` bytes; else its first
/// `max_len - 3` bytes (none below 3) followed by `...`. The cut must fall
/// between two characters.
pub fn truncate_text(text: &str, max_len: usize) -> (r: String)
    requires
        utf8_len(text@) > max_len ==> is_char_boundary(text@, cut_bytes(max_len)),
    ensures
        utf8_len(text@) <= max_len ==> r@ == text@,
        utf8_len(text@) > max_len ==> r@ == byte_prefix(text@, cut_bytes(max_len)) + "..."@,
{
    let v = chars_of(text);
    if !utf8_len_exceeds(&v, max_len) {
        return String::from_str(text);
    }
    let cut: usize = if max_len >= 3 {
        max_len - 3
    } else {
        0
    };
    match byte_prefix_end(&v, cut) {
        Some(k) => {
            let head = copy_range(&v, 0, k);
            let mut r = string_of(&head);
            r.append("...");
            proof {
                let c = choose|c: int| 0 <= c <= text@.len() && #[trigger] utf8_len(text@.take(c)) == cut;
                if c < k {
                    crate::text::lemma_utf8_prefix_strict(text@, c, k as int);
                } else if k < c {
                    crate::text::lemma_utf8_prefix_strict(text@, k as int, c);
                }
                assert(head@ =~= text@.take(k as int));
            }
            r
        },
        None => {
            proof {
                let c = choose|c: int| 0 <= c <= text@.len() && #[trigger] utf8_len(text@.take(c)) == cut;
                assert(utf8_len(v@.take(c)) != cut as int);
            }
            String::new()
        },
    }
}

} // verus!
