//! The counting part of an address's trading metrics: how many activities of
//! each kind its history holds, and when the latest of them happened.

use vstd::prelude::*;
use crate::address_book::types::str_eq;
use crate::address_book::sync::{utc_seconds_valid, seconds_representable};

verus! {

/// The timestamp field of an activity: a whole number of seconds, a text,
/// or neither.
#[derive(Debug)]
pub enum ActivityTime {
    Seconds(i64),
    Text(String),
    Missing,
}

/// An activity as the metrics read it: its `type`, its `side` (empty where
/// it has none) and its `timestamp`.
#[derive(Debug)]
pub struct ActivityItem {
    pub kind: String,
    pub side: String,
    pub time: ActivityTime,
}

/// An instant: seconds since the Unix epoch and nanoseconds past them.
#[derive(Debug, Clone, Copy, PartialEq, Eq, Structural)]
pub struct Instant {
    pub secs: i64,
    pub nanos: u32,
}

/// What an activity counts as.
#[derive(Debug, Clone, Copy, PartialEq, Eq, Structural)]
pub enum ActivityClass {
    Buy,
    Sell,
    /// A trade whose side is neither `BUY` nor `SELL`: counted nowhere, but
    /// its time is seen.
    UnknownSide,
    Redeem,
    Conversion,
    Merge,
    Reward,
    /// Any other type: skipped.
    Ignored,
}

/// The class of an activity of type `kind` and side `side`.
pub open spec fn class_of(kind: Seq<char>, side: Seq<char>) -> ActivityClass {
    if kind == "TRADE"@ {
        if side == "BUY"@ {
            ActivityClass::Buy
        } else if side == "SELL"@ {
            ActivityClass::Sell
        } else {
            ActivityClass::UnknownSide
        }
    } else if kind == "REDEEM"@ {
        ActivityClass::Redeem
    } else if kind == "CONVERSION"@ {
        ActivityClass::Conversion
    } else if kind == "MERGE"@ {
        ActivityClass::Merge
    } else if kind == "REWARD"@ {
        ActivityClass::Reward
    } else {
        ActivityClass::Ignored
    }
}

/// The class of an activity.
pub fn classify(kind: &str, side: &str) -> (r: ActivityClass)
    ensures
        r == class_of(kind@, side@),
{
    if str_eq(kind, "TRADE") {
        if str_eq(side, "BUY") {
            ActivityClass::Buy
        } else if str_eq(side, "SELL") {
            ActivityClass::Sell
        } else {
            ActivityClass::UnknownSide
        }
    } else if str_eq(kind, "REDEEM") {
        ActivityClass::Redeem
    } else if str_eq(kind, "CONVERSION") {
        ActivityClass::Conversion
    } else if str_eq(kind, "MERGE") {
        ActivityClass::Merge
    } else if str_eq(kind, "REWARD") {
        ActivityClass::Reward
    } else {
        ActivityClass::Ignored
    }
}

/// The instant an RFC 3339 text names, as seconds since the epoch and
/// nanoseconds, where chrono's `DateTime::parse_from_rfc3339` reads it.
pub uninterp spec fn rfc3339_instant(text: Seq<char>) -> Option<(i64, u32)>;

/// Reads an RFC 3339 date and time with `chrono::DateTime::parse_from_rfc3339`
/// and gives its UTC instant as `timestamp()` and `timestamp_subsec_nanos()`,
/// or `None` where chrono refuses the text. The result is named by
/// `rfc3339_instant`.
#[verifier::external_body]
pub(crate) fn parse_rfc3339(text: &str) -> (r: Option<Instant>)
    ensures
        match r {
            Some(i) => rfc3339_instant(text@) == Some((i.secs, i.nanos)),
            None => rfc3339_instant(text@) is None,
        },
{
    match chrono::DateTime::parse_from_rfc3339(text) {
        Ok(dt) => {
            let u = dt.with_timezone(&chrono::Utc);
            Some(Instant { secs: u.timestamp(), nanos: u.timestamp_subsec_nanos() })
        },
        Err(_) => None,
    }
}

/// The instant of a timestamp field: whole seconds that can be represented,
/// or an RFC 3339 text.
pub open spec fn instant_of(t: ActivityTime) -> Option<Instant> {
    match t {
        ActivityTime::Seconds(s) => if utc_seconds_valid(s) {
            Some(Instant { secs: s, nanos: 0 })
        } else {
            None
        },
        ActivityTime::Text(s) => match rfc3339_instant(s@) {
            Some((secs, nanos)) => Some(Instant { secs, nanos }),
            None => None,
        },
        ActivityTime::Missing => None,
    }
}

/// The instant of a timestamp field.
pub fn activity_instant(t: &ActivityTime) -> (r: Option<Instant>)
    ensures
        r == instant_of(*t),
{
    match t {
        ActivityTime::Seconds(s) => if seconds_representable(*s) {
            Some(Instant { secs: *s, nanos: 0 })
        } else {
            None
        },
        ActivityTime::Text(s) => parse_rfc3339(s.as_str()),
        ActivityTime::Missing => None,
    }
}

/// Instant `a` is strictly before instant `b`.
pub open spec fn before(a: Instant, b: Instant) -> bool {
    a.secs < b.secs || (a.secs == b.secs && a.nanos < b.nanos)
}

/// The class of the `i`-th activity.
pub open spec fn item_class(items: Seq<ActivityItem>, i: int) -> ActivityClass {
    class_of(items[i].kind@, items[i].side@)
}

/// How many of the activities are of class `c`.
pub open spec fn count_class(items: Seq<ActivityItem>, c: ActivityClass) -> nat
    decreases items.len(),
{
    if items.len() == 0 {
        0
    } else {
        count_class(items.drop_last(), c) + if item_class(items, items.len() - 1) == c {
            1nat
        } else {
            0nat
        }
    }
}

/// The latest instant among the activities that are not skipped.
pub open spec fn latest_instant(items: Seq<ActivityItem>) -> Option<Instant>
    decreases items.len(),
{
    if items.len() == 0 {
        None
    } else {
        let prev = latest_instant(items.drop_last());
        let last = items.last();
        if class_of(last.kind@, last.side@) != ActivityClass::Ignored {
            match instant_of(last.time) {
                Some(t) => if prev is None || before(prev->0, t) {
                    Some(t)
                } else {
                    prev
                },
                None => prev,
            }
        } else {
            prev
        }
    }
}

/// The counts of an activity history.
#[derive(Debug, Clone, Copy, PartialEq, Eq, Structural)]
pub struct ActivityTally {
    pub buy_count: usize,
    pub sell_count: usize,
    pub redeem_count: usize,
    pub conversion_count: usize,
    pub merge_count: usize,
    pub reward_count: usize,
    /// All counted activities.
    pub total: usize,
    /// The activities that leave a position: sells, redemptions,
    /// conversions and merges (rewards are not).
    pub exits: usize,
    /// The latest instant of a counted activity or a trade of unknown side.
    pub last_trade: Option<Instant>,
}

/// The tally agrees with the activities.
pub open spec fn tallies(r: ActivityTally, items: Seq<ActivityItem>) -> bool {
    &&& r.buy_count == count_class(items, ActivityClass::Buy)
    &&& r.sell_count == count_class(items, ActivityClass::Sell)
    &&& r.redeem_count == count_class(items, ActivityClass::Redeem)
    &&& r.conversion_count == count_class(items, ActivityClass::Conversion)
    &&& r.merge_count == count_class(items, ActivityClass::Merge)
    &&& r.reward_count == count_class(items, ActivityClass::Reward)
    &&& r.total == r.buy_count + r.sell_count + r.redeem_count + r.conversion_count + r.merge_count
        + r.reward_count
    &&& r.exits == r.sell_count + r.redeem_count + r.conversion_count + r.merge_count
    &&& r.last_trade == latest_instant(items)
}

/// Counts the activities of each kind and finds the latest of them.
pub fn tally_activities(items: &Vec<ActivityItem>) -> (r: ActivityTally)
    ensures
        tallies(r, items@),
{
    let mut t = ActivityTally {
        buy_count: 0,
        sell_count: 0,
        redeem_count: 0,
        conversion_count: 0,
        merge_count: 0,
        reward_count: 0,
        total: 0,
        exits: 0,
        last_trade: None,
    };
    let mut i: usize = 0;
    proof {
        assert(items@.take(0) =~= Seq::<ActivityItem>::empty());
    }
    while i < items.len()
        invariant
            i <= items.len(),
            tallies(t, items@.take(i as int)),
            t.total <= i,
        decreases items.len() - i,
    {
        let item = &items[i];
        let c = classify(item.kind.as_str(), item.side.as_str());
        proof {
            let s = items@.take(i + 1);
            assert(s.drop_last() =~= items@.take(i as int));
            assert(s.last() == items@[i as int]);
            assert(item_class(s, s.len() - 1) == c);
        }
        match c {
            ActivityClass::Buy => {
                t.buy_count = t.buy_count + 1;
                t.total = t.total + 1;
            },
            ActivityClass::Sell => {
                t.sell_count = t.sell_count + 1;
                t.total = t.total + 1;
                t.exits = t.exits + 1;
            },
            ActivityClass::Redeem => {
                t.redeem_count = t.redeem_count + 1;
                t.total = t.total + 1;
                t.exits = t.exits + 1;
            },
            ActivityClass::Conversion => {
                t.conversion_count = t.conversion_count + 1;
                t.total = t.total + 1;
                t.exits = t.exits + 1;
            },
            ActivityClass::Merge => {
                t.merge_count = t.merge_count + 1;
                t.total = t.total + 1;
                t.exits = t.exits + 1;
            },
            ActivityClass::Reward => {
                t.reward_count = t.reward_count + 1;
                t.total = t.total + 1;
            },
            _ => {},
        }
        if c != ActivityClass::Ignored {
            match activity_instant(&item.time) {
                Some(at) => {
                    let later = match t.last_trade {
                        None => true,
                        Some(p) => p.secs < at.secs || (p.secs == at.secs && p.nanos < at.nanos),
                    };
                    if later {
                        t.last_trade = Some(at);
                    }
                },
                None => {},
            }
        }
        i = i + 1;
    }
    proof {
        assert(items@.take(i as int) =~= items@);
    }
    t
}

proof fn lemma_latest_instant_bounds(items: Seq<ActivityItem>)
    ensures
        forall|i: int|
            0 <= i < items.len() && (items[i].kind@ == "TRADE"@ || items[i].kind@ == "REDEEM"@
                || items[i].kind@ == "CONVERSION"@ || items[i].kind@ == "MERGE"@ || items[i].kind@
                == "REWARD"@) && #[trigger] instant_of(items[i].time) is Some ==> {
                let t = instant_of(items[i].time)->0;
                latest_instant(items) matches Some(l) && (t.secs < l.secs || (t.secs == l.secs
                    && t.nanos <= l.nanos))
            },
        latest_instant(items) matches Some(l) ==> exists|i: int|
            0 <= i < items.len() && (items[i].kind@ == "TRADE"@ || items[i].kind@ == "REDEEM"@
                || items[i].kind@ == "CONVERSION"@ || items[i].kind@ == "MERGE"@ || items[i].kind@
                == "REWARD"@) && #[trigger] instant_of(items[i].time) == Some(l),
    decreases items.len(),
{
    if items.len() > 0 {
        let d = items.drop_last();
        lemma_latest_instant_bounds(d);
        let n = items.len() - 1;
        assert forall|i: int|
            0 <= i < items.len() && (items[i].kind@ == "TRADE"@ || items[i].kind@ == "REDEEM"@
                || items[i].kind@ == "CONVERSION"@ || items[i].kind@ == "MERGE"@ || items[i].kind@
                == "REWARD"@) && #[trigger] instant_of(items[i].time) is Some implies {
            let t = instant_of(items[i].time)->0;
            latest_instant(items) matches Some(l) && (t.secs < l.secs || (t.secs == l.secs
                && t.nanos <= l.nanos))
        } by {
            if i < n {
                assert(items[i] == d[i]);
                assert(instant_of(d[i].time) is Some);
            }
        }
        if latest_instant(items) is Some {
            let l = latest_instant(items)->0;
            if latest_instant(items) == latest_instant(d) {
                let i = choose|i: int|
                    0 <= i < d.len() && (d[i].kind@ == "TRADE"@ || d[i].kind@ == "REDEEM"@
                        || d[i].kind@ == "CONVERSION"@ || d[i].kind@ == "MERGE"@ || d[i].kind@
                        == "REWARD"@) && #[trigger] instant_of(d[i].time) == Some(l);
                assert(items[i] == d[i]);
            } else {
                assert(instant_of(items[n].time) == Some(l));
            }
        }
    }
}

/// The last trade time of a tally is the latest readable time among the
/// activities of type `TRADE`, `REDEEM`, `CONVERSION`, `MERGE` or `REWARD`:
/// no such activity is later, it is the time of one of them, and there is
/// none exactly when no such activity has a readable time.
pub proof fn lemma_last_trade_is_latest(r: ActivityTally, items: Seq<ActivityItem>)
    requires
        tallies(r, items),
    ensures
        forall|i: int|
            0 <= i < items.len() && (items[i].kind@ == "TRADE"@ || items[i].kind@ == "REDEEM"@
                || items[i].kind@ == "CONVERSION"@ || items[i].kind@ == "MERGE"@ || items[i].kind@
                == "REWARD"@) && #[trigger] instant_of(items[i].time) is Some ==> {
                let t = instant_of(items[i].time)->0;
                r.last_trade matches Some(l) && (t.secs < l.secs || (t.secs == l.secs && t.nanos
                    <= l.nanos))
            },
        r.last_trade matches Some(l) ==> exists|i: int|
            0 <= i < items.len() && (items[i].kind@ == "TRADE"@ || items[i].kind@ == "REDEEM"@
                || items[i].kind@ == "CONVERSION"@ || items[i].kind@ == "MERGE"@ || items[i].kind@
                == "REWARD"@) && #[trigger] instant_of(items[i].time) == Some(l),
{
    lemma_latest_instant_bounds(items);
}

proof fn lemma_count_is_filter(items: Seq<ActivityItem>, c: ActivityClass, p: spec_fn(ActivityItem) -> bool)
    requires
        forall|it: ActivityItem| #[trigger] p(it) == (class_of(it.kind@, it.side@) == c),
    ensures
        count_class(items, c) == items.filter(p).len(),
    decreases items.len(),
{
    reveal(Seq::filter);
    if items.len() > 0 {
        lemma_count_is_filter(items.drop_last(), c, p);
        assert(p(items.last()) == (item_class(items, items.len() - 1) == c));
    }
}

/// The counts of a tally: buys are the activities of type `TRADE` with side
/// `BUY`, sells those with side `SELL`, and redemptions, conversions, merges
/// and rewards the activities of type `REDEEM`, `CONVERSION`, `MERGE` and
/// `REWARD`; the total counts all of these, and the exits the sells,
/// redemptions, conversions and merges.
pub proof fn lemma_tally_counts(r: ActivityTally, items: Seq<ActivityItem>)
    requires
        tallies(r, items),
    ensures
        r.buy_count == items.filter(|it: ActivityItem| it.kind@ == "TRADE"@ && it.side@ == "BUY"@).len(),
        r.sell_count == items.filter(|it: ActivityItem| it.kind@ == "TRADE"@ && it.side@ == "SELL"@).len(),
        r.redeem_count == items.filter(|it: ActivityItem| it.kind@ == "REDEEM"@).len(),
        r.conversion_count == items.filter(|it: ActivityItem| it.kind@ == "CONVERSION"@).len(),
        r.merge_count == items.filter(|it: ActivityItem| it.kind@ == "MERGE"@).len(),
        r.reward_count == items.filter(|it: ActivityItem| it.kind@ == "REWARD"@).len(),
        r.total == r.buy_count + r.sell_count + r.redeem_count + r.conversion_count + r.merge_count
            + r.reward_count,
        r.exits == r.sell_count + r.redeem_count + r.conversion_count + r.merge_count,
{
    reveal_strlit("TRADE");
    reveal_strlit("BUY");
    reveal_strlit("SELL");
    reveal_strlit("REDEEM");
    reveal_strlit("CONVERSION");
    reveal_strlit("MERGE");
    reveal_strlit("REWARD");
    assert("TRADE"@ != "REDEEM"@) by {
        assert("TRADE"@.len() != "REDEEM"@.len());
    }
    assert("TRADE"@ != "CONVERSION"@) by {
        assert("TRADE"@.len() != "CONVERSION"@.len());
    }
    assert("TRADE"@ != "MERGE"@) by {
        assert("TRADE"@[0] != "MERGE"@[0]);
    }
    assert("TRADE"@ != "REWARD"@) by {
        assert("TRADE"@.len() != "REWARD"@.len());
    }
    assert("REDEEM"@ != "CONVERSION"@) by {
        assert("REDEEM"@.len() != "CONVERSION"@.len());
    }
    assert("REDEEM"@ != "MERGE"@) by {
        assert("REDEEM"@.len() != "MERGE"@.len());
    }
    assert("REDEEM"@ != "REWARD"@) by {
        assert("REDEEM"@[2] != "REWARD"@[2]);
    }
    assert("CONVERSION"@ != "MERGE"@) by {
        assert("CONVERSION"@.len() != "MERGE"@.len());
    }
    assert("CONVERSION"@ != "REWARD"@) by {
        assert("CONVERSION"@.len() != "REWARD"@.len());
    }
    assert("MERGE"@ != "REWARD"@) by {
        assert("MERGE"@.len() != "REWARD"@.len());
    }
    assert("BUY"@ != "SELL"@) by {
        assert("BUY"@.len() != "SELL"@.len());
    }
    lemma_count_is_filter(
        items,
        ActivityClass::Buy,
        |it: ActivityItem| it.kind@ == "TRADE"@ && it.side@ == "BUY"@,
    );
    lemma_count_is_filter(
        items,
        ActivityClass::Sell,
        |it: ActivityItem| it.kind@ == "TRADE"@ && it.side@ == "SELL"@,
    );
    lemma_count_is_filter(items, ActivityClass::Redeem, |it: ActivityItem| it.kind@ == "REDEEM"@);
    lemma_count_is_filter(
        items,
        ActivityClass::Conversion,
        |it: ActivityItem| it.kind@ == "CONVERSION"@,
    );
    lemma_count_is_filter(items, ActivityClass::Merge, |it: ActivityItem| it.kind@ == "MERGE"@);
    lemma_count_is_filter(items, ActivityClass::Reward, |it: ActivityItem| it.kind@ == "REWARD"@);
}

} // verus!
