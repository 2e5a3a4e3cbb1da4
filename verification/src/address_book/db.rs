//! The layout of the store of immutable historical data: one directory per
//! address, with batches of activities and positions and the sync state.

use vstd::prelude::*;
use crate::cli::commands::run_strategy::{insert_sorted_unique, strictly_sorted};
use crate::address_book::sync::{utc_seconds_valid, seconds_representable};
use crate::address_book::types::opt_view;
use crate::paths::{join, joined};
use crate::address_book::order::{lemma_seq_le_antisym, pow10, seq_le};
use crate::text::{
    all_digits, decimal, digits_value, ends_with, is_prefix, is_suffix, lemma_decimal_digits,
    lowercase, starts_with, strings_view, to_lowercase, u64_zero_padded, zero_padded,
};

verus! {

/// Database for storing immutable historical data.
#[derive(Debug)]
pub struct HistoricalDatabase {
    root_path: String,
}

impl View for HistoricalDatabase {
    type V = Seq<char>;

    /// The root directory of the store.
    closed spec fn view(&self) -> Seq<char> {
        self.root_path@
    }
}

/// The name of batch file `batch_id`: `batch_` and the id in six digits.
pub open spec fn batch_file_name(batch_id: usize) -> Seq<char> {
    "batch_"@ + zero_padded(batch_id as nat, 6) + ".json"@
}

/// A directory entry is a stored batch: `batch_*.json`.
pub open spec fn is_batch_file(name: Seq<char>) -> bool {
    is_prefix("batch_"@, name) && is_suffix(".json"@, name)
}

/// A directory entry has the extension `json` (`Path::extension`): it ends
/// in `.json` with something before the dot.
pub open spec fn has_json_extension(name: Seq<char>) -> bool {
    is_suffix(".json"@, name) && name.len() > 5
}

impl HistoricalDatabase {
    /// The store under the data directory: `historical_db`.
    pub fn new(data_root: &str) -> (r: Self)
        ensures
            r@ == joined(data_root@, "historical_db"@),
    {
        HistoricalDatabase { root_path: join(data_root, "historical_db") }
    }

    /// The directory of an address: its lower-cased form under the root.
    pub fn get_address_path(&self, address: &str) -> (r: String)
        ensures
            r@ == joined(self@, lowercase(address@)),
    {
        let low = to_lowercase(address);
        join(self.root_path.as_str(), low.as_str())
    }

    /// The directory of an address's activity batches.
    pub fn activities_dir(&self, address: &str) -> (r: String)
        ensures
            r@ == joined(joined(self@, lowercase(address@)), "activities"@),
    {
        let a = self.get_address_path(address);
        join(a.as_str(), "activities")
    }

    /// The directory of an address's position batches.
    pub fn positions_dir(&self, address: &str) -> (r: String)
        ensures
            r@ == joined(joined(self@, lowercase(address@)), "positions"@),
    {
        let a = self.get_address_path(address);
        join(a.as_str(), "positions")
    }

    /// The file of an address's sync state.
    pub fn sync_state_file(&self, address: &str) -> (r: String)
        ensures
            r@ == joined(joined(joined(self@, lowercase(address@)), "state"@), "sync_state.json"@),
    {
        let a = self.get_address_path(address);
        let s = join(a.as_str(), "state");
        join(s.as_str(), "sync_state.json")
    }
}

/// The file name of a batch.
pub fn batch_file(batch_id: usize) -> (r: String)
    ensures
        r@ == batch_file_name(batch_id),
{
    let mut r = String::from_str("batch_");
    let d = u64_zero_padded(batch_id as u64, 6);
    r.append(d.as_str());
    r.append(".json");
    r
}

/// The batch files among the entries of a directory, in name order, which
/// is the order they are read back in.
pub fn stored_batch_files(names: &Vec<String>) -> (r: Vec<String>)
    ensures
        strictly_sorted(strings_view(r@)),
        forall|t: Seq<char>|
            strings_view(r@).contains(t) <==> (strings_view(names@).contains(t) && is_batch_file(
                t,
            )),
{
    let ghost ns = strings_view(names@);
    let mut r: Vec<String> = Vec::new();
    let mut i: usize = 0;
    while i < names.len()
        invariant
            i <= names.len(),
            ns == strings_view(names@),
            strictly_sorted(strings_view(r@)),
            forall|t: Seq<char>|
                #![trigger strings_view(r@).contains(t)]
                #![trigger ns.take(i as int).contains(t)]
                strings_view(r@).contains(t) <==> (ns.take(i as int).contains(t) && is_batch_file(
                    t,
                )),
        decreases names.len() - i,
    {
        let name = names[i].as_str();
        proof {
            assert(ns[i as int] == name@);
            assert forall|t: Seq<char>|
                ns.take(i + 1).contains(t) <==> (ns.take(i as int).contains(t) || t == ns[i as int]) by {
                if ns.take(i + 1).contains(t) {
                    let k = choose|k: int| 0 <= k < ns.take(i + 1).len() && #[trigger] ns.take(i + 1)[k] == t;
                    if k < i {
                        assert(ns.take(i as int)[k] == t);
                    }
                }
                if ns.take(i as int).contains(t) {
                    let k = choose|k: int| 0 <= k < ns.take(i as int).len() && #[trigger] ns.take(i as int)[k] == t;
                    assert(ns.take(i + 1)[k] == t);
                }
                if t == ns[i as int] {
                    assert(ns.take(i + 1)[i as int] == t);
                }
            }
        }
        let ghost r0 = strings_view(r@);
        let keep = starts_with(name, "batch_") && ends_with(name, ".json");
        if keep {
            insert_sorted_unique(&mut r, names[i].clone());
        }
        proof {
            assert(keep == is_batch_file(ns[i as int]));
            assert forall|t: Seq<char>|
                strings_view(r@).contains(t) <==> (ns.take(i + 1).contains(t) && is_batch_file(
                    t,
                )) by {
                assert(r0.contains(t) <==> (ns.take(i as int).contains(t) && is_batch_file(t)));
                assert(ns.take(i + 1).contains(t) <==> (ns.take(i as int).contains(t) || t == ns[i as int]));
                if keep {
                    assert(strings_view(r@).contains(t) <==> (r0.contains(t) || t == ns[i as int]));
                } else {
                    assert(strings_view(r@) == r0);
                }
            }
        }
        i = i + 1;
    }
    proof {
        assert(ns.take(i as int) =~= ns);
    }
    r
}

proof fn lemma_digits_value_concat(a: Seq<char>, b: Seq<char>)
    ensures
        digits_value(a + b) == digits_value(a) * pow10(b.len()) + digits_value(b),
    decreases b.len(),
{
    if b.len() == 0 {
        assert(a + b =~= a);
    } else {
        let d = b.drop_last();
        lemma_digits_value_concat(a, d);
        assert((a + b).drop_last() =~= a + d);
        assert((a + b).last() == b.last());
        let p = pow10(d.len());
        assert(pow10(b.len()) == 10 * p);
        let x = digits_value(a);
        let y = digits_value(d);
        assert((x * p + y) * 10 == x * (10 * p) + y * 10) by (nonlinear_arith);
    }
}

proof fn lemma_digits_value_bound(s: Seq<char>)
    requires
        all_digits(s),
    ensures
        0 <= digits_value(s) < pow10(s.len()),
    decreases s.len(),
{
    if s.len() > 0 {
        let d = s.drop_last();
        assert(all_digits(d));
        lemma_digits_value_bound(d);
        assert('0' <= s.last() <= '9');
        let c = (s.last() as u32) - ('0' as u32);
        assert(0 <= c <= 9);
        let x = digits_value(d);
        let p = pow10(d.len());
        assert(x * 10 + c < 10 * p) by (nonlinear_arith)
            requires
                0 <= x < p,
                0 <= c <= 9,
        ;
    }
}

proof fn lemma_zeros_value(n: nat)
    ensures
        digits_value(Seq::new(n, |i: int| '0')) == 0,
        all_digits(Seq::new(n, |i: int| '0')),
    decreases n,
{
    if n > 0 {
        lemma_zeros_value((n - 1) as nat);
        assert(Seq::new(n, |i: int| '0').drop_last() =~= Seq::new((n - 1) as nat, |i: int| '0'));
    }
}

proof fn lemma_decimal_len(n: nat, k: nat)
    requires
        k >= 1,
        n < pow10(k),
    ensures
        decimal(n).len() <= k,
    decreases n,
{
    if n >= 10 {
        assert(k >= 2) by {
            if k == 1 {
                assert(pow10(1) == 10) by {
                    reveal_with_fuel(pow10, 2);
                }
            }
        }
        assert(pow10(k) == 10 * pow10((k - 1) as nat));
        lemma_decimal_len(n / 10, (k - 1) as nat);
    }
}

proof fn lemma_six_digits(n: nat)
    requires
        n < 1_000_000,
    ensures
        zero_padded(n, 6).len() == 6,
        all_digits(zero_padded(n, 6)),
        digits_value(zero_padded(n, 6)) == n,
{
    assert(pow10(6) == 1_000_000) by {
        reveal_with_fuel(pow10, 7);
    }
    lemma_decimal_len(n, 6);
    lemma_decimal_digits(n);
    let d = decimal(n);
    if d.len() < 6 {
        let z = Seq::new((6 - d.len()) as nat, |i: int| '0');
        lemma_zeros_value((6 - d.len()) as nat);
        lemma_digits_value_concat(z, d);
        assert forall|i: int| 0 <= i < (z + d).len() implies '0' <= #[trigger] (z + d)[i] <= '9' by {
            if i >= z.len() {
                assert((z + d)[i] == d[i - z.len()]);
            }
        }
    }
}

proof fn lemma_digits_order(s: Seq<char>, t: Seq<char>, u: Seq<char>, w: Seq<char>)
    requires
        all_digits(s),
        all_digits(t),
        s.len() == t.len(),
        digits_value(s) < digits_value(t),
    ensures
        seq_le(s + u, t + w),
        s != t,
    decreases s.len(),
{
    if s.len() == 0 {
        assert(false);
    }
    let n = s.len();
    let rs = s.drop_first();
    let rt = t.drop_first();
    assert(s =~= seq![s[0]] + rs);
    assert(t =~= seq![t[0]] + rt);
    assert(all_digits(rs));
    assert(all_digits(rt));
    lemma_digits_value_concat(seq![s[0]], rs);
    lemma_digits_value_concat(seq![t[0]], rt);
    assert(seq![s[0]].drop_last() =~= Seq::<char>::empty());
    assert(seq![t[0]].drop_last() =~= Seq::<char>::empty());
    assert(digits_value(Seq::<char>::empty()) == 0);
    assert(digits_value(seq![s[0]]) == (s[0] as u32) - ('0' as u32));
    assert(digits_value(seq![t[0]]) == (t[0] as u32) - ('0' as u32));
    lemma_digits_value_bound(rs);
    lemma_digits_value_bound(rt);
    assert('0' <= s[0] <= '9' && '0' <= t[0] <= '9');
    let a = (s[0] as u32) - ('0' as u32);
    let b = (t[0] as u32) - ('0' as u32);
    let p = pow10(rs.len());
    let x = digits_value(rs);
    let y = digits_value(rt);
    assert(digits_value(s) == a * p + x);
    assert(digits_value(t) == b * p + y);
    assert((s + u)[0] == s[0] && (t + w)[0] == t[0]);
    if a > b {
        assert(a * p + x >= b * p + y) by (nonlinear_arith)
            requires
                a >= b + 1,
                0 <= x,
                y < p,
                p >= 1,
        ;
    } else if a == b {
        assert(s[0] == t[0]);
        lemma_digits_order(rs, rt, u, w);
        assert((s + u).drop_first() =~= rs + u);
        assert((t + w).drop_first() =~= rt + w);
    } else {
        assert(s[0] != t[0]);
    }
}

proof fn lemma_seq_le_common_prefix(c: Seq<char>, x: Seq<char>, y: Seq<char>)
    requires
        seq_le(x, y),
    ensures
        seq_le(c + x, c + y),
    decreases c.len(),
{
    if c.len() > 0 {
        lemma_seq_le_common_prefix(c.drop_first(), x, y);
        assert((c + x).drop_first() =~= c.drop_first() + x);
        assert((c + y).drop_first() =~= c.drop_first() + y);
    }
}

/// Batch names follow batch ids: for ids below a million, which six digits
/// hold, a smaller id has a name that sorts first.
pub proof fn lemma_batch_names_follow_ids(a: usize, b: usize)
    requires
        a < b < 1_000_000,
    ensures
        seq_le(batch_file_name(a), batch_file_name(b)),
        batch_file_name(a) != batch_file_name(b),
{
    let za = zero_padded(a as nat, 6);
    let zb = zero_padded(b as nat, 6);
    lemma_six_digits(a as nat);
    lemma_six_digits(b as nat);
    lemma_digits_order(za, zb, ".json"@, ".json"@);
    lemma_seq_le_common_prefix("batch_"@, za + ".json"@, zb + ".json"@);
    assert(batch_file_name(a) =~= "batch_"@ + (za + ".json"@));
    assert(batch_file_name(b) =~= "batch_"@ + (zb + ".json"@));
    if batch_file_name(a) == batch_file_name(b) {
        let k = "batch_"@.len();
        assert forall|i: int| 0 <= i < 6 implies za[i] == zb[i] by {
            assert(batch_file_name(a)[k + i] == za[i]);
            assert(batch_file_name(b)[k + i] == zb[i]);
        }
        assert(za =~= zb);
    }
}

/// Batches are read back in increasing id order: in the name order of
/// `stored_batch_files`, the batch with ids below a million that comes
/// first has the smaller id.
pub proof fn lemma_stored_batches_in_id_order(
    v: Seq<Seq<char>>,
    x: int,
    y: int,
    a: usize,
    b: usize,
)
    requires
        strictly_sorted(v),
        0 <= x < y < v.len(),
        v[x] == batch_file_name(a),
        v[y] == batch_file_name(b),
        a < 1_000_000,
        b < 1_000_000,
    ensures
        a < b,
{
    assert(seq_le(v[x], v[y]) && v[x] != v[y]);
    if b < a {
        lemma_batch_names_follow_ids(b, a);
        lemma_seq_le_antisym(v[x], v[y]);
    }
}

/// The number of entries with the extension `json`.
pub open spec fn json_file_count(names: Seq<Seq<char>>) -> nat
    decreases names.len(),
{
    if names.len() == 0 {
        0
    } else {
        json_file_count(names.drop_last()) + (if has_json_extension(names.last()) {
            1nat
        } else {
            0nat
        })
    }
}

/// Counts the entries of a directory with the extension `json`.
pub fn count_json_files(names: &Vec<String>) -> (r: usize)
    ensures
        r == json_file_count(strings_view(names@)),
{
    let ghost ns = strings_view(names@);
    let mut n: usize = 0;
    let mut i: usize = 0;
    while i < names.len()
        invariant
            i <= names.len(),
            ns == strings_view(names@),
            n == json_file_count(ns.take(i as int)),
            n <= i,
        decreases names.len() - i,
    {
        proof {
            assert(ns.take(i + 1).drop_last() =~= ns.take(i as int));
            assert(ns[i as int] == names@[i as int]@);
        }
        let v = crate::text::chars_of(names[i].as_str());
        if ends_with(names[i].as_str(), ".json") && v.len() > 5 {
            n = n + 1;
        }
        i = i + 1;
    }
    proof {
        assert(ns.take(i as int) =~= ns);
    }
    n
}

/// The sync state of an address. Times are seconds since the Unix epoch.
#[derive(Debug)]
pub struct SyncState {
    pub address: String,
    pub last_activity_timestamp: Option<i64>,
    pub last_activity_id: Option<String>,
    pub total_activities_stored: usize,
    pub total_positions_stored: usize,
    pub last_sync_completed: Option<i64>,
    pub last_sync_started: i64,
    pub sync_in_progress: bool,
}

/// A summary of the stored data of an address. Times are seconds since the
/// Unix epoch.
#[derive(Debug, Clone, Copy, PartialEq, Eq, Structural)]
pub struct StoredDataSummary {
    pub total_activities: usize,
    pub total_positions: usize,
    pub _earliest_activity: Option<i64>,
    pub _latest_activity: Option<i64>,
    pub last_sync: Option<i64>,
}

/// The summary of what a sync state records: its totals, the latest activity
/// and the last completed sync; zeros and nothing without a state.
pub fn stored_summary(state: &Option<SyncState>) -> (r: StoredDataSummary)
    ensures
        r == (match state {
            Some(s) => StoredDataSummary {
                total_activities: s.total_activities_stored,
                total_positions: s.total_positions_stored,
                _earliest_activity: None,
                _latest_activity: s.last_activity_timestamp,
                last_sync: s.last_sync_completed,
            },
            None => StoredDataSummary {
                total_activities: 0,
                total_positions: 0,
                _earliest_activity: None,
                _latest_activity: None,
                last_sync: None,
            },
        }),
{
    match state {
        Some(s) => StoredDataSummary {
            total_activities: s.total_activities_stored,
            total_positions: s.total_positions_stored,
            _earliest_activity: None,
            _latest_activity: s.last_activity_timestamp,
            last_sync: s.last_sync_completed,
        },
        None => StoredDataSummary {
            total_activities: 0,
            total_positions: 0,
            _earliest_activity: None,
            _latest_activity: None,
            last_sync: None,
        },
    }
}

/// A sync of `address` starts at `now`: the stored state, or a fresh one
/// with nothing stored, marked in progress and started now.
pub fn begin_sync(existing: Option<SyncState>, address: String, now: i64) -> (r: SyncState)
    ensures
        r.sync_in_progress,
        r.last_sync_started == now,
        match existing {
            Some(s) => r.address@ == s.address@ && r.last_activity_timestamp == s.last_activity_timestamp
                && opt_view(r.last_activity_id) == opt_view(s.last_activity_id)
                && r.total_activities_stored == s.total_activities_stored && r.total_positions_stored
                == s.total_positions_stored && r.last_sync_completed == s.last_sync_completed,
            None => r.address@ == address@ && r.last_activity_timestamp is None && r.last_activity_id is None
                && r.total_activities_stored == 0 && r.total_positions_stored == 0
                && r.last_sync_completed is None,
        },
{
    let mut s = match existing {
        Some(s) => s,
        None => SyncState {
            address,
            last_activity_timestamp: None,
            last_activity_id: None,
            total_activities_stored: 0,
            total_positions_stored: 0,
            last_sync_completed: None,
            last_sync_started: now,
            sync_in_progress: true,
        },
    };
    s.sync_in_progress = true;
    s.last_sync_started = now;
    s
}

/// The latest of the timestamps (in seconds) that can be represented.
pub open spec fn latest_second(ts: Seq<Option<i64>>) -> Option<i64>
    decreases ts.len(),
{
    if ts.len() == 0 {
        None
    } else {
        let prev = latest_second(ts.drop_last());
        match ts.last() {
            Some(t) => if utc_seconds_valid(t) && (prev is None || prev->0 < t) {
                Some(t)
            } else {
                prev
            },
            None => prev,
        }
    }
}

/// The latest activity time among the integer timestamps of the stored
/// activities.
pub fn latest_activity_second(ts: &Vec<Option<i64>>) -> (r: Option<i64>)
    ensures
        r == latest_second(ts@),
{
    let mut best: Option<i64> = None;
    let mut i: usize = 0;
    while i < ts.len()
        invariant
            i <= ts.len(),
            best == latest_second(ts@.take(i as int)),
        decreases ts.len() - i,
    {
        proof {
            assert(ts@.take(i + 1).drop_last() =~= ts@.take(i as int));
        }
        match ts[i] {
            Some(t) => {
                if seconds_representable(t) {
                    let later = match best {
                        None => true,
                        Some(b) => b < t,
                    };
                    if later {
                        best = Some(t);
                    }
                }
            },
            None => {},
        }
        i = i + 1;
    }
    proof {
        assert(ts@.take(i as int) =~= ts@);
    }
    best
}

/// A sync completes at `now` with the given totals: no longer in progress,
/// completed now, and the latest activity time updated where one is known.
pub fn finish_sync(
    state: SyncState,
    activities: usize,
    positions: usize,
    latest_activity: Option<i64>,
    now: i64,
) -> (r: SyncState)
    ensures
        r.address@ == state.address@,
        opt_view(r.last_activity_id) == opt_view(state.last_activity_id),
        r.total_activities_stored == activities,
        r.total_positions_stored == positions,
        !r.sync_in_progress,
        r.last_sync_completed == Some(now),
        r.last_sync_started == state.last_sync_started,
        r.last_activity_timestamp == match latest_activity {
            Some(t) => Some(t),
            None => state.last_activity_timestamp,
        },
{
    let mut s = state;
    s.total_activities_stored = activities;
    s.total_positions_stored = positions;
    s.sync_in_progress = false;
    s.last_sync_completed = Some(now);
    if let Some(t) = latest_activity {
        s.last_activity_timestamp = Some(t);
    }
    s
}

} // verus!
