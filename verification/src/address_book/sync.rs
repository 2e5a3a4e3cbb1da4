//! Incremental sync of an address's history: the retry policy of each
//! request, and which fetched activities and positions are new and when the
//! paging stops.

use vstd::prelude::*;
use vstd::arithmetic::power2::pow2;
use crate::address_book::commands::contains_string;
use crate::text::strings_view;

verus! {

/// How a request to the data API ended.
#[derive(Debug, Clone, Copy, PartialEq, Eq, Structural)]
pub enum FetchOutcome {
    /// A success status and a body.
    Success,
    /// A success status, but the body could not be read.
    BodyError,
    /// Status 429.
    RateLimited,
    /// A 5xx status.
    ServerError,
    /// Any other status.
    OtherStatus,
    /// No response.
    NetworkError,
}

/// What to do after a request.
#[derive(Debug, Clone, Copy, PartialEq, Eq, Structural)]
pub enum RetryStep {
    /// Hand back the body.
    Done,
    /// Give up with the error.
    GiveUp,
    /// Try again: after a rate limit, first sleep the given milliseconds;
    /// then sleep the backoff.
    Retry { rate_limit_sleep_ms: Option<u64>, backoff_sleep_ms: u64 },
}

/// The retry state of one fetch: at most three retries, with a backoff that
/// starts at one second and doubles after each; a rate-limited answer first
/// waits twice the backoff, and counts against the limit like any other
/// failed attempt. So a fetch makes at most four requests.
#[derive(Debug, Clone, Copy, PartialEq, Eq, Structural)]
pub struct RetryPolicy {
    pub retry_count: u32,
    pub backoff_ms: u64,
}

/// The number of retries before giving up.
pub open spec fn max_retries() -> u32 {
    3
}

/// An outcome after which the request is tried again, within the limit.
pub open spec fn retryable(outcome: FetchOutcome) -> bool {
    outcome == FetchOutcome::BodyError || outcome == FetchOutcome::ServerError || outcome
        == FetchOutcome::NetworkError || outcome == FetchOutcome::RateLimited
}

impl RetryPolicy {
    /// No retry yet, one second of backoff.
    pub fn new() -> (r: Self)
        ensures
            r.retry_count == 0,
            r.backoff_ms == 1000,
            r.wf(),
    {
        proof {
            vstd::arithmetic::power2::lemma2_to64();
        }
        RetryPolicy { retry_count: 0, backoff_ms: 1000 }
    }

    /// At most three retries were made, and the backoff is one second
    /// doubled once per retry.
    pub open spec fn wf(&self) -> bool {
        self.retry_count <= max_retries() && self.backoff_ms == 1000 * pow2(self.retry_count as nat)
    }

    /// The step after a request ended with `outcome`: success ends it; an
    /// unexpected status ends it with an error; a body, server or network
    /// error or a rate limit ends it once three retries were made, and else
    /// retries: a rate limit first sleeps twice the backoff; then the backoff
    /// is slept and doubled, and the retry is counted.
    pub fn next(&mut self, outcome: FetchOutcome) -> (r: RetryStep)
        requires
            old(self).wf(),
        ensures
            final(self).wf(),
            outcome == FetchOutcome::Success ==> r == RetryStep::Done && *final(self) == *old(self),
            outcome == FetchOutcome::OtherStatus ==> r == RetryStep::GiveUp && *final(self) == *old(
                self,
            ),
            retryable(outcome) && old(self).retry_count >= max_retries() ==> r == RetryStep::GiveUp
                && *final(self) == *old(self),
            retryable(outcome) && old(self).retry_count < max_retries() ==> {
                &&& final(self).retry_count == old(self).retry_count + 1
                &&& final(self).backoff_ms == old(self).backoff_ms * 2
                &&& r == RetryStep::Retry {
                    rate_limit_sleep_ms: if outcome == FetchOutcome::RateLimited {
                        Some((old(self).backoff_ms * 2) as u64)
                    } else {
                        None
                    },
                    backoff_sleep_ms: old(self).backoff_ms,
                }
            },
            r is Retry ==> old(self).retry_count < max_retries(),
    {
        match outcome {
            FetchOutcome::Success => {
                return RetryStep::Done;
            },
            FetchOutcome::OtherStatus => {
                return RetryStep::GiveUp;
            },
            _ => {
                if self.retry_count >= 3 {
                    return RetryStep::GiveUp;
                }
            },
        }
        proof {
            vstd::arithmetic::power2::lemma_pow2_unfold((self.retry_count + 1) as nat);
            vstd::arithmetic::power2::lemma_pow2_strictly_increases(self.retry_count as nat, 3);
            vstd::arithmetic::power2::lemma2_to64();
        }
        let first: Option<u64> = match outcome {
            FetchOutcome::RateLimited => Some(self.backoff_ms * 2),
            _ => None,
        };
        let sleep = self.backoff_ms;
        self.retry_count = self.retry_count + 1;
        self.backoff_ms = self.backoff_ms * 2;
        RetryStep::Retry { rate_limit_sleep_ms: first, backoff_sleep_ms: sleep }
    }
}

/// An activity as far as the sync reads it: its transaction hash and its
/// timestamp in seconds, where it has them.
#[derive(Debug)]
pub struct ActivityRecord {
    pub tx_hash: Option<String>,
    pub timestamp: Option<i64>,
}

/// chrono can represent the instant `secs` seconds after the epoch: it lies
/// between the first second of the year -262143 and the last second of the
/// year 262142, the dates that `NaiveDate` accepts.
pub open spec fn utc_seconds_valid(secs: i64) -> bool {
    -8_334_601_228_800 <= secs && secs <= 8_210_266_876_799
}

/// Whether chrono can represent an instant: `DateTime::from_timestamp` with
/// no nanoseconds gives `Some` exactly when the day of `secs` falls within
/// the years `NaiveDate` accepts, -262143 to 262142, which is the range
/// `utc_seconds_valid` states.
#[verifier::external_body]
pub(crate) fn seconds_representable(secs: i64) -> (r: bool)
    ensures
        r == utc_seconds_valid(secs),
{
    chrono::DateTime::from_timestamp(secs, 0).is_some()
}

/// An activity is no newer than the last sync (given in microseconds) when
/// its timestamp can be represented and is not after it.
pub open spec fn not_newer(timestamp: Option<i64>, last_sync: Option<i64>) -> bool {
    match (last_sync, timestamp) {
        (Some(l), Some(t)) => utc_seconds_valid(t) && t * 1000000 <= l,
        _ => false,
    }
}

/// The state of a batch scan: the hashes seen, the positions of the new
/// activities, and whether an already known activity was met.
pub open spec fn activity_scan(
    seen: Set<Seq<char>>,
    batch: Seq<(Option<Seq<char>>, Option<i64>)>,
    last_sync: Option<i64>,
    n: int,
) -> (Set<Seq<char>>, Seq<int>, bool)
    decreases n,
{
    if n <= 0 {
        (seen, Seq::empty(), false)
    } else {
        let (s, new, old) = activity_scan(seen, batch, last_sync, n - 1);
        let (h, t) = batch[n - 1];
        match h {
            None => (s, new, old),
            Some(h) => if s.contains(h) || not_newer(t, last_sync) {
                (s, new, true)
            } else {
                (s.insert(h), new.push(n - 1), old)
            },
        }
    }
}

/// A batch scan keeps each hash once: the activities it keeps come in
/// batch order, each with a hash that was not seen before the scan and is
/// seen after it, no two with the same hash; and what was seen stays seen.
pub proof fn lemma_scan_keeps_unseen_once(
    seen: Set<Seq<char>>,
    batch: Seq<(Option<Seq<char>>, Option<i64>)>,
    last_sync: Option<i64>,
    n: int,
)
    requires
        0 <= n <= batch.len(),
    ensures
        ({
            let (s, new, _) = activity_scan(seen, batch, last_sync, n);
            &&& seen.subset_of(s)
            &&& forall|k: int|
                0 <= k < new.len() ==> 0 <= #[trigger] new[k] < n && (batch[new[k]].0 matches Some(h)
                    && !seen.contains(h) && s.contains(h))
            &&& forall|k1: int, k2: int|
                0 <= k1 < k2 < new.len() ==> #[trigger] new[k1] < #[trigger] new[k2] && batch[new[k1]].0
                    != batch[new[k2]].0
        }),
    decreases n,
{
    if n > 0 {
        lemma_scan_keeps_unseen_once(seen, batch, last_sync, n - 1);
        let (s0, new0, _) = activity_scan(seen, batch, last_sync, n - 1);
        let (s, new, _) = activity_scan(seen, batch, last_sync, n);
        let (h, t) = batch[n - 1];
        match h {
            None => {},
            Some(hh) => {
                if !(s0.contains(hh) || not_newer(t, last_sync)) {
                    assert(new == new0.push(n - 1));
                    assert(s == s0.insert(hh));
                    assert forall|k: int| 0 <= k < new.len() implies 0 <= #[trigger] new[k] < n
                        && (batch[new[k]].0 matches Some(g) && !seen.contains(g) && s.contains(g)) by {
                        if k < new0.len() {
                            assert(new[k] == new0[k]);
                        }
                    }
                    assert forall|k1: int, k2: int| 0 <= k1 < k2 < new.len() implies #[trigger] new[k1]
                        < #[trigger] new[k2] && batch[new[k1]].0 != batch[new[k2]].0 by {
                        assert(new[k1] == new0[k1]);
                        if k2 < new0.len() {
                            assert(new[k2] == new0[k2]);
                        } else {
                            assert(new[k2] == n - 1);
                            assert(batch[new0[k1]].0 matches Some(g) && s0.contains(g));
                        }
                    }
                }
            },
        }
    }
}

/// The values of a batch of activities.
pub open spec fn batch_view(b: Seq<ActivityRecord>) -> Seq<(Option<Seq<char>>, Option<i64>)> {
    b.map_values(
        |a: ActivityRecord| (crate::address_book::types::opt_view(a.tx_hash), a.timestamp),
    )
}

/// The outcome of one batch of the activity sync.
#[derive(Debug)]
pub struct BatchVerdict {
    /// The positions, in the batch, of the activities that are new.
    pub new_indices: Vec<usize>,
    /// Whether the sync stops after this batch.
    pub stop: bool,
}

/// The paging state of an activity sync: 500 activities per page.
#[derive(Debug)]
pub struct ActivitySync {
    pub seen: Vec<String>,
    pub last_sync: Option<i64>,
    pub offset: u64,
    pub batch_count: u64,
    pub new_total: u64,
}

/// The activity sync stops after a batch that is empty, that met a known
/// activity when there was an earlier sync, that was full of known ones,
/// or that found nothing new after five batches.
pub open spec fn activity_stop(
    batch_size: nat,
    new_in_batch: nat,
    found_old: bool,
    had_sync: bool,
    batch_count: nat,
) -> bool {
    batch_size == 0 || (found_old && had_sync) || (batch_size == 500 && new_in_batch == 0) || (
    new_in_batch == 0 && batch_count > 5)
}

impl ActivitySync {
    /// A sync that already knows the given hashes.
    pub fn new(known: Vec<String>, last_sync: Option<i64>) -> (r: Self)
        ensures
            strings_view(r.seen@) == strings_view(known@),
            r.last_sync == last_sync,
            r.offset == 0,
            r.batch_count == 0,
            r.new_total == 0,
    {
        ActivitySync { seen: known, last_sync, offset: 0, batch_count: 0, new_total: 0 }
    }

    /// Scans one fetched batch: an activity with a hash not seen before and
    /// newer than the last sync is new; one already seen, or not newer,
    /// marks that the sync has caught up; one without a hash is passed over.
    pub fn scan_batch(&mut self, batch: &Vec<ActivityRecord>) -> (r: BatchVerdict)
        requires
            old(self).batch_count < u64::MAX,
            old(self).offset + 500 <= u64::MAX,
            old(self).new_total + batch@.len() <= u64::MAX,
        ensures
            ({
                let (s, new, found_old) = activity_scan(
                    strings_view(old(self).seen@).to_set(),
                    batch_view(batch@),
                    old(self).last_sync,
                    batch@.len() as int,
                );
                &&& strings_view(final(self).seen@).to_set() == s
                &&& r.new_indices@.len() == new.len()
                &&& forall|k: int| 0 <= k < new.len() ==> r.new_indices@[k] == new[k]
                &&& final(self).batch_count == old(self).batch_count + 1
                &&& final(self).new_total == old(self).new_total + new.len()
                &&& r.stop == activity_stop(
                    batch@.len(),
                    new.len(),
                    found_old,
                    old(self).last_sync is Some,
                    final(self).batch_count as nat,
                )
                &&& final(self).offset == if batch@.len() == 0 || (found_old
                    && old(self).last_sync is Some) || (batch@.len() == 500 && new.len() == 0) {
                    old(self).offset as int
                } else {
                    old(self).offset + 500
                }
                &&& final(self).last_sync == old(self).last_sync
            }),
    {
        let ghost bv = batch_view(batch@);
        let ghost seen0 = strings_view(self.seen@).to_set();
        let mut new_indices: Vec<usize> = Vec::new();
        let mut found_old = false;
        let mut i: usize = 0;
        while i < batch.len()
            invariant
                i <= batch.len(),
                bv == batch_view(batch@),
                new_indices@.len() <= i,
                self.batch_count == old(self).batch_count,
                self.offset == old(self).offset,
                self.new_total == old(self).new_total,
                self.last_sync == old(self).last_sync,
                old(self).batch_count < u64::MAX,
                old(self).offset + 500 <= u64::MAX,
                old(self).new_total + batch@.len() <= u64::MAX,
                seen0 == strings_view(old(self).seen@).to_set(),
                ({
                    let (s, new, old) = activity_scan(seen0, bv, self.last_sync, i as int);
                    &&& strings_view(self.seen@).to_set() == s
                    &&& new_indices@.len() == new.len()
                    &&& forall|k: int| 0 <= k < new.len() ==> new_indices@[k] == new[k]
                    &&& found_old == old
                }),
            decreases batch.len() - i,
        {
            let a = &batch[i];
            proof {
                assert(bv[i as int] == (crate::address_book::types::opt_view(a.tx_hash), a.timestamp));
            }
            match &a.tx_hash {
                None => {},
                Some(h) => {
                    let known = contains_string(&self.seen, h.as_str());
                    let older = match (self.last_sync, a.timestamp) {
                        (Some(l), Some(t)) => seconds_representable(t) && (t as i128) * 1000000
                            <= (l as i128),
                        _ => false,
                    };
                    if known || older {
                        found_old = true;
                    } else {
                        let ghost s0 = self.seen@;
                        self.seen.push(h.clone());
                        proof {
                            assert(strings_view(self.seen@) =~= strings_view(s0).push(h@));
                            assert(strings_view(self.seen@).to_set() =~= strings_view(s0).to_set().insert(h@)) by {
                                broadcast use vstd::seq_lib::group_seq_properties;
                            }
                        }
                        new_indices.push(i);
                    }
                },
            }
            i = i + 1;
        }
        let n = new_indices.len();
        self.batch_count = self.batch_count + 1;
        self.new_total = self.new_total + (n as u64);
        let size = batch.len();
        let early = size == 0 || (found_old && self.last_sync.is_some()) || (size == 500 && n == 0);
        if !early {
            self.offset = self.offset + 500;
        }
        let stop = early || (n == 0 && self.batch_count > 5);
        BatchVerdict { new_indices, stop }
    }
}

/// The id of chunk `i` of the new activities stored after `existing` of
/// them, in chunks of 500: the number of full chunks already stored, plus `i`.
pub fn activity_batch_id(existing: usize, i: usize) -> (r: usize)
    requires
        existing / 500 + i <= usize::MAX,
    ensures
        r == existing / 500 + i,
{
    existing / 500 + i
}

/// A position as far as the sync reads it: its condition id and outcome.
#[derive(Debug)]
pub struct PositionRecord {
    pub condition_id: Option<String>,
    pub outcome: Option<String>,
}

/// The key of a position: its condition id and outcome joined by `:`.
pub open spec fn position_key(condition_id: Seq<char>, outcome: Seq<char>) -> Seq<char> {
    condition_id + ":"@ + outcome
}

/// The key of a position, where it has both parts.
pub fn position_key_of(p: &PositionRecord) -> (r: Option<String>)
    ensures
        match (p.condition_id, p.outcome) {
            (Some(c), Some(o)) => r matches Some(k) && k@ == position_key(c@, o@),
            _ => r is None,
        },
{
    match (&p.condition_id, &p.outcome) {
        (Some(c), Some(o)) => {
            let mut k = c.clone();
            k.append(":");
            k.append(o.as_str());
            Some(k)
        },
        _ => None,
    }
}

/// The position sync stops after an empty batch, or after a batch with
/// nothing new once more than ten batches were read.
pub open spec fn position_stop(batch_size: nat, new_in_batch: nat, batch_count: nat) -> bool {
    batch_size == 0 || (new_in_batch == 0 && batch_count > 10)
}

/// The keys seen and the positions of the new positions in a batch: a
/// position whose key was not seen is new; one without both key parts is
/// passed over.
pub open spec fn position_scan(seen: Set<Seq<char>>, keys: Seq<Option<Seq<char>>>, n: int) -> (
    Set<Seq<char>>,
    Seq<int>,
)
    decreases n,
{
    if n <= 0 {
        (seen, Seq::empty())
    } else {
        let (s, new) = position_scan(seen, keys, n - 1);
        match keys[n - 1] {
            Some(k) => if s.contains(k) {
                (s, new)
            } else {
                (s.insert(k), new.push(n - 1))
            },
            None => (s, new),
        }
    }
}

/// The keys of a batch of positions.
pub open spec fn position_keys(b: Seq<PositionRecord>) -> Seq<Option<Seq<char>>> {
    b.map_values(
        |p: PositionRecord| match (p.condition_id, p.outcome) {
            (Some(c), Some(o)) => Some(position_key(c@, o@)),
            _ => None,
        },
    )
}

/// Scans one batch of positions against the keys seen so far; returns the
/// positions, in the batch, of the new ones, and whether the sync stops
/// after this batch (`batch_count` counts this batch).
pub fn scan_positions(seen: &mut Vec<String>, batch: &Vec<PositionRecord>, batch_count: u64) -> (r:
    BatchVerdict)
    ensures
        ({
            let (s, new) = position_scan(
                strings_view(old(seen)@).to_set(),
                position_keys(batch@),
                batch@.len() as int,
            );
            &&& strings_view(final(seen)@).to_set() == s
            &&& r.new_indices@.len() == new.len()
            &&& forall|k: int| 0 <= k < new.len() ==> r.new_indices@[k] == new[k]
            &&& r.stop == position_stop(batch@.len(), new.len(), batch_count as nat)
        }),
{
    let ghost keys = position_keys(batch@);
    let ghost seen0 = strings_view(seen@).to_set();
    let mut new_indices: Vec<usize> = Vec::new();
    let mut i: usize = 0;
    while i < batch.len()
        invariant
            i <= batch.len(),
            keys == position_keys(batch@),
            new_indices@.len() <= i,
            ({
                let (s, new) = position_scan(seen0, keys, i as int);
                &&& strings_view(seen@).to_set() == s
                &&& new_indices@.len() == new.len()
                &&& forall|k: int| 0 <= k < new.len() ==> new_indices@[k] == new[k]
            }),
        decreases batch.len() - i,
    {
        let key = position_key_of(&batch[i]);
        proof {
            assert(keys[i as int] == match (batch@[i as int].condition_id, batch@[i as int].outcome) {
                (Some(c), Some(o)) => Some(position_key(c@, o@)),
                _ => None,
            });
        }
        match key {
            Some(k) => {
                if !contains_string(seen, k.as_str()) {
                    let ghost s0 = seen@;
                    let ghost kv = k@;
                    seen.push(k);
                    proof {
                        assert(strings_view(seen@) =~= strings_view(s0).push(kv));
                        assert(strings_view(seen@).to_set() =~= strings_view(s0).to_set().insert(kv)) by {
                            broadcast use vstd::seq_lib::group_seq_properties;
                        }
                    }
                    new_indices.push(i);
                }
            },
            None => {},
        }
        i = i + 1;
    }
    let stop = batch.len() == 0 || (new_indices.len() == 0 && batch_count > 10);
    BatchVerdict { new_indices, stop }
}

} // verus!
