//! Indexing market data: which storage the index command writes, which
//! chunk files it reads, which markets it keeps, and the tallies it reports.

use vstd::prelude::*;
use crate::address_book::types::{opt_view, str_eq};
use crate::cli::commands::run_strategy::strictly_sorted;
use crate::text::{
    ends_with, is_prefix, is_suffix, split_on, split_str, starts_with, strings_view, trim, trim_str,
};

verus! {

#[derive(Debug)]
pub struct IndexArgs {
    /// Database path (default: ./data/database)
    pub db_path: Option<String>,
    /// Use file-based storage instead of RocksDB
    pub use_file_store: bool,
    /// Use RocksDB storage (TypedDbContext with column families)
    pub rocksdb: bool,
    /// Directory containing market JSON chunks to index
    pub source_dir: Option<String>,
    /// Specific chunk files to index (comma-separated)
    pub chunk_files: Option<String>,
    /// Clear existing database before indexing
    pub clear: bool,
    /// Skip duplicate markets (based on market_id)
    pub skip_duplicates: bool,
    /// Batch size for RocksDB writes
    pub batch_size: usize,
    /// Show detailed progress information
    pub detailed: bool,
    /// Number of parallel threads for processing (0 = auto-detect)
    pub threads: usize,
}

pub struct IndexCommand {
    pub args: IndexArgs,
}

/// Where the index is written.
#[derive(Debug, Clone, Copy, PartialEq, Eq, Structural)]
pub enum IndexStorage {
    /// Column-family RocksDB, asked for with `--rocksdb`.
    RocksDb,
    /// File-based storage, the default.
    FileStore,
    /// The older RocksDB layout, when file storage is switched off.
    LegacyRocksDb,
}

impl IndexCommand {
    pub fn new(args: IndexArgs) -> (r: Self)
        ensures
            r.args == args,
    {
        IndexCommand { args }
    }

    /// Without a source, chunk files or clearing, the command opens its
    /// terminal interface.
    pub fn opens_interface(&self) -> (r: bool)
        ensures
            r == (self.args.source_dir is None && self.args.chunk_files is None
                && !self.args.clear),
    {
        self.args.source_dir.is_none() && self.args.chunk_files.is_none() && !self.args.clear
    }

    /// `--rocksdb` wins; else file storage unless switched off.
    pub fn storage(&self) -> (r: IndexStorage)
        ensures
            r == (if self.args.rocksdb {
                IndexStorage::RocksDb
            } else if self.args.use_file_store {
                IndexStorage::FileStore
            } else {
                IndexStorage::LegacyRocksDb
            }),
    {
        if self.args.rocksdb {
            IndexStorage::RocksDb
        } else if self.args.use_file_store {
            IndexStorage::FileStore
        } else {
            IndexStorage::LegacyRocksDb
        }
    }

    /// The RocksDB path: the one given, else `./data/database/rocksdb`.
    pub fn rocksdb_path(&self) -> (r: String)
        ensures
            r@ == match opt_view(self.args.db_path) {
                Some(p) => p,
                None => "./data/database/rocksdb"@,
            },
    {
        match &self.args.db_path {
            Some(p) => p.clone(),
            None => String::from_str("./data/database/rocksdb"),
        }
    }
}

/// The chunk files named in a comma-separated list, each trimmed.
pub fn requested_chunk_files(list: &str) -> (r: Vec<String>)
    ensures
        strings_view(r@) == split_on(list@, ',').map_values(|p: Seq<char>| trim(p)),
{
    let pieces = split_str(list, ',');
    let mut r: Vec<String> = Vec::new();
    let mut i: usize = 0;
    while i < pieces.len()
        invariant
            i <= pieces.len(),
            strings_view(pieces@) == split_on(list@, ','),
            strings_view(r@) == strings_view(pieces@).take(i as int).map_values(
                |p: Seq<char>| trim(p),
            ),
        decreases pieces.len() - i,
    {
        let t = trim_str(pieces[i].as_str());
        let ghost r0 = strings_view(r@);
        r.push(t);
        proof {
            assert(strings_view(r@) =~= r0.push(trim(strings_view(pieces@)[i as int])));
            assert(strings_view(pieces@).take(i + 1).map_values(|p: Seq<char>| trim(p))
                =~= strings_view(pieces@).take(i as int).map_values(|p: Seq<char>| trim(p)).push(
                trim(strings_view(pieces@)[i as int]),
            ));
        }
        i = i + 1;
    }
    proof {
        assert(strings_view(pieces@).take(i as int) =~= strings_view(pieces@));
    }
    r
}

/// A file name is a market chunk: `markets_chunk_*.json`.
pub open spec fn is_chunk_file(name: Seq<char>) -> bool {
    is_prefix("markets_chunk_"@, name) && is_suffix(".json"@, name)
}

/// The market chunk files among the names of a directory, in name order.
pub fn discovered_chunk_files(names: &Vec<String>) -> (r: Vec<String>)
    ensures
        strictly_sorted(strings_view(r@)),
        forall|t: Seq<char>|
            strings_view(r@).contains(t) <==> (strings_view(names@).contains(t) && is_chunk_file(
                t,
            )),
{
    let ghost ns = strings_view(names@);
    let mut r: Vec<String> = Vec::new();
    let mut i: usize = 0;
    while i < names.len()
        invariant
            i <= names.len(),
            ns == strings_view(names@),
            strictly_sorted(strings_view(r@)),
            forall|t: Seq<char>|
                #![trigger strings_view(r@).contains(t)]
                #![trigger ns.take(i as int).contains(t)]
                strings_view(r@).contains(t) <==> (ns.take(i as int).contains(t) && is_chunk_file(
                    t,
                )),
        decreases names.len() - i,
    {
        let name = names[i].as_str();
        proof {
            assert(ns[i as int] == name@);
            assert forall|t: Seq<char>|
                ns.take(i + 1).contains(t) <==> (ns.take(i as int).contains(t) || t == ns[i as int]) by {
                if ns.take(i + 1).contains(t) {
                    let k = choose|k: int| 0 <= k < ns.take(i + 1).len() && #[trigger] ns.take(i + 1)[k] == t;
                    if k < i {
                        assert(ns.take(i as int)[k] == t);
                    }
                }
                if ns.take(i as int).contains(t) {
                    let k = choose|k: int| 0 <= k < ns.take(i as int).len() && #[trigger] ns.take(i as int)[k] == t;
                    assert(ns.take(i + 1)[k] == t);
                }
                if t == ns[i as int] {
                    assert(ns.take(i + 1)[i as int] == t);
                }
            }
        }
        let ghost r0 = strings_view(r@);
        let keep = starts_with(name, "markets_chunk_") && ends_with(name, ".json");
        if keep {
            crate::cli::commands::run_strategy::insert_sorted_unique(&mut r, names[i].clone());
        }
        proof {
            assert(keep == is_chunk_file(ns[i as int]));
            assert forall|t: Seq<char>|
                strings_view(r@).contains(t) <==> (ns.take(i + 1).contains(t) && is_chunk_file(
                    t,
                )) by {
                assert(r0.contains(t) <==> (ns.take(i as int).contains(t) && is_chunk_file(t)));
                assert(ns.take(i + 1).contains(t) <==> (ns.take(i as int).contains(t) || t == ns[i as int]));
                if keep {
                    assert(strings_view(r@).contains(t) <==> (r0.contains(t) || t == ns[i as int]));
                } else {
                    assert(strings_view(r@) == r0);
                }
            }
        }
        i = i + 1;
    }
    proof {
        assert(ns.take(i as int) =~= ns);
    }
    r
}

/// The text is empty or all whitespace.
pub open spec fn is_blank(s: Seq<char>) -> bool {
    trim(s).len() == 0
}

/// The key under which a market is indexed and its condition: its id when
/// that is not blank, else `market_` and its condition id; a market without
/// a condition id that is not blank is passed over.
pub open spec fn market_key(id: Option<Seq<char>>, condition_id: Option<Seq<char>>) -> Option<
    (Seq<char>, Seq<char>),
> {
    match condition_id {
        Some(c) if !is_blank(c) => match id {
            Some(i) if !is_blank(i) => Some((i, c)),
            _ => Some(("market_"@ + c, c)),
        },
        _ => None,
    }
}

fn blank(s: &str) -> (r: bool)
    ensures
        r == is_blank(s@),
{
    let t = trim_str(s);
    t.as_str().is_empty()
}

/// The key and condition under which a market is indexed, if it is.
pub fn market_key_of(id: &Option<String>, condition_id: &Option<String>) -> (r: Option<
    (String, String),
>)
    ensures
        match r {
            Some((k, c)) => market_key(opt_view(*id), opt_view(*condition_id)) == Some((k@, c@)),
            None => market_key(opt_view(*id), opt_view(*condition_id)) is None,
        },
{
    let c = match condition_id {
        Some(c) => c,
        None => {
            return None;
        },
    };
    if blank(c.as_str()) {
        return None;
    }
    match id {
        Some(i) if !blank(i.as_str()) => Some((i.clone(), c.clone())),
        _ => {
            let mut k = String::from_str("market_");
            k.append(c.as_str());
            Some((k, c.clone()))
        },
    }
}

/// What became of one market of a chunk.
#[derive(Debug, Clone, Copy, PartialEq, Eq, Structural)]
pub enum MarketOutcome {
    /// Written to the index.
    Indexed,
    /// Already in the index and duplicates are skipped.
    Duplicate,
    /// Not a market that can be indexed.
    Skipped,
}

/// A market is indexed unless it has no key, or it is already stored and
/// duplicates are skipped.
pub fn market_outcome(has_key: bool, skip_duplicates: bool, already_stored: bool) -> (r:
    MarketOutcome)
    ensures
        r == (if !has_key {
            MarketOutcome::Skipped
        } else if skip_duplicates && already_stored {
            MarketOutcome::Duplicate
        } else {
            MarketOutcome::Indexed
        }),
{
    if !has_key {
        MarketOutcome::Skipped
    } else if skip_duplicates && already_stored {
        MarketOutcome::Duplicate
    } else {
        MarketOutcome::Indexed
    }
}

/// The counts of one chunk file.
#[derive(Debug, Clone, Copy, PartialEq, Eq, Structural)]
pub struct ChunkTally {
    pub markets_indexed: usize,
    pub duplicates_skipped: usize,
    pub markets_skipped: usize,
}

/// The number of outcomes of a kind.
pub open spec fn count_outcome(v: Seq<MarketOutcome>, o: MarketOutcome) -> nat
    decreases v.len(),
{
    if v.len() == 0 {
        0
    } else {
        count_outcome(v.drop_last(), o) + (if v.last() == o {
            1nat
        } else {
            0nat
        })
    }
}

proof fn lemma_counts_add_up(v: Seq<MarketOutcome>)
    ensures
        count_outcome(v, MarketOutcome::Indexed) + count_outcome(v, MarketOutcome::Duplicate)
            + count_outcome(v, MarketOutcome::Skipped) == v.len(),
    decreases v.len(),
{
    if v.len() > 0 {
        lemma_counts_add_up(v.drop_last());
    }
}

/// Tallies the outcomes of the markets of a chunk; every market is counted
/// once, under its outcome.
pub fn tally_chunk(outcomes: &Vec<MarketOutcome>) -> (r: ChunkTally)
    ensures
        r.markets_indexed == count_outcome(outcomes@, MarketOutcome::Indexed),
        r.duplicates_skipped == count_outcome(outcomes@, MarketOutcome::Duplicate),
        r.markets_skipped == count_outcome(outcomes@, MarketOutcome::Skipped),
        r.markets_indexed + r.duplicates_skipped + r.markets_skipped == outcomes@.len(),
{
    let mut t = ChunkTally { markets_indexed: 0, duplicates_skipped: 0, markets_skipped: 0 };
    let mut i: usize = 0;
    while i < outcomes.len()
        invariant
            i <= outcomes.len(),
            t.markets_indexed == count_outcome(outcomes@.take(i as int), MarketOutcome::Indexed),
            t.duplicates_skipped == count_outcome(
                outcomes@.take(i as int),
                MarketOutcome::Duplicate,
            ),
            t.markets_skipped == count_outcome(outcomes@.take(i as int), MarketOutcome::Skipped),
            t.markets_indexed + t.duplicates_skipped + t.markets_skipped == i,
        decreases outcomes.len() - i,
    {
        proof {
            assert(outcomes@.take(i + 1).drop_last() =~= outcomes@.take(i as int));
            lemma_counts_add_up(outcomes@.take(i as int));
        }
        match outcomes[i] {
            MarketOutcome::Indexed => t.markets_indexed = t.markets_indexed + 1,
            MarketOutcome::Duplicate => t.duplicates_skipped = t.duplicates_skipped + 1,
            MarketOutcome::Skipped => t.markets_skipped = t.markets_skipped + 1,
        }
        i = i + 1;
    }
    proof {
        assert(outcomes@.take(i as int) =~= outcomes@);
    }
    t
}

/// A condition and the number of indexed markets that name it.
#[derive(Debug, Clone)]
pub struct ConditionCount {
    pub condition_id: String,
    pub market_count: u64,
}

/// The conditions as pairs of id and market count.
pub open spec fn counts_view(v: Seq<ConditionCount>) -> Seq<(Seq<char>, u64)> {
    v.map_values(|c: ConditionCount| (c.condition_id@, c.market_count))
}

/// The tokens gathered under one condition, in the order they were met.
#[derive(Debug)]
pub struct TokenGroup<T> {
    pub condition_id: String,
    pub tokens: Vec<T>,
}

/// The token groups as pairs of condition id and tokens.
pub open spec fn groups_view<T>(v: Seq<TokenGroup<T>>) -> Seq<(Seq<char>, Seq<T>)> {
    v.map_values(|g: TokenGroup<T>| (g.condition_id@, g.tokens@))
}

/// No two pairs of `v` have the same key.
pub open spec fn keys_unique<V>(v: Seq<(Seq<char>, V)>) -> bool {
    forall|i: int, j: int| 0 <= i < j < v.len() ==> (#[trigger] v[i]).0 != (#[trigger] v[j]).0
}

/// The position of the pair of `v` whose key is `key`, where there is one.
pub open spec fn key_position<V>(v: Seq<(Seq<char>, V)>, key: Seq<char>) -> Option<int> {
    if exists|i: int| 0 <= i < v.len() && (#[trigger] v[i]).0 == key {
        Some(choose|i: int| 0 <= i < v.len() && (#[trigger] v[i]).0 == key)
    } else {
        None
    }
}

proof fn lemma_key_position_at<V>(v: Seq<(Seq<char>, V)>, key: Seq<char>, i: int)
    requires
        keys_unique(v),
        0 <= i < v.len(),
        v[i].0 == key,
    ensures
        key_position(v, key) == Some(i),
{
    let k = choose|k: int| 0 <= k < v.len() && (#[trigger] v[k]).0 == key;
    if k < i {
        assert(v[k].0 != v[i].0);
    } else if i < k {
        assert(v[i].0 != v[k].0);
    }
}

proof fn lemma_key_position_push<V>(v: Seq<(Seq<char>, V)>, key: Seq<char>, x: V)
    requires
        keys_unique(v),
        key_position(v, key) is None,
    ensures
        keys_unique(v.push((key, x))),
{
    let w = v.push((key, x));
    assert forall|i: int, j: int| 0 <= i < j < w.len() implies (#[trigger] w[i]).0 != (
    #[trigger] w[j]).0 by {
        if j == v.len() {
            assert(w[i] == v[i]);
            if v[i].0 == key {
                assert(exists|k: int| 0 <= k < v.len() && (#[trigger] v[k]).0 == key);
            }
        } else {
            assert(w[i] == v[i] && w[j] == v[j]);
        }
    }
}

fn condition_position(conditions: &Vec<ConditionCount>, key: &str) -> (r: Option<usize>)
    ensures
        match r {
            Some(i) => i < conditions.len() && counts_view(conditions@)[i as int].0 == key@,
            None => forall|i: int|
                0 <= i < conditions.len() ==> (#[trigger] counts_view(conditions@)[i]).0 != key@,
        },
{
    let mut i: usize = 0;
    while i < conditions.len()
        invariant
            i <= conditions.len(),
            forall|k: int| 0 <= k < i ==> (#[trigger] counts_view(conditions@)[k]).0 != key@,
        decreases conditions.len() - i,
    {
        if str_eq(conditions[i].condition_id.as_str(), key) {
            return Some(i);
        }
        i = i + 1;
    }
    None
}

/// Counts one more market under `condition_id`: a condition already listed
/// has its market count raised by one; any other is added at the end with
/// `initial`, the count it was extracted with.
pub fn count_condition(conditions: &mut Vec<ConditionCount>, condition_id: String, initial: u64)
    requires
        keys_unique(counts_view(old(conditions)@)),
        key_position(counts_view(old(conditions)@), condition_id@) matches Some(k) ==> counts_view(
            old(conditions)@,
        )[k].1 < u64::MAX,
    ensures
        keys_unique(counts_view(final(conditions)@)),
        match key_position(counts_view(old(conditions)@), condition_id@) {
            Some(k) => counts_view(final(conditions)@) == counts_view(old(conditions)@).update(
                k,
                (condition_id@, (counts_view(old(conditions)@)[k].1 + 1) as u64),
            ),
            None => counts_view(final(conditions)@) == counts_view(old(conditions)@).push(
                (condition_id@, initial),
            ),
        },
{
    let ghost before = counts_view(conditions@);
    let found = condition_position(conditions, condition_id.as_str());
    match found {
        Some(k) => {
            proof {
                assert(before[k as int].0 == condition_id@);
                lemma_key_position_at(before, condition_id@, k as int);
            }
            let c = conditions[k].market_count;
            conditions.set(k, ConditionCount { condition_id, market_count: c + 1 });
            proof {
                let after = counts_view(conditions@);
                assert(after =~= before.update(k as int, (after[k as int].0, (c + 1) as u64)));
                assert forall|a: int, b: int| 0 <= a < b < after.len() implies (#[trigger] after[a]).0
                    != (#[trigger] after[b]).0 by {
                    assert(before[a].0 != before[b].0);
                }
            }
        },
        None => {
            proof {
                assert(key_position(before, condition_id@) is None) by {
                    if exists|k: int| 0 <= k < before.len() && (#[trigger] before[k]).0 == condition_id@ {
                        let k = choose|k: int| 0 <= k < before.len() && (#[trigger] before[k]).0
                            == condition_id@;
                        assert(counts_view(conditions@)[k].0 != condition_id@);
                    }
                }
                lemma_key_position_push(before, condition_id@, initial);
            }
            conditions.push(ConditionCount { condition_id, market_count: initial });
            proof {
                assert(counts_view(conditions@) =~= before.push((condition_id@, initial)));
            }
        },
    }
}

fn group_position<T>(groups: &Vec<TokenGroup<T>>, key: &str) -> (r: Option<usize>)
    ensures
        match r {
            Some(i) => i < groups.len() && groups_view(groups@)[i as int].0 == key@,
            None => forall|i: int|
                0 <= i < groups.len() ==> (#[trigger] groups_view(groups@)[i]).0 != key@,
        },
{
    let mut i: usize = 0;
    while i < groups.len()
        invariant
            i <= groups.len(),
            forall|k: int| 0 <= k < i ==> (#[trigger] groups_view(groups@)[k]).0 != key@,
        decreases groups.len() - i,
    {
        if str_eq(groups[i].condition_id.as_str(), key) {
            return Some(i);
        }
        i = i + 1;
    }
    None
}

/// Files a token under the condition it names: appended to that
/// condition's group, or in a new group at the end where there is none yet.
/// A token that names no condition is left out.
pub fn group_token<T>(groups: &mut Vec<TokenGroup<T>>, condition_id: Option<String>, token: T)
    requires
        keys_unique(groups_view(old(groups)@)),
    ensures
        keys_unique(groups_view(final(groups)@)),
        match condition_id {
            None => groups_view(final(groups)@) == groups_view(old(groups)@),
            Some(id) => match key_position(groups_view(old(groups)@), id@) {
                Some(k) => groups_view(final(groups)@) == groups_view(old(groups)@).update(
                    k,
                    (id@, groups_view(old(groups)@)[k].1.push(token)),
                ),
                None => groups_view(final(groups)@) == groups_view(old(groups)@).push(
                    (id@, seq![token]),
                ),
            },
        },
{
    let ghost before = groups_view(groups@);
    if let Some(id) = condition_id {
        let found = group_position(groups, id.as_str());
        match found {
            Some(k) => {
                proof {
                    lemma_key_position_at(before, id@, k as int);
                }
                let mut g = groups.remove(k);
                g.tokens.push(token);
                groups.insert(k, g);
                proof {
                    let after = groups_view(groups@);
                    assert(after =~= before.update(k as int, (id@, before[k as int].1.push(token))));
                    assert forall|a: int, b: int| 0 <= a < b < after.len() implies (
                    #[trigger] after[a]).0 != (#[trigger] after[b]).0 by {
                        assert(before[a].0 != before[b].0);
                    }
                }
            },
            None => {
                proof {
                    assert(key_position(before, id@) is None) by {
                        if exists|k: int| 0 <= k < before.len() && (#[trigger] before[k]).0 == id@ {
                            let k = choose|k: int| 0 <= k < before.len() && (#[trigger] before[k]).0
                                == id@;
                            assert(groups_view(groups@)[k].0 != id@);
                        }
                    }
                    lemma_key_position_push(before, id@, seq![token]);
                }
                let mut tokens: Vec<T> = Vec::new();
                tokens.push(token);
                groups.push(TokenGroup { condition_id: id, tokens });
                proof {
                    assert(groups_view(groups@) =~= before.push((id@, seq![token])));
                }
            },
        }
    }
}

/// The totals over all chunk files.
#[derive(Debug, Clone, Copy, PartialEq, Eq, Structural)]
pub struct IndexTotals {
    pub total_markets: usize,
    pub duplicate_markets: usize,
}

/// Adds a chunk's counts to the totals.
pub fn add_chunk(totals: &mut IndexTotals, chunk: &ChunkTally)
    requires
        old(totals).total_markets + chunk.markets_indexed <= usize::MAX,
        old(totals).duplicate_markets + chunk.duplicates_skipped <= usize::MAX,
    ensures
        final(totals).total_markets == old(totals).total_markets + chunk.markets_indexed,
        final(totals).duplicate_markets == old(totals).duplicate_markets
            + chunk.duplicates_skipped,
{
    totals.total_markets = totals.total_markets + chunk.markets_indexed;
    totals.duplicate_markets = totals.duplicate_markets + chunk.duplicates_skipped;
}

/// The position of the conditions progress bar after batch `batch_idx`.
pub fn batch_progress(batch_idx: usize, batch_size: usize, len: usize) -> (r: usize)
    requires
        batch_idx < usize::MAX,
        (batch_idx + 1) * batch_size <= usize::MAX,
    ensures
        r == (if (batch_idx + 1) * batch_size < len {
            (batch_idx + 1) * batch_size
        } else {
            len as int
        }),
{
    let done = (batch_idx + 1) * batch_size;
    if done < len {
        done
    } else {
        len
    }
}

} // verus!
