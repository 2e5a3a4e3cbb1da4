//! Type definitions for the address book.

use vstd::prelude::*;
use crate::text::{
    byte_prefix_end, byte_suffix_start, chars_of, contains_seq, copy_range, lemma_utf8_prefix_strict,
    lemma_utf8_suffix_strict, lowercase, str_contains, string_of, to_lowercase, utf8_len,
};
pub use crate::text::strings_view;

verus! {

/// Reads the system clock through `chrono::Utc::now()` and returns
/// `timestamp_micros()` of it: microseconds since the Unix epoch. The value
/// depends on the clock; what holds of every value it returns is that
/// `Utc::now` panics on a clock before the epoch or past the last second
/// chrono can represent (the end of the year 262142), so it lies between
/// those.
#[verifier::external_body]
pub(crate) fn now_micros() -> (t: i64)
    ensures
        0 <= t <= 8_210_266_876_799_999_999,
{
    chrono::Utc::now().timestamp_micros()
}

/// Type of address.
#[derive(Debug, Clone, Copy, PartialEq, Eq, Structural)]
pub enum AddressType {
    /// Own wallet address
    Own,
    /// Watched address (not owned)
    Watched,
    /// Smart contract address
    Contract,
    /// Exchange address
    Exchange,
    /// Market maker address
    MarketMaker,
    /// Other/custom type
    Other,
}

/// The text under which an address type is shown.
pub open spec fn address_type_text(t: AddressType) -> Seq<char> {
    match t {
        AddressType::Own => "Own"@,
        AddressType::Watched => "Watched"@,
        AddressType::Contract => "Contract"@,
        AddressType::Exchange => "Exchange"@,
        AddressType::MarketMaker => "Market Maker"@,
        AddressType::Other => "Other"@,
    }
}

impl AddressType {
    /// The text under which this address type is shown.
    pub fn display_text(&self) -> (s: &'static str)
        ensures
            s@ == address_type_text(*self),
    {
        match self {
            AddressType::Own => "Own",
            AddressType::Watched => "Watched",
            AddressType::Contract => "Contract",
            AddressType::Exchange => "Exchange",
            AddressType::MarketMaker => "Market Maker",
            AddressType::Other => "Other",
        }
    }
}

/// A decimal amount `mantissa / 10^scale`, the plain form of a
/// `rust_decimal::Decimal`.
#[derive(Debug, Clone, Copy, PartialEq, Eq, Structural)]
pub struct Amount {
    pub mantissa: i128,
    pub scale: u32,
}

/// Metadata about an address. Times are microseconds since the Unix epoch.
#[derive(Debug)]
pub struct AddressMetadata {
    /// When the address was added
    pub added_at: i64,
    /// Last time the address was updated
    pub updated_at: i64,
    /// Last time portfolio data was fetched
    pub last_synced: Option<i64>,
    /// Number of times this address was queried
    pub query_count: u64,
    /// Last query timestamp
    pub last_queried: Option<i64>,
    /// ENS name if available
    pub ens_name: Option<String>,
    /// Whether this is the current active address
    pub is_current: bool,
}

/// Portfolio statistics for an address.
#[derive(Debug, Clone, Copy)]
pub struct AddressStats {
    pub total_value: Amount,
    pub active_positions: usize,
    pub active_orders: usize,
    pub total_realized_pnl: Amount,
    pub trading_pnl: Amount,
    pub unmatched_wins_pnl: Amount,
    pub total_unrealized_pnl: Amount,
    pub win_rate: Option<Amount>,
    pub total_trades: usize,
    pub total_volume: Amount,
    pub buy_volume: Amount,
    pub sell_volume: Amount,
    pub last_trade: Option<i64>,
    pub updated_at: i64,
}

/// Address entry in the address book.
#[derive(Debug)]
pub struct AddressEntry {
    /// Ethereum address
    pub address: String,
    /// Optional human-readable label
    pub label: Option<String>,
    /// Optional description
    pub description: Option<String>,
    /// Address type/category
    pub address_type: AddressType,
    /// Custom tags
    pub tags: Vec<String>,
    /// Metadata about the address
    pub metadata: AddressMetadata,
    /// Portfolio statistics, if tracked
    pub stats: Option<AddressStats>,
    /// Whether this address is actively tracked
    pub is_active: bool,
    /// Custom notes
    pub notes: Option<String>,
}

/// Label for quick identification.
#[derive(Debug)]
pub struct AddressLabel {
    pub address: String,
    pub label: String,
    pub color: Option<String>,
    pub icon: Option<String>,
}

/// Address book metadata.
#[derive(Debug, Clone, Copy)]
pub struct AddressBookMetadata {
    pub created_at: i64,
    pub updated_at: i64,
    pub total_addresses: usize,
    pub own_addresses: usize,
    pub watched_addresses: usize,
}

/// Fields to sort addresses by.
#[derive(Debug, Clone, Copy, PartialEq, Eq, Structural)]
pub enum AddressSortField {
    Label,
    Address,
    AddedAt,
    UpdatedAt,
    TotalValue,
    QueryCount,
}

impl Default for AddressSortField {
    fn default() -> (r: Self)
        ensures
            r == AddressSortField::Label,
    {
        AddressSortField::Label
    }
}

/// Query parameters for searching addresses.
#[derive(Debug)]
pub struct AddressQuery {
    /// Search term (address, label, description, tags, ENS name)
    pub search: Option<String>,
    /// Filter by address type
    pub address_type: Option<AddressType>,
    /// Filter by tags (any of them)
    pub tags: Vec<String>,
    /// Only show active addresses
    pub active_only: bool,
    /// Sort field
    pub sort_by: AddressSortField,
    /// Sort order
    pub ascending: bool,
    /// Limit results
    pub limit: Option<usize>,
}

impl Default for AddressQuery {
    fn default() -> (r: Self)
        ensures
            r.search is None,
            r.address_type is None,
            r.tags@.len() == 0,
            !r.active_only,
            r.sort_by == AddressSortField::Label,
            !r.ascending,
            r.limit is None,
    {
        AddressQuery {
            search: None,
            address_type: None,
            tags: Vec::new(),
            active_only: false,
            sort_by: AddressSortField::Label,
            ascending: false,
            limit: None,
        }
    }
}

/// Filter for address queries.
#[derive(Debug)]
pub struct AddressFilter {
    pub _include_own: bool,
    pub _include_watched: bool,
    pub _include_contracts: bool,
    pub _min_value: Option<Amount>,
    pub _has_positions: Option<bool>,
    pub _has_orders: Option<bool>,
}

impl Default for AddressFilter {
    fn default() -> (r: Self)
        ensures
            !r._include_own && !r._include_watched && !r._include_contracts,
            r._min_value is None && r._has_positions is None && r._has_orders is None,
    {
        AddressFilter {
            _include_own: false,
            _include_watched: false,
            _include_contracts: false,
            _min_value: None,
            _has_positions: None,
            _has_orders: None,
        }
    }
}

/// The value of an optional string.
pub open spec fn opt_view(o: Option<String>) -> Option<Seq<char>> {
    match o {
        Some(s) => Some(s@),
        None => None,
    }
}

/// The mathematical value of `AddressMetadata`.
pub struct MetadataView {
    pub added_at: i64,
    pub updated_at: i64,
    pub last_synced: Option<i64>,
    pub query_count: u64,
    pub last_queried: Option<i64>,
    pub ens_name: Option<Seq<char>>,
    pub is_current: bool,
}

impl View for AddressMetadata {
    type V = MetadataView;

    open spec fn view(&self) -> MetadataView {
        MetadataView {
            added_at: self.added_at,
            updated_at: self.updated_at,
            last_synced: self.last_synced,
            query_count: self.query_count,
            last_queried: self.last_queried,
            ens_name: opt_view(self.ens_name),
            is_current: self.is_current,
        }
    }
}

/// The mathematical value of `AddressEntry`.
pub struct EntryView {
    pub address: Seq<char>,
    pub label: Option<Seq<char>>,
    pub description: Option<Seq<char>>,
    pub address_type: AddressType,
    pub tags: Seq<Seq<char>>,
    pub metadata: MetadataView,
    pub stats: Option<AddressStats>,
    pub is_active: bool,
    pub notes: Option<Seq<char>>,
}

impl View for AddressEntry {
    type V = EntryView;

    open spec fn view(&self) -> EntryView {
        EntryView {
            address: self.address@,
            label: opt_view(self.label),
            description: opt_view(self.description),
            address_type: self.address_type,
            tags: strings_view(self.tags@),
            metadata: self.metadata@,
            stats: self.stats,
            is_active: self.is_active,
            notes: opt_view(self.notes),
        }
    }
}

/// A copy of an optional string.
pub fn clone_opt_string(s: &Option<String>) -> (r: Option<String>)
    ensures
        r == *s,
{
    match s {
        Some(x) => Some(x.clone()),
        None => None,
    }
}

/// A copy of a vector of strings.
pub fn clone_strings(v: &Vec<String>) -> (r: Vec<String>)
    ensures
        r@ == v@,
        strings_view(r@) == strings_view(v@),
{
    let mut r: Vec<String> = Vec::new();
    let mut i: usize = 0;
    while i < v.len()
        invariant
            i <= v.len(),
            r@ == v@.subrange(0, i as int),
        decreases v.len() - i,
    {
        r.push(v[i].clone());
        proof {
            assert(r@ =~= v@.subrange(0, i + 1));
        }
        i = i + 1;
    }
    proof {
        assert(v@.subrange(0, i as int) =~= v@);
    }
    r
}

impl Clone for AddressMetadata {
    fn clone(&self) -> (r: Self)
        ensures
            r@ == self@,
    {
        AddressMetadata {
            added_at: self.added_at,
            updated_at: self.updated_at,
            last_synced: self.last_synced,
            query_count: self.query_count,
            last_queried: self.last_queried,
            ens_name: clone_opt_string(&self.ens_name),
            is_current: self.is_current,
        }
    }
}

impl Clone for AddressEntry {
    fn clone(&self) -> (r: Self)
        ensures
            r@ == self@,
    {
        AddressEntry {
            address: self.address.clone(),
            label: clone_opt_string(&self.label),
            description: clone_opt_string(&self.description),
            address_type: self.address_type,
            tags: clone_strings(&self.tags),
            metadata: self.metadata.clone(),
            stats: self.stats,
            is_active: self.is_active,
            notes: clone_opt_string(&self.notes),
        }
    }
}

/// `s` has a first-six-bytes and a last-four-bytes cut at character
/// boundaries, so that `display_name` can shorten it.
pub open spec fn short_form_ok(s: Seq<char>) -> bool {
    &&& exists|k: int| 0 <= k <= s.len() && utf8_len(s.take(k)) == 6
    &&& exists|j: int| 0 <= j <= s.len() && utf8_len(s.skip(j)) == 4
}

/// The first six bytes of `s`, `...`, and its last four bytes.
pub open spec fn short_form(s: Seq<char>) -> Seq<char> {
    let k = choose|k: int| 0 <= k <= s.len() && utf8_len(s.take(k)) == 6;
    let j = choose|j: int| 0 <= j <= s.len() && utf8_len(s.skip(j)) == 4;
    s.take(k) + seq!['.', '.', '.'] + s.skip(j)
}

/// The name under which an entry is shown: its label, else its ENS name,
/// else its shortened address.
pub open spec fn display_name_of(e: EntryView) -> Seq<char> {
    match e.label {
        Some(l) => l,
        None => match e.metadata.ens_name {
            Some(n) => n,
            None => short_form(e.address),
        },
    }
}

/// `display_name` does not panic on `e`.
pub open spec fn display_ok(e: EntryView) -> bool {
    (e.label is None && e.metadata.ens_name is None) ==> short_form_ok(e.address)
}

/// Case-insensitive containment of `q`, as `matches_search` tests it.
pub open spec fn contains_ci(hay: Seq<char>, q: Seq<char>) -> bool {
    contains_seq(lowercase(hay), lowercase(q))
}

/// The search term `q` occurs, ignoring case, in the address, label,
/// description, a tag or the ENS name of `e`.
pub open spec fn entry_matches(e: EntryView, q: Seq<char>) -> bool {
    ||| contains_ci(e.address, q)
    ||| (e.label matches Some(l) && contains_ci(l, q))
    ||| (e.description matches Some(d) && contains_ci(d, q))
    ||| (exists|i: int| 0 <= i < e.tags.len() && contains_ci(#[trigger] e.tags[i], q))
    ||| (e.metadata.ens_name matches Some(n) && contains_ci(n, q))
}

/// A fresh entry for `address` created at time `now`.
pub open spec fn fresh_entry(address: Seq<char>, address_type: AddressType, now: i64) -> EntryView {
    EntryView {
        address,
        label: None,
        description: None,
        address_type,
        tags: Seq::empty(),
        metadata: MetadataView {
            added_at: now,
            updated_at: now,
            last_synced: None,
            query_count: 0,
            last_queried: None,
            ens_name: None,
            is_current: false,
        },
        stats: None,
        is_active: true,
        notes: None,
    }
}

fn contains_ci_exec(hay: &String, lower_q: &String) -> (b: bool)
    ensures
        b == contains_seq(lowercase(hay@), lower_q@),
{
    let h = to_lowercase(hay.as_str());
    str_contains(h.as_str(), lower_q.as_str())
}

impl AddressEntry {
    /// A new entry for `address`, added and updated at time `now`.
    pub fn new_at(address: String, address_type: AddressType, now: i64) -> (e: Self)
        ensures
            e@ == fresh_entry(address@, address_type, now),
    {
        let e = AddressEntry {
            address,
            label: None,
            description: None,
            address_type,
            tags: Vec::new(),
            metadata: AddressMetadata {
                added_at: now,
                updated_at: now,
                last_synced: None,
                query_count: 0,
                last_queried: None,
                ens_name: None,
                is_current: false,
            },
            stats: None,
            is_active: true,
            notes: None,
        };
        proof {
            assert(e@.tags =~= Seq::<Seq<char>>::empty());
        }
        e
    }

    /// A new entry for `address`, stamped with the current time.
    pub fn new(address: String, address_type: AddressType) -> (e: Self)
        ensures
            exists|now: i64|
                0 <= now <= 8_210_266_876_799_999_999 && e@ == #[trigger] fresh_entry(
                    address@,
                    address_type,
                    now,
                ),
    {
        let now = now_micros();
        Self::new_at(address, address_type, now)
    }

    /// The label, else the ENS name, else the first six bytes of the address,
    /// `...` and its last four bytes.
    pub fn display_name(&self) -> (r: String)
        requires
            display_ok(self@),
        ensures
            r@ == display_name_of(self@),
    {
        if let Some(label) = &self.label {
            label.clone()
        } else if let Some(ens) = &self.metadata.ens_name {
            ens.clone()
        } else {
            let a = chars_of(self.address.as_str());
            let k = byte_prefix_end(&a, 6);
            let j = byte_suffix_start(&a, 4);
            match (k, j) {
                (Some(k), Some(j)) => {
                    let mut out = copy_range(&a, 0, k);
                    out.push('.');
                    out.push('.');
                    out.push('.');
                    let tail = copy_range(&a, j, a.len());
                    let mut t: usize = 0;
                    let ghost head = out@;
                    while t < tail.len()
                        invariant
                            t <= tail.len(),
                            out@ == head + tail@.subrange(0, t as int),
                        decreases tail.len() - t,
                    {
                        out.push(tail[t]);
                        proof {
                            assert(out@ =~= head + tail@.subrange(0, t + 1));
                        }
                        t = t + 1;
                    }
                    proof {
                        let s = self.address@;
                        let kc = choose|kk: int| 0 <= kk <= s.len() && utf8_len(s.take(kk)) == 6;
                        let jc = choose|jj: int| 0 <= jj <= s.len() && utf8_len(s.skip(jj)) == 4;
                        assert(0 <= kc <= s.len() && utf8_len(s.take(kc)) == 6);
                        if kc < k {
                            lemma_utf8_prefix_strict(s, kc, k as int);
                        } else if kc > k {
                            lemma_utf8_prefix_strict(s, k as int, kc);
                        }
                        if jc < j {
                            lemma_utf8_suffix_strict(s, jc, j as int);
                        } else if jc > j {
                            lemma_utf8_suffix_strict(s, j as int, jc);
                        }
                        assert(tail@.subrange(0, t as int) =~= s.skip(j as int));
                        assert(a@.subrange(0, k as int) =~= s.take(k as int));
                        assert(out@ =~= short_form(s));
                    }
                    string_of(&out)
                },
                _ => {
                    proof {
                        let s = self.address@;
                        let kc = choose|kk: int| 0 <= kk <= s.len() && utf8_len(s.take(kk)) == 6;
                        let jc = choose|jj: int| 0 <= jj <= s.len() && utf8_len(s.skip(jj)) == 4;
                        assert(utf8_len(s.take(kc)) == 6);
                        assert(utf8_len(s.skip(jc)) == 4);
                    }
                    String::new()
                },
            }
        }
    }

    /// Whether `search` occurs, ignoring case, in the address, the label, the
    /// description, a tag or the ENS name.
    pub fn matches_search(&self, search: &str) -> (b: bool)
        ensures
            b == entry_matches(self@, search@),
    {
        let q = to_lowercase(search);
        if contains_ci_exec(&self.address, &q) {
            return true;
        }
        if let Some(label) = &self.label {
            if contains_ci_exec(label, &q) {
                return true;
            }
        }
        if let Some(desc) = &self.description {
            if contains_ci_exec(desc, &q) {
                return true;
            }
        }
        let mut i: usize = 0;
        while i < self.tags.len()
            invariant
                i <= self.tags.len(),
                q@ == lowercase(search@),
                forall|k: int| 0 <= k < i ==> !contains_ci(#[trigger] self@.tags[k], search@),
            decreases self.tags.len() - i,
        {
            if contains_ci_exec(&self.tags[i], &q) {
                proof {
                    assert(contains_ci(self@.tags[i as int], search@));
                }
                return true;
            }
            i = i + 1;
        }
        if let Some(ens) = &self.metadata.ens_name {
            if contains_ci_exec(ens, &q) {
                return true;
            }
        }
        false
    }

    /// Counts one more query, made at time `now`.
    pub fn record_query_at(&mut self, now: i64)
        requires
            old(self).metadata.query_count < u64::MAX,
        ensures
            final(self)@ == (EntryView {
                metadata: MetadataView {
                    query_count: (old(self)@.metadata.query_count + 1) as u64,
                    last_queried: Some(now),
                    ..old(self)@.metadata
                },
                ..old(self)@
            }),
    {
        self.metadata.query_count = self.metadata.query_count + 1;
        self.metadata.last_queried = Some(now);
    }

    /// Counts one more query, stamped with the current time.
    pub fn record_query(&mut self)
        requires
            old(self).metadata.query_count < u64::MAX,
        ensures
            final(self)@.metadata.query_count == old(self)@.metadata.query_count + 1,
            final(self)@.metadata.last_queried is Some,
            final(self)@ == (EntryView {
                metadata: MetadataView {
                    query_count: final(self)@.metadata.query_count,
                    last_queried: final(self)@.metadata.last_queried,
                    ..old(self)@.metadata
                },
                ..old(self)@
            }),
    {
        let now = now_micros();
        self.record_query_at(now);
    }
}

/// Complete address book. The entries hold each address once and the label
/// index holds each label once (see `wf`); both are kept in insertion order.
#[derive(Debug)]
pub struct AddressBook {
    /// Version of the address book format
    pub version: String,
    /// All address entries
    pub entries: Vec<AddressEntry>,
    /// Label index: (label, address)
    pub labels: Vec<(String, String)>,
    /// Current active address
    pub current_address: Option<String>,
    /// Address book metadata
    pub metadata: AddressBookMetadata,
}

/// The mathematical value of an `AddressBook`.
pub struct BookView {
    pub version: Seq<char>,
    pub entries: Seq<EntryView>,
    pub labels: Seq<(Seq<char>, Seq<char>)>,
    pub current_address: Option<Seq<char>>,
    pub metadata: AddressBookMetadata,
}

/// The values of the entries.
pub open spec fn entries_view(v: Seq<AddressEntry>) -> Seq<EntryView> {
    v.map_values(|e: AddressEntry| e@)
}

/// The values of the label index.
pub open spec fn labels_view(v: Seq<(String, String)>) -> Seq<(Seq<char>, Seq<char>)> {
    v.map_values(|p: (String, String)| (p.0@, p.1@))
}

impl View for AddressBook {
    type V = BookView;

    open spec fn view(&self) -> BookView {
        BookView {
            version: self.version@,
            entries: entries_view(self.entries@),
            labels: labels_view(self.labels@),
            current_address: opt_view(self.current_address),
            metadata: self.metadata,
        }
    }
}

/// Some entry has address `a`.
pub open spec fn has_address(es: Seq<EntryView>, a: Seq<char>) -> bool {
    exists|i: int| 0 <= i < es.len() && (#[trigger] es[i]).address == a
}

/// The position of the entry with address `a`.
pub open spec fn address_index(es: Seq<EntryView>, a: Seq<char>) -> int {
    choose|i: int| 0 <= i < es.len() && (#[trigger] es[i]).address == a
}

/// No two entries share an address.
pub open spec fn unique_addresses(es: Seq<EntryView>) -> bool {
    forall|i: int, j: int|
        0 <= i < es.len() && 0 <= j < es.len() && i != j ==> (#[trigger] es[i]).address
            != (#[trigger] es[j]).address
}

/// The label index holds `l`.
pub open spec fn has_label(ls: Seq<(Seq<char>, Seq<char>)>, l: Seq<char>) -> bool {
    exists|i: int| 0 <= i < ls.len() && (#[trigger] ls[i]).0 == l
}

/// The position of label `l` in the label index.
pub open spec fn label_index(ls: Seq<(Seq<char>, Seq<char>)>, l: Seq<char>) -> int {
    choose|i: int| 0 <= i < ls.len() && (#[trigger] ls[i]).0 == l
}

/// No label occurs twice in the index.
pub open spec fn unique_labels(ls: Seq<(Seq<char>, Seq<char>)>) -> bool {
    forall|i: int, j: int|
        0 <= i < ls.len() && 0 <= j < ls.len() && i != j ==> (#[trigger] ls[i]).0 != (
        #[trigger] ls[j]).0
}

/// The entries as a map from address to entry.
pub open spec fn entry_map(es: Seq<EntryView>) -> Map<Seq<char>, EntryView> {
    Map::new(|a: Seq<char>| has_address(es, a), |a: Seq<char>| es[address_index(es, a)])
}

/// The label index as a map from label to address.
pub open spec fn label_map(ls: Seq<(Seq<char>, Seq<char>)>) -> Map<Seq<char>, Seq<char>> {
    Map::new(|l: Seq<char>| has_label(ls, l), |l: Seq<char>| ls[label_index(ls, l)].1)
}

/// The entries after adding or replacing `e`: the entry with its address is
/// replaced in place, or `e` is appended.
pub open spec fn upserted_entries(es: Seq<EntryView>, e: EntryView) -> Seq<EntryView> {
    if has_address(es, e.address) {
        es.update(address_index(es, e.address), e)
    } else {
        es.push(e)
    }
}

/// The label index after mapping `l` to `a`.
pub open spec fn label_insert(ls: Seq<(Seq<char>, Seq<char>)>, l: Seq<char>, a: Seq<char>) -> Seq<
    (Seq<char>, Seq<char>),
> {
    if has_label(ls, l) {
        ls.update(label_index(ls, l), (l, a))
    } else {
        ls.push((l, a))
    }
}

/// The label index without label `l`.
pub open spec fn label_remove(ls: Seq<(Seq<char>, Seq<char>)>, l: Seq<char>) -> Seq<
    (Seq<char>, Seq<char>),
> {
    if has_label(ls, l) {
        ls.remove(label_index(ls, l))
    } else {
        ls
    }
}

/// The number of entries of type `t`.
pub open spec fn count_type(es: Seq<EntryView>, t: AddressType) -> nat
    decreases es.len(),
{
    if es.len() == 0 {
        0
    } else {
        count_type(es.drop_last(), t) + if es.last().address_type == t {
            1nat
        } else {
            0nat
        }
    }
}

/// The book metadata after the entries became `es` at time `now`, with the
/// total moved by `added`.
pub open spec fn counted_metadata(
    m: AddressBookMetadata,
    es: Seq<EntryView>,
    total: int,
    now: i64,
) -> AddressBookMetadata {
    AddressBookMetadata {
        created_at: m.created_at,
        updated_at: now,
        total_addresses: total as usize,
        own_addresses: count_type(es, AddressType::Own) as usize,
        watched_addresses: count_type(es, AddressType::Watched) as usize,
    }
}

impl AddressBook {
    /// The book is well formed: addresses and labels are unique.
    pub open spec fn wf(&self) -> bool {
        unique_addresses(self@.entries) && unique_labels(self@.labels)
    }

    /// The entries as a map from address to entry.
    pub open spec fn entry_map(&self) -> Map<Seq<char>, EntryView> {
        entry_map(self@.entries)
    }

    /// The label index as a map from label to address.
    pub open spec fn label_map(&self) -> Map<Seq<char>, Seq<char>> {
        label_map(self@.labels)
    }

    /// An empty address book of format version 1.0, created at `now`.
    pub fn new_at(now: i64) -> (b: Self)
        ensures
            b.wf(),
            b@.version == "1.0"@,
            b@.entries.len() == 0,
            b@.labels.len() == 0,
            b@.current_address is None,
            b@.metadata == (AddressBookMetadata {
                created_at: now,
                updated_at: now,
                total_addresses: 0,
                own_addresses: 0,
                watched_addresses: 0,
            }),
    {
        let b = AddressBook {
            version: String::from_str("1.0"),
            entries: Vec::new(),
            labels: Vec::new(),
            current_address: None,
            metadata: AddressBookMetadata {
                created_at: now,
                updated_at: now,
                total_addresses: 0,
                own_addresses: 0,
                watched_addresses: 0,
            },
        };
        b
    }

    /// An empty address book of format version 1.0, stamped with the current
    /// time.
    pub fn new() -> (b: Self)
        ensures
            b.wf(),
            b@.version == "1.0"@,
            b@.entries.len() == 0,
            b@.labels.len() == 0,
            b@.current_address is None,
            b@.metadata.created_at == b@.metadata.updated_at,
            b@.metadata.total_addresses == 0,
            b@.metadata.own_addresses == 0,
            b@.metadata.watched_addresses == 0,
    {
        Self::new_at(now_micros())
    }

    /// The position of the entry with address `a`, if any.
    pub fn find_address(&self, a: &str) -> (r: Option<usize>)
        ensures
            r matches Some(i) ==> i < self@.entries.len() && self@.entries[i as int].address == a@,
            r is None <==> !has_address(self@.entries, a@),
    {
        let mut i: usize = 0;
        while i < self.entries.len()
            invariant
                i <= self.entries.len(),
                forall|k: int| 0 <= k < i ==> (#[trigger] self@.entries[k]).address != a@,
            decreases self.entries.len() - i,
        {
            if str_eq(self.entries[i].address.as_str(), a) {
                return Some(i);
            }
            i = i + 1;
        }
        None
    }

    /// The position of label `l` in the label index, if any.
    pub fn find_label(&self, l: &str) -> (r: Option<usize>)
        ensures
            r matches Some(i) ==> i < self@.labels.len() && self@.labels[i as int].0 == l@,
            r is None <==> !has_label(self@.labels, l@),
    {
        let mut i: usize = 0;
        while i < self.labels.len()
            invariant
                i <= self.labels.len(),
                forall|k: int| 0 <= k < i ==> (#[trigger] self@.labels[k]).0 != l@,
            decreases self.labels.len() - i,
        {
            if str_eq(self.labels[i].0.as_str(), l) {
                proof {
                    assert(self@.labels[i as int].0 == l@);
                }
                return Some(i);
            }
            i = i + 1;
        }
        None
    }
}

/// In a book with unique addresses, the entry at `i` is the one found for its
/// address.
pub proof fn lemma_address_index(es: Seq<EntryView>, i: int)
    requires
        unique_addresses(es),
        0 <= i < es.len(),
    ensures
        has_address(es, es[i].address),
        address_index(es, es[i].address) == i,
{
    assert(has_address(es, es[i].address));
}

/// In an index with unique labels, the pair at `i` is the one found for its
/// label.
pub proof fn lemma_label_index(ls: Seq<(Seq<char>, Seq<char>)>, i: int)
    requires
        unique_labels(ls),
        0 <= i < ls.len(),
    ensures
        has_label(ls, ls[i].0),
        label_index(ls, ls[i].0) == i,
{
    assert(has_label(ls, ls[i].0));
}

proof fn lemma_count_type_step(es: Seq<EntryView>, t: AddressType, i: int)
    requires
        0 <= i < es.len(),
    ensures
        count_type(es.take(i + 1), t) == count_type(es.take(i), t) + if es[i].address_type == t {
            1nat
        } else {
            0nat
        },
{
    assert(es.take(i + 1).drop_last() =~= es.take(i));
}

proof fn lemma_count_type_le(es: Seq<EntryView>, t: AddressType)
    ensures
        count_type(es, t) <= es.len(),
    decreases es.len(),
{
    if es.len() > 0 {
        lemma_count_type_le(es.drop_last(), t);
    }
}

impl AddressBook {
    fn count_of_type(&self, t: AddressType) -> (n: usize)
        ensures
            n == count_type(self@.entries, t),
    {
        let mut n: usize = 0;
        let mut i: usize = 0;
        proof {
            assert(self@.entries.take(0) =~= Seq::<EntryView>::empty());
        }
        while i < self.entries.len()
            invariant
                i <= self.entries.len(),
                n == count_type(self@.entries.take(i as int), t),
            decreases self.entries.len() - i,
        {
            proof {
                lemma_count_type_step(self@.entries, t, i as int);
                lemma_count_type_le(self@.entries.take(i + 1), t);
            }
            if self.entries[i].address_type == t {
                n = n + 1;
            }
            i = i + 1;
        }
        proof {
            assert(self@.entries.take(i as int) =~= self@.entries);
        }
        n
    }

    /// Recomputes the number of own and watched addresses.
    fn update_counts(&mut self)
        ensures
            final(self)@ == (BookView {
                metadata: AddressBookMetadata {
                    own_addresses: count_type(old(self)@.entries, AddressType::Own) as usize,
                    watched_addresses: count_type(old(self)@.entries, AddressType::Watched) as usize,
                    ..old(self)@.metadata
                },
                ..old(self)@
            }),
    {
        let own = self.count_of_type(AddressType::Own);
        let watched = self.count_of_type(AddressType::Watched);
        self.metadata.own_addresses = own;
        self.metadata.watched_addresses = watched;
    }

    /// Maps label `l` to address `a` in the label index.
    pub(crate) fn set_label(&mut self, l: String, a: String)
        requires
            unique_labels(old(self)@.labels),
        ensures
            final(self)@ == (BookView {
                labels: label_insert(old(self)@.labels, l@, a@),
                ..old(self)@
            }),
            unique_labels(final(self)@.labels),
    {
        match self.find_label(l.as_str()) {
            Some(i) => {
                proof {
                    lemma_label_index(self@.labels, i as int);
                }
                self.labels[i] = (l, a);
                proof {
                    assert(labels_view(self.labels@) =~= label_insert(old(self)@.labels, l@, a@));
                }
            },
            None => {
                self.labels.push((l, a));
                proof {
                    assert(labels_view(self.labels@) =~= label_insert(old(self)@.labels, l@, a@));
                }
            },
        }
    }

    /// Drops label `l` from the label index.
    pub(crate) fn unset_label(&mut self, l: &str)
        requires
            unique_labels(old(self)@.labels),
        ensures
            final(self)@ == (BookView { labels: label_remove(old(self)@.labels, l@), ..old(self)@ }),
            unique_labels(final(self)@.labels),
    {
        match self.find_label(l) {
            Some(i) => {
                proof {
                    lemma_label_index(self@.labels, i as int);
                }
                let _ = self.labels.remove(i);
                proof {
                    assert(labels_view(self.labels@) =~= label_remove(old(self)@.labels, l@));
                    assert forall|x: int, y: int|
                        0 <= x < self@.labels.len() && 0 <= y < self@.labels.len() && x != y
                            implies (#[trigger] self@.labels[x]).0 != (#[trigger] self@.labels[y]).0 by {
                        let ox = if x < i { x } else { x + 1 };
                        let oy = if y < i { y } else { y + 1 };
                        assert(self@.labels[x] == old(self)@.labels[ox]);
                        assert(self@.labels[y] == old(self)@.labels[oy]);
                    }
                }
            },
            None => {},
        }
    }

    /// Adds or replaces the entry for `entry.address` at time `now`. A label of
    /// the entry is mapped to its address in the label index; the total grows
    /// by one for a new address and the type counts are recomputed.
    pub fn upsert_entry_at(&mut self, entry: AddressEntry, now: i64)
        requires
            old(self).wf(),
            !has_address(old(self)@.entries, entry@.address) ==> old(
                self,
            ).metadata.total_addresses < usize::MAX,
        ensures
            final(self).wf(),
            final(self)@.entries == upserted_entries(old(self)@.entries, entry@),
            final(self)@.labels == match entry@.label {
                Some(l) => label_insert(old(self)@.labels, l, entry@.address),
                None => old(self)@.labels,
            },
            final(self)@.metadata == counted_metadata(
                old(self)@.metadata,
                final(self)@.entries,
                old(self)@.metadata.total_addresses + if has_address(
                    old(self)@.entries,
                    entry@.address,
                ) {
                    0int
                } else {
                    1int
                },
                now,
            ),
            final(self)@.version == old(self)@.version,
            final(self)@.current_address == old(self)@.current_address,
    {
        let address = entry.address.clone();
        let pos = self.find_address(address.as_str());
        if let Some(label) = &entry.label {
            self.set_label(label.clone(), address.clone());
        }
        let ghost es0 = self@.entries;
        match pos {
            Some(i) => {
                proof {
                    lemma_address_index(es0, i as int);
                }
                self.entries[i] = entry;
                proof {
                    assert(entries_view(self.entries@) =~= es0.update(i as int, entry@));
                }
            },
            None => {
                self.entries.push(entry);
                proof {
                    assert(entries_view(self.entries@) =~= es0.push(entry@));
                }
            },
        }
        if pos.is_none() {
            self.metadata.total_addresses = self.metadata.total_addresses + 1;
        }
        self.update_counts();
        self.metadata.updated_at = now;
    }

    /// Adds or replaces an entry, stamped with the current time.
    pub fn upsert_entry(&mut self, entry: AddressEntry)
        requires
            old(self).wf(),
            !has_address(old(self)@.entries, entry@.address) ==> old(
                self,
            ).metadata.total_addresses < usize::MAX,
        ensures
            final(self).wf(),
            final(self)@.entries == upserted_entries(old(self)@.entries, entry@),
            final(self)@.labels == match entry@.label {
                Some(l) => label_insert(old(self)@.labels, l, entry@.address),
                None => old(self)@.labels,
            },
            final(self)@.metadata == counted_metadata(
                old(self)@.metadata,
                final(self)@.entries,
                old(self)@.metadata.total_addresses + if has_address(
                    old(self)@.entries,
                    entry@.address,
                ) {
                    0int
                } else {
                    1int
                },
                final(self)@.metadata.updated_at,
            ),
            final(self)@.version == old(self)@.version,
            final(self)@.current_address == old(self)@.current_address,
    {
        let now = now_micros();
        self.upsert_entry_at(entry, now);
    }
}

/// What `get_entry` finds for `key`: the entry with that address, else the
/// entry whose address the label `key` maps to.
pub open spec fn lookup(b: BookView, key: Seq<char>) -> Option<EntryView> {
    if has_address(b.entries, key) {
        Some(b.entries[address_index(b.entries, key)])
    } else if has_label(b.labels, key) {
        let a = b.labels[label_index(b.labels, key)].1;
        if has_address(b.entries, a) {
            Some(b.entries[address_index(b.entries, a)])
        } else {
            None
        }
    } else {
        None
    }
}

/// The entries with `is_current` set on position `i` only.
pub open spec fn mark_current(es: Seq<EntryView>, i: int) -> Seq<EntryView> {
    Seq::new(
        es.len(),
        |k: int|
            EntryView { metadata: MetadataView { is_current: k == i, ..es[k].metadata }, ..es[k] },
    )
}

impl AddressBook {
    /// Removes the entry for `address` at time `now` and returns it; its label
    /// leaves the label index, the total shrinks by one and the type counts
    /// are recomputed. Without such an entry nothing changes.
    pub fn remove_entry_at(&mut self, address: &str, now: i64) -> (r: Option<AddressEntry>)
        requires
            old(self).wf(),
            has_address(old(self)@.entries, address@) ==> old(self).metadata.total_addresses > 0,
        ensures
            final(self).wf(),
            !has_address(old(self)@.entries, address@) ==> r is None && final(self)@ == old(self)@,
            has_address(old(self)@.entries, address@) ==> {
                let i = address_index(old(self)@.entries, address@);
                let e = old(self)@.entries[i];
                &&& r matches Some(x) && x@ == e
                &&& final(self)@.entries == old(self)@.entries.remove(i)
                &&& final(self)@.labels == match e.label {
                    Some(l) => label_remove(old(self)@.labels, l),
                    None => old(self)@.labels,
                }
                &&& final(self)@.metadata == counted_metadata(
                    old(self)@.metadata,
                    final(self)@.entries,
                    old(self)@.metadata.total_addresses - 1,
                    now,
                )
                &&& final(self)@.version == old(self)@.version
                &&& final(self)@.current_address == old(self)@.current_address
            },
    {
        match self.find_address(address) {
            None => None,
            Some(i) => {
                proof {
                    lemma_address_index(self@.entries, i as int);
                }
                let ghost es0 = self@.entries;
                let e = self.entries.remove(i);
                proof {
                    assert(entries_view(self.entries@) =~= es0.remove(i as int));
                    assert forall|x: int, y: int|
                        0 <= x < self@.entries.len() && 0 <= y < self@.entries.len() && x != y
                            implies (#[trigger] self@.entries[x]).address
                            != (#[trigger] self@.entries[y]).address by {
                        let ox = if x < i { x } else { x + 1 };
                        let oy = if y < i { y } else { y + 1 };
                        assert(self@.entries[x] == es0[ox]);
                        assert(self@.entries[y] == es0[oy]);
                    }
                }
                if let Some(l) = &e.label {
                    self.unset_label(l.as_str());
                }
                self.metadata.total_addresses = self.metadata.total_addresses - 1;
                self.update_counts();
                self.metadata.updated_at = now;
                Some(e)
            },
        }
    }

    /// Removes the entry for `address`, stamped with the current time.
    pub fn remove_entry(&mut self, address: &str) -> (r: Option<AddressEntry>)
        requires
            old(self).wf(),
            has_address(old(self)@.entries, address@) ==> old(self).metadata.total_addresses > 0,
        ensures
            final(self).wf(),
            !has_address(old(self)@.entries, address@) ==> r is None && final(self)@ == old(self)@,
            has_address(old(self)@.entries, address@) ==> {
                let i = address_index(old(self)@.entries, address@);
                let e = old(self)@.entries[i];
                &&& r matches Some(x) && x@ == e
                &&& final(self)@.entries == old(self)@.entries.remove(i)
                &&& final(self)@.labels == match e.label {
                    Some(l) => label_remove(old(self)@.labels, l),
                    None => old(self)@.labels,
                }
                &&& final(self)@.metadata == counted_metadata(
                    old(self)@.metadata,
                    final(self)@.entries,
                    old(self)@.metadata.total_addresses - 1,
                    final(self)@.metadata.updated_at,
                )
                &&& final(self)@.version == old(self)@.version
                &&& final(self)@.current_address == old(self)@.current_address
            },
    {
        let now = now_micros();
        self.remove_entry_at(address, now)
    }

    /// The entry with address `key`, else the entry whose address the label
    /// `key` maps to.
    pub fn get_entry(&self, key: &str) -> (r: Option<&AddressEntry>)
        requires
            self.wf(),
        ensures
            match r {
                Some(e) => lookup(self@, key@) == Some(e@),
                None => lookup(self@, key@) is None,
            },
    {
        if let Some(i) = self.find_address(key) {
            proof {
                lemma_address_index(self@.entries, i as int);
            }
            return Some(&self.entries[i]);
        }
        if let Some(j) = self.find_label(key) {
            proof {
                lemma_label_index(self@.labels, j as int);
            }
            if let Some(i) = self.find_address(self.labels[j].1.as_str()) {
                proof {
                    lemma_address_index(self@.entries, i as int);
                }
                return Some(&self.entries[i]);
            }
        }
        None
    }

    /// Makes `address` the current address at time `now`: only its entry is
    /// marked current. Fails, changing nothing, when the book lacks it.
    pub fn set_current_at(&mut self, address: &str, now: i64) -> (r: Result<(), String>)
        requires
            old(self).wf(),
        ensures
            final(self).wf(),
            r is Ok <==> has_address(old(self)@.entries, address@),
            r matches Err(msg) ==> msg@ == "Address not found in address book"@ && final(self)@
                == old(self)@,
            r is Ok ==> final(self)@ == (BookView {
                entries: mark_current(
                    old(self)@.entries,
                    address_index(old(self)@.entries, address@),
                ),
                current_address: Some(address@),
                metadata: AddressBookMetadata { updated_at: now, ..old(self)@.metadata },
                ..old(self)@
            }),
    {
        let pos = self.find_address(address);
        match pos {
            None => Err(String::from_str("Address not found in address book")),
            Some(i) => {
                proof {
                    lemma_address_index(self@.entries, i as int);
                }
                let ghost es0 = self@.entries;
                let mut k: usize = 0;
                while k < self.entries.len()
                    invariant
                        k <= self.entries.len() == es0.len(),
                        self@.labels == old(self)@.labels,
                        self@.version == old(self)@.version,
                        self@.metadata == old(self)@.metadata,
                        self@.current_address == old(self)@.current_address,
                        es0 == old(self)@.entries,
                        i == address_index(old(self)@.entries, address@),
                        i < es0.len(),
                        forall|m: int|
                            0 <= m < k ==> self@.entries[m] == (EntryView {
                                metadata: MetadataView { is_current: false, ..es0[m].metadata },
                                ..es0[m]
                            }),
                        forall|m: int| k <= m < es0.len() ==> self@.entries[m] == es0[m],
                    decreases self.entries.len() - k,
                {
                    let ghost before = self.entries@;
                    self.entries[k].metadata.is_current = false;
                    proof {
                        assert(self.entries@[k as int].metadata.is_current == false);
                        assert(self.entries@[k as int].address == before[k as int].address);
                        assert(self.entries@[k as int].metadata.ens_name == before[k as int].metadata.ens_name);
                        assert(self.entries@[k as int]@ == (EntryView {
                                metadata: MetadataView { is_current: false, ..before[k as int]@.metadata },
                                ..before[k as int]@
                            }));
                        assert(self.entries@ == before.update(k as int, self.entries@[k as int]));
                        assert(entries_view(self.entries@) =~= entries_view(before).update(
                            k as int,
                            self.entries@[k as int]@,
                        ));
                        assert(entries_view(before)[k as int] == es0[k as int]);
                        assert forall|m: int| 0 <= m < k + 1 implies self@.entries[m] == (EntryView {
                            metadata: MetadataView { is_current: false, ..es0[m].metadata },
                            ..es0[m]
                        }) by {
                            if m < k {
                                assert(self@.entries[m] == entries_view(before)[m]);
                            }
                        }
                    }
                    k = k + 1;
                }
                let ghost before = self.entries@;
                proof {
                    assert(self@.entries[i as int] == (EntryView {
                        metadata: MetadataView { is_current: false, ..es0[i as int].metadata },
                        ..es0[i as int]
                    }));
                }
                self.entries[i].metadata.is_current = true;
                proof {
                    assert(entries_view(self.entries@) =~= entries_view(before).update(
                        i as int,
                        self.entries@[i as int]@,
                    ));
                }
                self.current_address = Some(String::from_str(address));
                self.metadata.updated_at = now;
                proof {
                    assert(entries_view(before)[i as int] == (EntryView {
                        metadata: MetadataView { is_current: false, ..es0[i as int].metadata },
                        ..es0[i as int]
                    }));
                    assert forall|m: int| 0 <= m < es0.len() implies self@.entries[m] == mark_current(es0, i as int)[m] by {
                        if m != i {
                            assert(entries_view(before)[m] == (EntryView {
                                metadata: MetadataView { is_current: false, ..es0[m].metadata },
                                ..es0[m]
                            }));
                        }
                    }
                    assert(self@.entries =~= mark_current(es0, i as int));
                    assert forall|x: int, y: int|
                        0 <= x < self@.entries.len() && 0 <= y < self@.entries.len() && x != y
                            implies (#[trigger] self@.entries[x]).address
                            != (#[trigger] self@.entries[y]).address by {
                        assert(self@.entries[x].address == es0[x].address);
                        assert(self@.entries[y].address == es0[y].address);
                    }
                }
                Ok(())
            },
        }
    }

    /// Makes `address` the current address, stamped with the current time.
    pub fn set_current(&mut self, address: &str) -> (r: Result<(), String>)
        requires
            old(self).wf(),
        ensures
            final(self).wf(),
            r is Ok <==> has_address(old(self)@.entries, address@),
            r matches Err(msg) ==> msg@ == "Address not found in address book"@ && final(self)@
                == old(self)@,
            r is Ok ==> final(self)@ == (BookView {
                entries: mark_current(
                    old(self)@.entries,
                    address_index(old(self)@.entries, address@),
                ),
                current_address: Some(address@),
                metadata: AddressBookMetadata {
                    updated_at: final(self)@.metadata.updated_at,
                    ..old(self)@.metadata
                },
                ..old(self)@
            }),
    {
        let now = now_micros();
        self.set_current_at(address, now)
    }
}

/// Compares two strings by their characters.
pub fn str_eq(a: &str, b: &str) -> (r: bool)
    ensures
        r == (a@ == b@),
{
    let x = chars_of(a);
    let y = chars_of(b);
    if x.len() != y.len() {
        return false;
    }
    let mut i: usize = 0;
    while i < x.len()
        invariant
            x@ == a@,
            y@ == b@,
            x.len() == y.len(),
            i <= x.len(),
            forall|k: int| 0 <= k < i ==> x@[k] == y@[k],
        decreases x.len() - i,
    {
        if x[i] != y[i] {
            proof {
                if x@ == y@ {
                    assert(x@[i as int] == y@[i as int]);
                }
            }
            return false;
        }
        i = i + 1;
    }
    proof {
        assert(x@ =~= y@);
    }
    true
}

} // verus!
