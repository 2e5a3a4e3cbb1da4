//! Command arguments for address book management, and the decisions the
//! commands make on them before they reach the service.

use vstd::prelude::*;
use crate::address_book::types::{
    address_type_text, entries_view, opt_view, str_eq, strings_view, AddressEntry, AddressQuery, AddressSortField,
    AddressType, EntryView,
};
use crate::text::{
    all_ascii, ascii_lowered, is_ascii_char, lowercase, split_on, split_str, to_lowercase, trim,
    trim_str,
};

verus! {

/// Address book management commands.
#[derive(Debug)]
pub struct AddressCommand {
    pub command: AddressSubcommand,
}

#[derive(Debug)]
pub enum AddressSubcommand {
    /// Add a new address to the book
    Add(AddAddressArgs),
    /// List all addresses
    List(ListAddressesArgs),
    /// Get details of a specific address
    Get(GetAddressArgs),
    /// Update an existing address
    Update(UpdateAddressArgs),
    /// Edit an address by ID
    Edit(EditAddressArgs),
    /// Remove an address from the book
    Remove(RemoveAddressArgs),
    /// Query addresses with filters
    Query(QueryAddressArgs),
    /// Set the current active address
    SetCurrent(SetCurrentArgs),
    /// Get the current active address
    Current,
    /// Sync address statistics with portfolio
    Sync(SyncAddressArgs),
    /// Sync all addresses with portfolio
    SyncAll(SyncAllAddressArgs),
    /// Import addresses from CSV
    Import(ImportAddressArgs),
    /// Export addresses to CSV
    Export(ExportAddressArgs),
    /// Show address book statistics
    Stats,
    /// List addresses with a quick view
    Quick(QuickViewArgs),
    /// Toggle active status for addresses
    Toggle(ToggleAddressArgs),
    /// Add tags to multiple addresses
    Tag(TagAddressesArgs),
}

#[derive(Debug)]
pub struct AddAddressArgs {
    /// Ethereum address
    pub address: String,
    /// Human-readable label/name
    pub label: Option<String>,
    /// Description
    pub description: Option<String>,
    /// Address type (own, watched, contract, exchange, market-maker, other)
    pub address_type: String,
    /// Tags (comma-separated)
    pub tags: Option<String>,
}

#[derive(Debug)]
pub struct ListAddressesArgs {
    /// Maximum number of addresses to show
    pub limit: Option<usize>,
    /// Show only own addresses
    pub own: bool,
    /// Show only watched addresses
    pub watched: bool,
    /// Show detailed information
    pub detailed: bool,
    /// Display results in table format
    pub table: bool,
}

#[derive(Debug)]
pub struct GetAddressArgs {
    /// Address or label to look up
    pub address_or_label: String,
}

#[derive(Debug)]
pub struct UpdateAddressArgs {
    /// Address to update
    pub address: String,
    /// New label
    pub label: Option<String>,
    /// New description
    pub description: Option<String>,
    /// New tags (comma-separated)
    pub tags: Option<String>,
    /// Set active status
    pub active: Option<bool>,
    /// Additional notes
    pub notes: Option<String>,
}

#[derive(Debug)]
pub struct EditAddressArgs {
    /// ID of the address to edit (from list command)
    pub id: usize,
    /// New label
    pub label: Option<String>,
    /// New description
    pub description: Option<String>,
    /// New tags (comma-separated)
    pub tags: Option<String>,
    /// Add tags (comma-separated)
    pub add_tags: Option<String>,
    /// Remove tags (comma-separated)
    pub remove_tags: Option<String>,
    /// Set active status
    pub active: Option<bool>,
    /// Additional notes
    pub notes: Option<String>,
    /// Clear field (label, description, notes)
    pub clear: Option<String>,
}

#[derive(Debug)]
pub struct RemoveAddressArgs {
    /// Address to remove
    pub address: String,
    /// Skip confirmation
    pub yes: bool,
}

#[derive(Debug)]
pub struct QueryAddressArgs {
    /// Search term
    pub search: Option<String>,
    /// Filter by type
    pub address_type: Option<String>,
    /// Filter by tags (comma-separated)
    pub tags: Option<String>,
    /// Show only active addresses
    pub active_only: bool,
    /// Sort by field (label, address, added, updated, value, queries)
    pub sort: String,
    /// Sort ascending
    pub ascending: bool,
    /// Limit results
    pub limit: Option<usize>,
}

#[derive(Debug)]
pub struct SetCurrentArgs {
    /// Address to set as current
    pub address: String,
}

#[derive(Debug)]
pub struct SyncAddressArgs {
    /// Address to sync (or current if not specified)
    pub address: Option<String>,
    /// Display results in table format
    pub table: bool,
}

#[derive(Debug)]
pub struct ImportAddressArgs {
    /// CSV file path
    pub path: String,
}

#[derive(Debug)]
pub struct ExportAddressArgs {
    /// Output CSV file path
    pub path: String,
}

#[derive(Debug)]
pub struct SyncAllAddressArgs {
    /// Only sync active addresses
    pub active_only: bool,
    /// Maximum number of addresses to sync
    pub limit: Option<usize>,
    /// Display results in table format
    pub table: bool,
}

#[derive(Debug)]
pub struct QuickViewArgs {
    /// Show only own addresses
    pub own: bool,
    /// Show only watched addresses
    pub watched: bool,
    /// Show portfolio value
    pub with_value: bool,
    /// Display results in table format
    pub table: bool,
}

#[derive(Debug)]
pub struct ToggleAddressArgs {
    /// Address or label to toggle
    pub address_or_label: String,
}

#[derive(Debug)]
pub struct TagAddressesArgs {
    /// Tags to add (comma-separated)
    pub tags: String,
    /// Apply to all addresses matching pattern
    pub pattern: Option<String>,
    /// Apply to addresses of specific type
    pub address_type: Option<String>,
}

/// The address type that a lower-cased name denotes.
pub open spec fn address_type_named(l: Seq<char>) -> Option<AddressType> {
    if l == "own"@ {
        Some(AddressType::Own)
    } else if l == "watched"@ {
        Some(AddressType::Watched)
    } else if l == "contract"@ {
        Some(AddressType::Contract)
    } else if l == "exchange"@ {
        Some(AddressType::Exchange)
    } else if l == "market-maker"@ || l == "mm"@ {
        Some(AddressType::MarketMaker)
    } else if l == "other"@ {
        Some(AddressType::Other)
    } else {
        None
    }
}

/// The message of a refused address type.
pub open spec fn invalid_type_message(s: Seq<char>) -> Seq<char> {
    "Invalid address type: "@ + s
}

/// The text under which an address type is shown is ASCII, and read back in
/// lower case it names the same type, but for `Market Maker`, whose space
/// the accepted names do not have.
proof fn lemma_type_text_lowered(t: AddressType)
    ensures
        all_ascii(address_type_text(t)),
        address_type_named(ascii_lowered(address_type_text(t))) == (match t {
            AddressType::MarketMaker => None,
            _ => Some(t),
        }),
{
    reveal_strlit("Own");
    reveal_strlit("Watched");
    reveal_strlit("Contract");
    reveal_strlit("Exchange");
    reveal_strlit("Market Maker");
    reveal_strlit("Other");
    reveal_strlit("own");
    reveal_strlit("watched");
    reveal_strlit("contract");
    reveal_strlit("exchange");
    reveal_strlit("market-maker");
    reveal_strlit("mm");
    reveal_strlit("other");
    let x = address_type_text(t);
    let l = ascii_lowered(x);
    assert forall|i: int| 0 <= i < x.len() implies is_ascii_char(#[trigger] x[i]) by {}
    if t is Own {
        assert(l =~= "own"@);
    } else if t is Watched {
        assert(l =~= "watched"@);
    } else if t is Contract {
        assert(l =~= "contract"@);
    } else if t is Exchange {
        assert(l =~= "exchange"@);
        assert(l[0] != "contract"@[0]);
    } else if t is MarketMaker {
        assert(l.len() == 12);
        assert(l[6] == ' ');
        assert(l != "market-maker"@);
    } else {
        assert(l =~= "other"@);
    }
}

/// Reads an address type, whatever its case: own, watched, contract,
/// exchange, market-maker (or mm), other. The text under which a type is
/// shown reads back as that type, but for `Market Maker`, which is refused.
pub fn parse_address_type(s: &str) -> (r: Result<AddressType, String>)
    ensures
        match address_type_named(lowercase(s@)) {
            Some(t) => r == Ok::<AddressType, String>(t),
            None => r matches Err(m) && m@ == invalid_type_message(s@),
        },
        forall|t: AddressType| #[trigger] address_type_text(t) == s@ ==> match t {
            AddressType::MarketMaker => r is Err,
            _ => r == Ok::<AddressType, String>(t),
        },
{
    let l = to_lowercase(s);
    proof {
        assert forall|t: AddressType| #[trigger] address_type_text(t) == s@ implies address_type_named(
            lowercase(s@),
        ) == (match t {
            AddressType::MarketMaker => None,
            _ => Some(t),
        }) by {
            lemma_type_text_lowered(t);
        }
    }
    let l = l.as_str();
    if str_eq(l, "own") {
        Ok(AddressType::Own)
    } else if str_eq(l, "watched") {
        Ok(AddressType::Watched)
    } else if str_eq(l, "contract") {
        Ok(AddressType::Contract)
    } else if str_eq(l, "exchange") {
        Ok(AddressType::Exchange)
    } else if str_eq(l, "market-maker") || str_eq(l, "mm") {
        Ok(AddressType::MarketMaker)
    } else if str_eq(l, "other") {
        Ok(AddressType::Other)
    } else {
        let mut m = String::from_str("Invalid address type: ");
        m.append(s);
        Err(m)
    }
}

/// The tags of a comma-separated list, each trimmed; none without a list.
pub open spec fn tags_of(s: Option<Seq<char>>) -> Seq<Seq<char>> {
    match s {
        Some(t) => split_on(t, ',').map_values(|p: Seq<char>| trim(p)),
        None => Seq::empty(),
    }
}

/// Reads a comma-separated list of tags, each trimmed.
pub fn parse_tags(s: Option<&str>) -> (r: Vec<String>)
    ensures
        strings_view(r@) == tags_of(
            match s {
                Some(t) => Some(t@),
                None => None,
            },
        ),
{
    match s {
        None => {
            let r: Vec<String> = Vec::new();
            proof {
                assert(strings_view(r@) =~= tags_of(None));
            }
            r
        },
        Some(t) => {
            let pieces = split_str(t, ',');
            let mut r: Vec<String> = Vec::new();
            let mut i: usize = 0;
            while i < pieces.len()
                invariant
                    i <= pieces.len(),
                    strings_view(pieces@) == split_on(t@, ','),
                    strings_view(r@) == strings_view(pieces@).take(i as int).map_values(
                        |p: Seq<char>| trim(p),
                    ),
                decreases pieces.len() - i,
            {
                let tt = trim_str(pieces[i].as_str());
                let ghost r0 = strings_view(r@);
                r.push(tt);
                proof {
                    assert(strings_view(r@) =~= r0.push(trim(strings_view(pieces@)[i as int])));
                    assert(strings_view(pieces@).take(i + 1).map_values(|p: Seq<char>| trim(p))
                        =~= strings_view(pieces@).take(i as int).map_values(
                        |p: Seq<char>| trim(p),
                    ).push(trim(strings_view(pieces@)[i as int])));
                }
                i = i + 1;
            }
            proof {
                assert(strings_view(pieces@).take(i as int) =~= strings_view(pieces@));
            }
            r
        },
    }
}

/// The sort field that a name selects: label, address, added, updated,
/// value, queries; any other name sorts by label.
pub open spec fn sort_field_named(s: Seq<char>) -> AddressSortField {
    if s == "address"@ {
        AddressSortField::Address
    } else if s == "added"@ {
        AddressSortField::AddedAt
    } else if s == "updated"@ {
        AddressSortField::UpdatedAt
    } else if s == "value"@ {
        AddressSortField::TotalValue
    } else if s == "queries"@ {
        AddressSortField::QueryCount
    } else {
        AddressSortField::Label
    }
}

/// Reads the sort field of a query.
pub fn parse_sort_field(s: &str) -> (r: AddressSortField)
    ensures
        r == sort_field_named(s@),
{
    if str_eq(s, "address") {
        AddressSortField::Address
    } else if str_eq(s, "added") {
        AddressSortField::AddedAt
    } else if str_eq(s, "updated") {
        AddressSortField::UpdatedAt
    } else if str_eq(s, "value") {
        AddressSortField::TotalValue
    } else if str_eq(s, "queries") {
        AddressSortField::QueryCount
    } else {
        AddressSortField::Label
    }
}

fn opt_str(o: &Option<String>) -> (r: Option<&str>)
    ensures
        match r {
            Some(t) => opt_view(*o) == Some(t@),
            None => o is None,
        },
{
    match o {
        Some(t) => Some(t.as_str()),
        None => None,
    }
}

fn clone_opt(o: &Option<String>) -> (r: Option<String>)
    ensures
        opt_view(r) == opt_view(*o),
{
    match o {
        Some(t) => Some(t.clone()),
        None => None,
    }
}

/// The query that the arguments of the query command describe, or the
/// message of the address type they name wrongly.
pub fn query_from_args(args: &QueryAddressArgs) -> (r: Result<AddressQuery, String>)
    ensures
        match args.address_type {
            Some(t) if address_type_named(lowercase(t@)) is None => r matches Err(m) && m@
                == invalid_type_message(t@),
            _ => r matches Ok(q) && q@.search == opt_view(args.search) && q@.address_type == (
            match args.address_type {
                Some(t) => address_type_named(lowercase(t@)),
                None => None,
            }) && q@.tags == tags_of(opt_view(args.tags)) && q@.active_only == args.active_only
                && q@.sort_by == sort_field_named(args.sort@) && q@.ascending == args.ascending
                && q@.limit == args.limit,
        },
{
    let address_type = match &args.address_type {
        Some(t) => match parse_address_type(t.as_str()) {
            Ok(a) => Some(a),
            Err(m) => {
                return Err(m);
            },
        },
        None => None,
    };
    let tags = parse_tags(opt_str(&args.tags));
    let sort_by = parse_sort_field(args.sort.as_str());
    Ok(
        AddressQuery {
            search: clone_opt(&args.search),
            address_type,
            tags,
            active_only: args.active_only,
            sort_by,
            ascending: args.ascending,
            limit: args.limit,
        },
    )
}

/// The entries that the own and watched flags of a listing keep: own
/// addresses with the first, else watched ones with the second, else all.
pub open spec fn kind_filtered(es: Seq<EntryView>, own: bool, watched: bool) -> Seq<EntryView> {
    if own {
        es.filter(|e: EntryView| e.address_type == AddressType::Own)
    } else if watched {
        es.filter(|e: EntryView| e.address_type == AddressType::Watched)
    } else {
        es
    }
}

/// Keeps the entries of type `t`, in order.
fn entries_of_type(entries: &Vec<AddressEntry>, t: AddressType) -> (r: Vec<AddressEntry>)
    ensures
        entries_view(r@) == entries_view(entries@).filter(|e: EntryView| e.address_type == t),
{
    let ghost f = |e: EntryView| e.address_type == t;
    let ghost all = entries_view(entries@);
    let mut r: Vec<AddressEntry> = Vec::new();
    let mut i: usize = 0;
    proof {
        assert(all.take(0).filter(f) =~= Seq::<EntryView>::empty());
    }
    while i < entries.len()
        invariant
            i <= entries.len(),
            all == entries_view(entries@),
            f == (|e: EntryView| e.address_type == t),
            entries_view(r@) == all.take(i as int).filter(f),
        decreases entries.len() - i,
    {
        proof {
            assert(all[i as int] == entries@[i as int]@);
            assert(all.take(i + 1) =~= all.take(i as int).push(all[i as int]));
            all.take(i as int).lemma_filter_push(all[i as int], f);
        }
        if entries[i].address_type == t {
            let e = entries[i].clone();
            let ghost r0 = r@;
            r.push(e);
            proof {
                assert(entries_view(r@) =~= entries_view(r0).push(e@));
            }
        }
        i = i + 1;
    }
    proof {
        assert(all.take(i as int) =~= all);
    }
    r
}

/// The entries that a listing shows: own addresses when `own` is set, else
/// watched ones when `watched` is set, else all of them.
pub fn filter_by_kind(entries: &Vec<AddressEntry>, own: bool, watched: bool) -> (r: Vec<
    AddressEntry,
>)
    ensures
        entries_view(r@) == kind_filtered(entries_view(entries@), own, watched),
{
    if own {
        entries_of_type(entries, AddressType::Own)
    } else if watched {
        entries_of_type(entries, AddressType::Watched)
    } else {
        let mut r: Vec<AddressEntry> = Vec::new();
        let mut i: usize = 0;
        while i < entries.len()
            invariant
                i <= entries.len(),
                entries_view(r@) == entries_view(entries@).take(i as int),
            decreases entries.len() - i,
        {
            let e = entries[i].clone();
            let ghost r0 = r@;
            r.push(e);
            proof {
                assert(entries_view(entries@)[i as int] == entries@[i as int]@);
                assert(entries_view(r@) =~= entries_view(r0).push(e@));
                assert(entries_view(r@) =~= entries_view(entries@).take(i + 1));
            }
            i = i + 1;
        }
        proof {
            assert(entries_view(entries@).take(i as int) =~= entries_view(entries@));
        }
        r
    }
}

/// `cur` with each tag of `add` appended, in order, unless it is already there.
pub open spec fn with_added(cur: Seq<Seq<char>>, add: Seq<Seq<char>>) -> Seq<Seq<char>>
    decreases add.len(),
{
    if add.len() == 0 {
        cur
    } else {
        let prev = with_added(cur, add.drop_last());
        if prev.contains(add.last()) {
            prev
        } else {
            prev.push(add.last())
        }
    }
}

/// `cur` without the tags of `rem`, in order.
pub open spec fn without(cur: Seq<Seq<char>>, rem: Seq<Seq<char>>) -> Seq<Seq<char>> {
    cur.filter(|t: Seq<char>| !rem.contains(t))
}

/// Whether `s` is among the strings of `v`.
pub fn contains_string(v: &Vec<String>, s: &str) -> (b: bool)
    ensures
        b == strings_view(v@).contains(s@),
{
    let mut i: usize = 0;
    while i < v.len()
        invariant
            i <= v.len(),
            forall|j: int| 0 <= j < i ==> strings_view(v@)[j] != s@,
        decreases v.len() - i,
    {
        if str_eq(v[i].as_str(), s) {
            proof {
                assert(strings_view(v@)[i as int] == s@);
            }
            return true;
        }
        i = i + 1;
    }
    false
}

/// `existing` with the tags of `new_tags` that it lacks appended, in order.
pub fn merge_tags(existing: &Vec<String>, new_tags: &Vec<String>) -> (r: Vec<String>)
    ensures
        strings_view(r@) == with_added(strings_view(existing@), strings_view(new_tags@)),
{
    let mut r: Vec<String> = Vec::new();
    let mut i: usize = 0;
    while i < existing.len()
        invariant
            i <= existing.len(),
            strings_view(r@) == strings_view(existing@).take(i as int),
        decreases existing.len() - i,
    {
        let ghost r0 = r@;
        let c = existing[i].clone();
        r.push(c);
        proof {
            assert(strings_view(r@) =~= strings_view(r0).push(c@));
            assert(strings_view(r@) =~= strings_view(existing@).take(i + 1));
        }
        i = i + 1;
    }
    proof {
        assert(strings_view(existing@).take(i as int) =~= strings_view(existing@));
        assert(strings_view(new_tags@).take(0) =~= Seq::<Seq<char>>::empty());
    }
    let ghost cur = strings_view(existing@);
    let ghost add = strings_view(new_tags@);
    let mut k: usize = 0;
    while k < new_tags.len()
        invariant
            k <= new_tags.len(),
            cur == strings_view(existing@),
            add == strings_view(new_tags@),
            strings_view(r@) == with_added(cur, add.take(k as int)),
        decreases new_tags.len() - k,
    {
        proof {
            assert(add.take(k + 1).drop_last() =~= add.take(k as int));
            assert(add.take(k + 1).last() == new_tags@[k as int]@);
        }
        if !contains_string(&r, new_tags[k].as_str()) {
            let ghost r0 = r@;
            r.push(new_tags[k].clone());
            proof {
                assert(strings_view(r@) =~= strings_view(r0).push(new_tags@[k as int]@));
            }
        }
        k = k + 1;
    }
    proof {
        assert(add.take(k as int) =~= add);
    }
    r
}

/// `cur` without the tags of `rem`, in order.
pub fn remove_tags(cur: &Vec<String>, rem: &Vec<String>) -> (r: Vec<String>)
    ensures
        strings_view(r@) == without(strings_view(cur@), strings_view(rem@)),
{
    let ghost c = strings_view(cur@);
    let ghost rm = strings_view(rem@);
    let ghost f = |t: Seq<char>| !rm.contains(t);
    let mut r: Vec<String> = Vec::new();
    let mut i: usize = 0;
    proof {
        assert(c.take(0).filter(f) =~= Seq::<Seq<char>>::empty());
    }
    while i < cur.len()
        invariant
            i <= cur.len(),
            c == strings_view(cur@),
            rm == strings_view(rem@),
            f == (|t: Seq<char>| !rm.contains(t)),
            strings_view(r@) == c.take(i as int).filter(f),
        decreases cur.len() - i,
    {
        proof {
            assert(c[i as int] == cur@[i as int]@);
            assert(c.take(i + 1) =~= c.take(i as int).push(c[i as int]));
            c.take(i as int).lemma_filter_push(c[i as int], f);
        }
        if !contains_string(rem, cur[i].as_str()) {
            let ghost r0 = r@;
            r.push(cur[i].clone());
            proof {
                assert(strings_view(r@) =~= strings_view(r0).push(c[i as int]));
            }
        }
        i = i + 1;
    }
    proof {
        assert(c.take(i as int) =~= c);
    }
    r
}

/// The label, description and notes of an edit after its clear option,
/// or nothing where the option names no field (label, description or notes,
/// whatever the case).
pub open spec fn cleared_fields(
    clear: Option<Seq<char>>,
    label: Option<Seq<char>>,
    description: Option<Seq<char>>,
    notes: Option<Seq<char>>,
) -> Option<(Option<Seq<char>>, Option<Seq<char>>, Option<Seq<char>>)> {
    match clear {
        None => Some((label, description, notes)),
        Some(c) => {
            let l = lowercase(c);
            if l == "label"@ {
                Some((Some(Seq::empty()), description, notes))
            } else if l == "description"@ {
                Some((label, Some(Seq::empty()), notes))
            } else if l == "notes"@ {
                Some((label, description, Some(Seq::empty())))
            } else {
                None
            }
        },
    }
}

/// The tags of an edited entry with tags `cur`: the list given to replace
/// them, else `cur` with the tags to add appended and the tags to remove
/// taken out, else nothing to change.
pub open spec fn edited_tags(
    cur: Seq<Seq<char>>,
    tags: Option<Seq<char>>,
    add: Option<Seq<char>>,
    remove: Option<Seq<char>>,
) -> Option<Seq<Seq<char>>> {
    match tags {
        Some(t) => Some(tags_of(Some(t))),
        None => if add is Some || remove is Some {
            let added = match add {
                Some(a) => with_added(cur, tags_of(Some(a))),
                None => cur,
            };
            Some(
                match remove {
                    Some(x) => without(added, tags_of(Some(x))),
                    None => added,
                },
            )
        } else {
            None
        },
    }
}

/// The value of an optional list of strings.
pub open spec fn opt_strings_view(o: Option<Vec<String>>) -> Option<Seq<Seq<char>>> {
    match o {
        Some(v) => Some(strings_view(v@)),
        None => None,
    }
}

/// The update that the edit command sends for one entry.
#[derive(Debug)]
pub struct EditPlan {
    pub address: String,
    pub label: Option<String>,
    pub description: Option<String>,
    pub tags: Option<Vec<String>>,
    pub is_active: Option<bool>,
    pub notes: Option<String>,
}

/// Why the edit command sends nothing.
#[derive(Debug)]
pub enum EditRefusal {
    /// The id is not below the number of entries.
    InvalidId { id: usize, count: usize },
    /// The clear option names no field.
    InvalidClearField(String),
}

fn clear_option(
    clear: &str,
    label: Option<String>,
    description: Option<String>,
    notes: Option<String>,
) -> (r: Option<(Option<String>, Option<String>, Option<String>)>)
    ensures
        match cleared_fields(Some(clear@), opt_view(label), opt_view(description), opt_view(notes)) {
            Some(f) => r matches Some(v) && f == (opt_view(v.0), opt_view(v.1), opt_view(v.2)),
            None => r is None,
        },
{
    let l = to_lowercase(clear);
    if str_eq(l.as_str(), "label") {
        Some((Some(String::new()), description, notes))
    } else if str_eq(l.as_str(), "description") {
        Some((label, Some(String::new()), notes))
    } else if str_eq(l.as_str(), "notes") {
        Some((label, description, Some(String::new())))
    } else {
        None
    }
}

fn tags_edit(
    cur: &Vec<String>,
    tags: &Option<String>,
    add: &Option<String>,
    remove: &Option<String>,
) -> (r: Option<Vec<String>>)
    ensures
        opt_strings_view(r) == edited_tags(
            strings_view(cur@),
            opt_view(*tags),
            opt_view(*add),
            opt_view(*remove),
        ),
{
    if let Some(t) = tags {
        return Some(parse_tags(Some(t.as_str())));
    }
    if add.is_none() && remove.is_none() {
        return None;
    }
    let added = match add {
        Some(a) => {
            let more = parse_tags(Some(a.as_str()));
            merge_tags(cur, &more)
        },
        None => {
            let empty: Vec<String> = Vec::new();
            let r = merge_tags(cur, &empty);
            proof {
                assert(strings_view(empty@) =~= Seq::<Seq<char>>::empty());
            }
            r
        },
    };
    match remove {
        Some(x) => {
            let gone = parse_tags(Some(x.as_str()));
            Some(remove_tags(&added, &gone))
        },
        None => Some(added),
    }
}

/// What the edit command sends for entry `args.id` of the listing
/// `entries`: the id is checked first, then the clear option; tags given in
/// full replace the entry's, tags to add and to remove edit them.
pub fn plan_edit(args: &EditAddressArgs, entries: &Vec<AddressEntry>) -> (r: Result<
    EditPlan,
    EditRefusal,
>)
    ensures
        args.id >= entries@.len() ==> (r matches Err(EditRefusal::InvalidId { id, count }) && id
            == args.id && count == entries@.len()),
        args.id < entries@.len() ==> match cleared_fields(
            opt_view(args.clear),
            opt_view(args.label),
            opt_view(args.description),
            opt_view(args.notes),
        ) {
            None => r matches Err(EditRefusal::InvalidClearField(c)) && Some(c@) == opt_view(
                args.clear,
            ),
            Some(f) => r matches Ok(p) && p.address@ == entries@[args.id as int].address@ && f == (
            opt_view(p.label), opt_view(p.description), opt_view(p.notes)) && opt_strings_view(
                p.tags,
            ) == edited_tags(
                strings_view(entries@[args.id as int].tags@),
                opt_view(args.tags),
                opt_view(args.add_tags),
                opt_view(args.remove_tags),
            ) && p.is_active == args.active,
        },
{
    if args.id >= entries.len() {
        return Err(EditRefusal::InvalidId { id: args.id, count: entries.len() });
    }
    let entry = &entries[args.id];
    let label = clone_opt(&args.label);
    let description = clone_opt(&args.description);
    let notes = clone_opt(&args.notes);
    let fields = match &args.clear {
        Some(c) => match clear_option(c.as_str(), label, description, notes) {
            Some(f) => f,
            None => {
                return Err(EditRefusal::InvalidClearField(c.clone()));
            },
        },
        None => (label, description, notes),
    };
    let tags = tags_edit(&entry.tags, &args.tags, &args.add_tags, &args.remove_tags);
    let (label, description, notes) = fields;
    Ok(
        EditPlan {
            address: entry.address.clone(),
            label,
            description,
            tags,
            is_active: args.active,
            notes,
        },
    )
}

/// The query that selects the entries to tag: by pattern (and type, if
/// given), else by type alone; `None` where neither is given or the tag list
/// is empty. `Err` carries the message of a wrongly named type.
pub fn plan_tag(args: &TagAddressesArgs) -> (r: Result<Option<AddressQuery>, String>)
    ensures
        tags_of(Some(args.tags@)).len() == 0 ==> r == Ok::<Option<AddressQuery>, String>(None),
        tags_of(Some(args.tags@)).len() > 0 ==> match args.address_type {
            Some(t) if address_type_named(lowercase(t@)) is None => r matches Err(m) && m@
                == invalid_type_message(t@),
            _ => match (args.pattern, args.address_type) {
                (None, None) => r == Ok::<Option<AddressQuery>, String>(None),
                (p, t) => r matches Ok(Some(q)) && q@.search == opt_view(p) && q@.address_type == (
                match t {
                    Some(n) => address_type_named(lowercase(n@)),
                    None => None,
                }) && q@.tags.len() == 0 && !q@.active_only && q@.sort_by
                    == AddressSortField::Label && !q@.ascending && q@.limit is None,
            },
        },
{
    let new_tags = parse_tags(Some(args.tags.as_str()));
    if new_tags.len() == 0 {
        return Ok(None);
    }
    if args.pattern.is_none() && args.address_type.is_none() {
        return Ok(None);
    }
    let address_type = match &args.address_type {
        Some(t) => match parse_address_type(t.as_str()) {
            Ok(a) => Some(a),
            Err(m) => {
                return Err(m);
            },
        },
        None => None,
    };
    let mut q = AddressQuery::default();
    q.search = clone_opt(&args.pattern);
    q.address_type = address_type;
    Ok(Some(q))
}

/// Keeps the active entries, in order.
pub fn active_entries(entries: &Vec<AddressEntry>) -> (r: Vec<AddressEntry>)
    ensures
        entries_view(r@) == entries_view(entries@).filter(|e: EntryView| e.is_active),
{
    let ghost f = |e: EntryView| e.is_active;
    let ghost all = entries_view(entries@);
    let mut r: Vec<AddressEntry> = Vec::new();
    let mut i: usize = 0;
    proof {
        assert(all.take(0).filter(f) =~= Seq::<EntryView>::empty());
    }
    while i < entries.len()
        invariant
            i <= entries.len(),
            all == entries_view(entries@),
            f == (|e: EntryView| e.is_active),
            entries_view(r@) == all.take(i as int).filter(f),
        decreases entries.len() - i,
    {
        proof {
            assert(all[i as int] == entries@[i as int]@);
            assert(all.take(i + 1) =~= all.take(i as int).push(all[i as int]));
            all.take(i as int).lemma_filter_push(all[i as int], f);
        }
        if entries[i].is_active {
            let e = entries[i].clone();
            let ghost r0 = r@;
            r.push(e);
            proof {
                assert(entries_view(r@) =~= entries_view(r0).push(e@));
            }
        }
        i = i + 1;
    }
    proof {
        assert(all.take(i as int) =~= all);
    }
    r
}

} // verus!
