//! The address book service: what each command does to the book.
//!
//! Each handler takes the book and the time of the command; the caller keeps
//! the book, saves it to disk after a change and answers the command.

use vstd::prelude::*;
use crate::address_book::query::{
    limited, matching, query_ok, refs_view, sorted_for, stable_sorted, QueryView,
};
use crate::address_book::storage::{
    address_body, all_hex, canonical_address, checksum_address, validate_address,
    AddressBookError,
};
use crate::address_book::types::{
    address_index, clone_opt_string, fresh_entry, has_address, has_label, label_index,
    label_insert, label_remove, lemma_address_index, lemma_label_index, lookup, opt_view,
    strings_view, AddressBook, AddressBookMetadata, AddressEntry, AddressQuery,
    AddressSortField, AddressType, BookView, EntryView, MetadataView, entries_view, unique_labels,
};
use crate::text::utf8_len;
use crate::address_book::laws::lemma_validated_is_canonical;

verus! {

/// Errors of the service handlers.
#[derive(Debug)]
pub enum ServiceError {
    /// An address book error.
    Book(AddressBookError),
    /// Any other failure, with its message.
    Failed(String),
}

/// The address key a command names: the validated form of `address`, which
/// checksumming leaves as it is, or `None` when `address` is not a valid
/// address.
pub open spec fn address_key(address: Seq<char>) -> Option<Seq<char>> {
    if utf8_len(address_body(address)) == 40 && all_hex(address_body(address)) {
        Some(canonical_address(address_body(address)))
    } else {
        None
    }
}

/// Validates and checksums an address as every handler does first.
fn key_of(address: &str) -> (r: Result<String, AddressBookError>)
    ensures
        r is Ok <==> address_key(address@) is Some,
        r matches Ok(k) ==> address_key(address@) == Some(k@),
        r matches Err(e) ==> e is InvalidAddress,
{
    let v = validate_address(address)?;
    proof {
        lemma_validated_is_canonical(address@);
    }
    Ok(checksum_address(v.as_str()))
}

/// The entry a successful `handle_add_address` creates.
pub open spec fn added_entry(
    key: Seq<char>,
    label: Option<Seq<char>>,
    description: Option<Seq<char>>,
    address_type: AddressType,
    tags: Seq<Seq<char>>,
    now: i64,
) -> EntryView {
    EntryView { label, description, tags, ..fresh_entry(key, address_type, now) }
}

/// Adds a new address at time `now`: the address is validated and
/// checksummed, must not be in the book yet, and its label, if any, must not
/// be in use. Returns the new entry.
pub fn handle_add_address(
    book: &mut AddressBook,
    address: String,
    label: Option<String>,
    description: Option<String>,
    address_type: AddressType,
    tags: Vec<String>,
    now: i64,
) -> (r: Result<AddressEntry, AddressBookError>)
    requires
        old(book).wf(),
        old(book).metadata.total_addresses < usize::MAX,
    ensures
        final(book).wf(),
        address_key(address@) is None ==> (r matches Err(e) && e is InvalidAddress && final(book)@
            == old(book)@),
        address_key(address@) matches Some(key) ==> {
            if has_address(old(book)@.entries, key) {
                &&& r matches Err(e) && e is AddressExists && e->AddressExists_0@ == key
                &&& final(book)@ == old(book)@
            } else if label is Some && has_label(old(book)@.labels, label->0@) {
                &&& r matches Err(e) && e is LabelExists && e->LabelExists_0@ == label->0@
                &&& final(book)@ == old(book)@
            } else {
                let e = added_entry(
                    key,
                    opt_view(label),
                    opt_view(description),
                    address_type,
                    strings_view(tags@),
                    now,
                );
                &&& r matches Ok(x) && x@ == e
                &&& final(book)@.entries == old(book)@.entries.push(e)
                &&& final(book)@.labels == match e.label {
                    Some(l) => label_insert(old(book)@.labels, l, key),
                    None => old(book)@.labels,
                }
                &&& final(book)@.metadata.total_addresses == old(book)@.metadata.total_addresses
                    + 1
                &&& final(book)@.metadata.updated_at == now
            }
        },
{
    let key = match key_of(address.as_str()) {
        Ok(k) => k,
        Err(e) => {
            return Err(e);
        },
    };
    if book.find_address(key.as_str()).is_some() {
        return Err(AddressBookError::AddressExists(key));
    }
    if let Some(l) = &label {
        if book.find_label(l.as_str()).is_some() {
            return Err(AddressBookError::LabelExists(l.clone()));
        }
    }
    let mut entry = AddressEntry::new_at(key, address_type, now);
    entry.label = label;
    entry.description = description;
    entry.tags = tags;
    let stored = entry.clone();
    book.upsert_entry_at(stored, now);
    Ok(entry)
}

/// The entry after `handle_update_address` applied its arguments at `now`.
pub open spec fn updated_entry(
    e: EntryView,
    label: Option<Seq<char>>,
    description: Option<Seq<char>>,
    tags: Option<Seq<Seq<char>>>,
    is_active: Option<bool>,
    notes: Option<Seq<char>>,
    now: i64,
) -> EntryView {
    EntryView {
        label: if label is Some {
            label
        } else {
            e.label
        },
        description: if description is Some {
            description
        } else {
            e.description
        },
        tags: match tags {
            Some(t) => t,
            None => e.tags,
        },
        is_active: match is_active {
            Some(b) => b,
            None => e.is_active,
        },
        notes: if notes is Some {
            notes
        } else {
            e.notes
        },
        metadata: MetadataView { updated_at: now, ..e.metadata },
        ..e
    }
}

/// An update replaces each field that is given and keeps each one that is
/// not: a given label, description, tag list, active flag or note becomes
/// the entry's, an absent one leaves the stored value; the update time
/// becomes `now`, and the address, type, statistics, time added and query
/// count stay.
pub proof fn lemma_update_replaces_given_fields(
    e: EntryView,
    label: Option<Seq<char>>,
    description: Option<Seq<char>>,
    tags: Option<Seq<Seq<char>>>,
    is_active: Option<bool>,
    notes: Option<Seq<char>>,
    now: i64,
)
    ensures
        ({
            let r = updated_entry(e, label, description, tags, is_active, notes, now);
            &&& r.label == (match label {
                Some(l) => Some(l),
                None => e.label,
            })
            &&& r.description == (match description {
                Some(d) => Some(d),
                None => e.description,
            })
            &&& r.tags == (match tags {
                Some(t) => t,
                None => e.tags,
            })
            &&& r.is_active == (match is_active {
                Some(b) => b,
                None => e.is_active,
            })
            &&& r.notes == (match notes {
                Some(n) => Some(n),
                None => e.notes,
            })
            &&& r.metadata.updated_at == now
            &&& r.address == e.address
            &&& r.address_type == e.address_type
            &&& r.stats == e.stats
            &&& r.metadata.added_at == e.metadata.added_at
            &&& r.metadata.query_count == e.metadata.query_count
        }),
{
}

/// The label index after an entry with address `key` went from label `old`
/// to label `new`.
pub open spec fn relabeled(
    ls: Seq<(Seq<char>, Seq<char>)>,
    old: Option<Seq<char>>,
    new: Option<Seq<char>>,
    key: Seq<char>,
) -> Seq<(Seq<char>, Seq<char>)> {
    match new {
        Some(n) => {
            let ls1 = match old {
                Some(o) => if o != n {
                    label_remove(ls, o)
                } else {
                    ls
                },
                None => ls,
            };
            label_insert(ls1, n, key)
        },
        None => ls,
    }
}

proof fn lemma_label_remove_keeps(ls: Seq<(Seq<char>, Seq<char>)>, o: Seq<char>)
    requires
        unique_labels(ls),
    ensures
        unique_labels(label_remove(ls, o)),
        !has_label(label_remove(ls, o), o),
        forall|l: Seq<char>|
            l != o ==> (has_label(label_remove(ls, o), l) == has_label(ls, l) && (has_label(ls, l)
                ==> label_remove(ls, o)[label_index(label_remove(ls, o), l)].1 == ls[label_index(
                ls,
                l,
            )].1)),
{
    let r = label_remove(ls, o);
    if has_label(ls, o) {
        let k = label_index(ls, o);
        assert(0 <= k < ls.len() && ls[k].0 == o);
        assert forall|i: int| 0 <= i < r.len() implies (if i < k {
            r[i] == ls[i]
        } else {
            r[i] == ls[i + 1]
        }) by {}
        assert forall|i: int, j: int|
            0 <= i < r.len() && 0 <= j < r.len() && i != j implies (#[trigger] r[i]).0 != (
            #[trigger] r[j]).0 by {
            let a = if i < k {
                i
            } else {
                i + 1
            };
            let b = if j < k {
                j
            } else {
                j + 1
            };
            assert(r[i] == ls[a] && r[j] == ls[b]);
        }
        if has_label(r, o) {
            let i = choose|i: int| 0 <= i < r.len() && (#[trigger] r[i]).0 == o;
            let a = if i < k {
                i
            } else {
                i + 1
            };
            assert(r[i] == ls[a]);
        }
        assert forall|l: Seq<char>| l != o implies (has_label(r, l) == has_label(ls, l) && (
        has_label(ls, l) ==> r[label_index(r, l)].1 == ls[label_index(ls, l)].1)) by {
            if has_label(ls, l) {
                let j = label_index(ls, l);
                let i = if j < k {
                    j
                } else {
                    j - 1
                };
                assert(j != k);
                assert(r[i] == ls[j]);
                lemma_label_index(r, i);
                lemma_label_index(ls, j);
            }
            if has_label(r, l) {
                let i = choose|i: int| 0 <= i < r.len() && (#[trigger] r[i]).0 == l;
                let a = if i < k {
                    i
                } else {
                    i + 1
                };
                assert(r[i] == ls[a]);
            }
        }
    }
}

proof fn lemma_label_insert_sets(ls: Seq<(Seq<char>, Seq<char>)>, n: Seq<char>, key: Seq<char>)
    requires
        unique_labels(ls),
    ensures
        unique_labels(label_insert(ls, n, key)),
        has_label(label_insert(ls, n, key), n),
        label_insert(ls, n, key)[label_index(label_insert(ls, n, key), n)].1 == key,
        forall|l: Seq<char>|
            l != n ==> (has_label(label_insert(ls, n, key), l) == has_label(ls, l) && (has_label(
                ls,
                l,
            ) ==> label_insert(ls, n, key)[label_index(label_insert(ls, n, key), l)].1
                == ls[label_index(ls, l)].1)),
{
    let r = label_insert(ls, n, key);
    if has_label(ls, n) {
        let k = label_index(ls, n);
        assert forall|i: int, j: int|
            0 <= i < r.len() && 0 <= j < r.len() && i != j implies (#[trigger] r[i]).0 != (
            #[trigger] r[j]).0 by {
            assert(r[i].0 == ls[i].0 && r[j].0 == ls[j].0);
        }
        lemma_label_index(r, k);
        assert forall|l: Seq<char>| l != n implies (has_label(r, l) == has_label(ls, l) && (
        has_label(ls, l) ==> r[label_index(r, l)].1 == ls[label_index(ls, l)].1)) by {
            if has_label(ls, l) {
                let j = label_index(ls, l);
                assert(r[j] == ls[j]);
                lemma_label_index(r, j);
            }
            if has_label(r, l) {
                let i = choose|i: int| 0 <= i < r.len() && (#[trigger] r[i]).0 == l;
                assert(r[i].0 == ls[i].0);
            }
        }
    } else {
        let k = ls.len() as int;
        assert forall|i: int, j: int|
            0 <= i < r.len() && 0 <= j < r.len() && i != j implies (#[trigger] r[i]).0 != (
            #[trigger] r[j]).0 by {
            if i < k && j < k {
                assert(r[i] == ls[i] && r[j] == ls[j]);
            } else if i < k {
                assert(r[i] == ls[i]);
            } else if j < k {
                assert(r[j] == ls[j]);
            }
        }
        lemma_label_index(r, k);
        assert forall|l: Seq<char>| l != n implies (has_label(r, l) == has_label(ls, l) && (
        has_label(ls, l) ==> r[label_index(r, l)].1 == ls[label_index(ls, l)].1)) by {
            if has_label(ls, l) {
                let j = label_index(ls, l);
                assert(r[j] == ls[j]);
                lemma_label_index(r, j);
            }
            if has_label(r, l) {
                let i = choose|i: int| 0 <= i < r.len() && (#[trigger] r[i]).0 == l;
                if i < k {
                    assert(r[i] == ls[i]);
                }
            }
        }
    }
}

/// After an update, the label index finds the entry under its new label;
/// the label it had before, if it was another, no longer names anything;
/// every other label names what it named before; and without a new label
/// the index stays as it was.
pub proof fn lemma_relabel_lookup(
    ls: Seq<(Seq<char>, Seq<char>)>,
    old: Option<Seq<char>>,
    new: Option<Seq<char>>,
    key: Seq<char>,
)
    requires
        unique_labels(ls),
    ensures
        unique_labels(relabeled(ls, old, new, key)),
        new is None ==> relabeled(ls, old, new, key) == ls,
        new matches Some(n) ==> has_label(relabeled(ls, old, new, key), n) && relabeled(
            ls,
            old,
            new,
            key,
        )[label_index(relabeled(ls, old, new, key), n)].1 == key,
        (new matches Some(n) && old matches Some(o) && o != n) ==> !has_label(
            relabeled(ls, old, new, key),
            old->0,
        ),
        forall|l: Seq<char>|
            Some(l) != new && Some(l) != old ==> (has_label(relabeled(ls, old, new, key), l)
                == has_label(ls, l) && (has_label(ls, l) ==> relabeled(ls, old, new, key)[label_index(
                relabeled(ls, old, new, key),
                l,
            )].1 == ls[label_index(ls, l)].1)),
{
    if let Some(n) = new {
        let ls1 = match old {
            Some(o) => if o != n {
                label_remove(ls, o)
            } else {
                ls
            },
            None => ls,
        };
        if let Some(o) = old {
            if o != n {
                lemma_label_remove_keeps(ls, o);
            }
        }
        lemma_label_insert_sets(ls1, n, key);
    }
}

/// Updates the fields of an existing address at time `now`: each given field
/// replaces the stored one. A new label must not belong to another address;
/// the label index follows the entry's label. Returns the updated entry.
pub fn handle_update_address(
    book: &mut AddressBook,
    address: String,
    label: Option<String>,
    description: Option<String>,
    tags: Option<Vec<String>>,
    is_active: Option<bool>,
    notes: Option<String>,
    now: i64,
) -> (r: Result<AddressEntry, AddressBookError>)
    requires
        old(book).wf(),
    ensures
        final(book).wf(),
        address_key(address@) is None ==> (r matches Err(e) && e is InvalidAddress && final(book)@
            == old(book)@),
        address_key(address@) matches Some(key) ==> {
            let ls = old(book)@.labels;
            if !has_address(old(book)@.entries, key) {
                &&& r matches Err(e) && e is AddressNotFound && e->AddressNotFound_0@ == key
                &&& final(book)@ == old(book)@
            } else if label is Some && has_label(ls, label->0@) && ls[label_index(
                ls,
                label->0@,
            )].1 != key {
                &&& r matches Err(e) && e is LabelExists && e->LabelExists_0@ == label->0@
                &&& final(book)@ == old(book)@
            } else {
                let i = address_index(old(book)@.entries, key);
                let old_e = old(book)@.entries[i];
                let e = updated_entry(
                    old_e,
                    opt_view(label),
                    opt_view(description),
                    match tags {
                        Some(t) => Some(strings_view(t@)),
                        None => None,
                    },
                    is_active,
                    opt_view(notes),
                    now,
                );
                &&& r matches Ok(x) && x@ == e
                &&& final(book)@ == (BookView {
                    entries: old(book)@.entries.update(i, e),
                    labels: relabeled(ls, old_e.label, e.label, key),
                    ..old(book)@
                })
            }
        },
{
    let key = match key_of(address.as_str()) {
        Ok(k) => k,
        Err(e) => {
            return Err(e);
        },
    };
    let i = match book.find_address(key.as_str()) {
        Some(i) => i,
        None => {
            return Err(AddressBookError::AddressNotFound(key));
        },
    };
    proof {
        lemma_address_index(book@.entries, i as int);
    }
    if let Some(nl) = &label {
        if let Some(j) = book.find_label(nl.as_str()) {
            proof {
                lemma_label_index(book@.labels, j as int);
            }
            if !crate::address_book::types::str_eq(book.labels[j].1.as_str(), key.as_str()) {
                return Err(AddressBookError::LabelExists(nl.clone()));
            }
        }
    }
    let ghost b0 = book@;
    let mut e = book.entries[i].clone();
    let old_label = clone_opt_string(&e.label);
    if let Some(nl) = label {
        e.label = Some(nl);
    }
    if description.is_some() {
        e.description = description;
    }
    if let Some(t) = tags {
        e.tags = t;
    }
    if let Some(b) = is_active {
        e.is_active = b;
    }
    if notes.is_some() {
        e.notes = notes;
    }
    e.metadata.updated_at = now;
    let updated = e.clone();
    book.entries[i] = e;
    proof {
        assert(entries_view(book.entries@) =~= b0.entries.update(i as int, updated@));
        assert forall|x: int, y: int|
            0 <= x < book@.entries.len() && 0 <= y < book@.entries.len() && x != y
                implies (#[trigger] book@.entries[x]).address != (#[trigger] book@.entries[y]).address by {
            assert(book@.entries[x].address == b0.entries[x].address);
            assert(book@.entries[y].address == b0.entries[y].address);
        }
    }
    if let Some(nl) = &updated.label {
        if let Some(ol) = &old_label {
            if !crate::address_book::types::str_eq(ol.as_str(), nl.as_str()) {
                book.unset_label(ol.as_str());
            }
        }
        book.set_label(nl.clone(), key.clone());
    }
    Ok(updated)
}

/// Removes an address at time `now`; fails when the book lacks it.
pub fn handle_remove_address(book: &mut AddressBook, address: String, now: i64) -> (r: Result<
    (),
    AddressBookError,
>)
    requires
        old(book).wf(),
        old(book).metadata.total_addresses > 0 || old(book)@.entries.len() == 0,
    ensures
        final(book).wf(),
        address_key(address@) is None ==> (r matches Err(e) && e is InvalidAddress && final(book)@
            == old(book)@),
        address_key(address@) matches Some(key) ==> {
            if !has_address(old(book)@.entries, key) {
                &&& r matches Err(e) && e is AddressNotFound && e->AddressNotFound_0@ == key
                &&& final(book)@ == old(book)@
            } else {
                let i = address_index(old(book)@.entries, key);
                &&& r is Ok
                &&& final(book)@.entries == old(book)@.entries.remove(i)
                &&& final(book)@.labels == match old(book)@.entries[i].label {
                    Some(l) => label_remove(old(book)@.labels, l),
                    None => old(book)@.labels,
                }
                &&& final(book)@.metadata.total_addresses == old(book)@.metadata.total_addresses
                    - 1
                &&& final(book)@.metadata.updated_at == now
            }
        },
{
    let key = match key_of(address.as_str()) {
        Ok(k) => k,
        Err(e) => {
            return Err(e);
        },
    };
    match book.remove_entry_at(key.as_str(), now) {
        Some(_) => Ok(()),
        None => Err(AddressBookError::AddressNotFound(key)),
    }
}

/// Makes an address the current one at time `now`.
pub fn handle_set_current_address(book: &mut AddressBook, address: String, now: i64) -> (r: Result<
    (),
    ServiceError,
>)
    requires
        old(book).wf(),
    ensures
        final(book).wf(),
        address_key(address@) is None ==> (r matches Err(e) && e matches ServiceError::Book(b)
            && b is InvalidAddress && final(book)@ == old(book)@),
        address_key(address@) matches Some(key) ==> {
            if !has_address(old(book)@.entries, key) {
                &&& r matches Err(e) && e matches ServiceError::Failed(m) && m@
                    == "Address not found in address book"@
                &&& final(book)@ == old(book)@
            } else {
                &&& r is Ok
                &&& final(book)@ == (BookView {
                    entries: crate::address_book::types::mark_current(
                        old(book)@.entries,
                        address_index(old(book)@.entries, key),
                    ),
                    current_address: Some(key),
                    metadata: AddressBookMetadata { updated_at: now, ..old(book)@.metadata },
                    ..old(book)@
                })
            }
        },
{
    let key = match key_of(address.as_str()) {
        Ok(k) => k,
        Err(e) => {
            return Err(ServiceError::Book(e));
        },
    };
    match book.set_current_at(key.as_str(), now) {
        Ok(()) => Ok(()),
        Err(m) => Err(ServiceError::Failed(m)),
    }
}

/// The entry of the current address, if it is set and in the book.
pub fn handle_get_current_address(book: &AddressBook) -> (r: Option<AddressEntry>)
    requires
        book.wf(),
    ensures
        match book@.current_address {
            Some(a) => if has_address(book@.entries, a) {
                r matches Some(e) && e@ == book@.entries[address_index(book@.entries, a)]
            } else {
                r is None
            },
            None => r is None,
        },
{
    match &book.current_address {
        Some(a) => match book.find_address(a.as_str()) {
            Some(i) => {
                proof {
                    lemma_address_index(book@.entries, i as int);
                }
                Some(book.entries[i].clone())
            },
            None => None,
        },
        None => None,
    }
}

/// The address book metadata.
pub fn handle_get_stats(book: &AddressBook) -> (r: AddressBookMetadata)
    ensures
        r == book@.metadata,
{
    book.metadata
}

/// Copies of the referenced entries.
pub fn clone_refs(v: &Vec<&AddressEntry>) -> (r: Vec<AddressEntry>)
    ensures
        entries_view(r@) == refs_view(v@),
{
    let mut r: Vec<AddressEntry> = Vec::new();
    let mut i: usize = 0;
    while i < v.len()
        invariant
            i <= v.len(),
            entries_view(r@) == refs_view(v@).take(i as int),
        decreases v.len() - i,
    {
        let src: &AddressEntry = v[i];
        let e = src.clone();
        proof {
            assert(e@ == src@);
            assert(refs_view(v@)[i as int] == src@);
        }
        let ghost r0 = r@;
        let ghost ev = e@;
        r.push(e);
        proof {
            assert(entries_view(r@) =~= entries_view(r0).push(ev));
            assert(refs_view(v@).take(i + 1) =~= refs_view(v@).take(i as int).push(ev));
            assert(entries_view(r@) =~= refs_view(v@).take(i + 1));
        }
        i = i + 1;
    }
    proof {
        assert(refs_view(v@).take(i as int) =~= refs_view(v@));
    }
    r
}

/// `e` after one more query at time `now`.
pub open spec fn recorded(e: EntryView, now: i64) -> EntryView {
    EntryView {
        metadata: MetadataView {
            query_count: (e.metadata.query_count + 1) as u64,
            last_queried: Some(now),
            ..e.metadata
        },
        ..e
    }
}

/// Some entry of `rs` has address `a`.
pub open spec fn mentions(rs: Seq<EntryView>, a: Seq<char>) -> bool {
    exists|j: int| 0 <= j < rs.len() && (#[trigger] rs[j]).address == a
}

/// No entry has reached the largest query count.
pub open spec fn counts_below_max(es: Seq<EntryView>) -> bool {
    forall|k: int| 0 <= k < es.len() ==> (#[trigger] es[k]).metadata.query_count < u64::MAX
}

fn mentions_exec(rs: &Vec<AddressEntry>, a: &String) -> (b: bool)
    ensures
        b == mentions(entries_view(rs@), a@),
{
    let mut j: usize = 0;
    while j < rs.len()
        invariant
            j <= rs.len(),
            forall|t: int| 0 <= t < j ==> (#[trigger] entries_view(rs@)[t]).address != a@,
        decreases rs.len() - j,
    {
        if crate::address_book::types::str_eq(rs[j].address.as_str(), a.as_str()) {
            proof {
                assert(entries_view(rs@)[j as int].address == a@);
            }
            return true;
        }
        j = j + 1;
    }
    false
}

/// Counts a query, made at `now`, on every entry whose address is among `rs`.
fn record_queries(book: &mut AddressBook, rs: &Vec<AddressEntry>, now: i64)
    requires
        old(book).wf(),
        counts_below_max(old(book)@.entries),
    ensures
        final(book).wf(),
        final(book)@ == (BookView {
            entries: Seq::new(
                old(book)@.entries.len(),
                |k: int|
                    if mentions(entries_view(rs@), old(book)@.entries[k].address) {
                        recorded(old(book)@.entries[k], now)
                    } else {
                        old(book)@.entries[k]
                    },
            ),
            ..old(book)@
        }),
{
    let ghost b0 = book@;
    let mut k: usize = 0;
    while k < book.entries.len()
        invariant
            k <= book.entries.len() == b0.entries.len(),
            book@.labels == b0.labels,
            book@.version == b0.version,
            book@.metadata == b0.metadata,
            book@.current_address == b0.current_address,
            counts_below_max(b0.entries),
            forall|m: int|
                0 <= m < k ==> book@.entries[m] == if mentions(
                    entries_view(rs@),
                    b0.entries[m].address,
                ) {
                    recorded(b0.entries[m], now)
                } else {
                    b0.entries[m]
                },
            forall|m: int| k <= m < b0.entries.len() ==> book@.entries[m] == b0.entries[m],
        decreases book.entries.len() - k,
    {
        proof {
            assert(book@.entries[k as int] == b0.entries[k as int]);
        }
        if mentions_exec(rs, &book.entries[k].address) {
            let ghost before = book.entries@;
            book.entries[k].record_query_at(now);
            proof {
                assert(entries_view(book.entries@) =~= entries_view(before).update(
                    k as int,
                    book.entries@[k as int]@,
                ));
                assert forall|m: int| 0 <= m < k + 1 implies book@.entries[m] == if mentions(
                    entries_view(rs@),
                    b0.entries[m].address,
                ) {
                    recorded(b0.entries[m], now)
                } else {
                    b0.entries[m]
                } by {
                    if m < k {
                        assert(book@.entries[m] == entries_view(before)[m]);
                    }
                }
            }
        }
        k = k + 1;
    }
    proof {
        let target = Seq::new(
            b0.entries.len(),
            |k: int|
                if mentions(entries_view(rs@), b0.entries[k].address) {
                    recorded(b0.entries[k], now)
                } else {
                    b0.entries[k]
                },
        );
        assert(book@.entries =~= target);
        assert forall|x: int, y: int|
            0 <= x < book@.entries.len() && 0 <= y < book@.entries.len() && x != y
                implies (#[trigger] book@.entries[x]).address != (#[trigger] book@.entries[y]).address by {
            assert(book@.entries[x].address == b0.entries[x].address);
            assert(book@.entries[y].address == b0.entries[y].address);
        }
    }
}

/// Runs a query and, when it finds anything, counts one query at `now` on
/// each entry found. Returns the entries as they were before the count.
pub fn handle_query_addresses(book: &mut AddressBook, query: AddressQuery, now: i64) -> (r: Vec<
    AddressEntry,
>)
    requires
        old(book).wf(),
        query_ok(query@, old(book)@.entries),
        counts_below_max(old(book)@.entries),
    ensures
        final(book).wf(),
        entries_view(r@) == limited(
            query@,
            stable_sorted(query@, matching(query@, old(book)@.entries)),
        ),
        stable_sorted(query@, matching(query@, old(book)@.entries)).to_multiset() == matching(
            query@,
            old(book)@.entries,
        ).to_multiset(),
        sorted_for(query@, stable_sorted(query@, matching(query@, old(book)@.entries))),
        final(book)@ == (BookView {
            entries: Seq::new(
                old(book)@.entries.len(),
                |k: int|
                    if mentions(entries_view(r@), old(book)@.entries[k].address) {
                        recorded(old(book)@.entries[k], now)
                    } else {
                        old(book)@.entries[k]
                    },
            ),
            ..old(book)@
        }),
{
    let results = {
        let found = book.query(&query);
        clone_refs(&found)
    };
    if results.len() > 0 {
        record_queries(book, &results, now);
    } else {
        proof {
            let target = Seq::new(
                old(book)@.entries.len(),
                |k: int|
                    if mentions(entries_view(results@), old(book)@.entries[k].address) {
                        recorded(old(book)@.entries[k], now)
                    } else {
                        old(book)@.entries[k]
                    },
            );
            assert(book@.entries =~= target);
        }
    }
    results
}

/// Looks up an address or label and, when found, counts one query at `now`
/// on that entry. Returns the entry as it was before the count.
pub fn handle_get_address(book: &mut AddressBook, address_or_label: String, now: i64) -> (r: Option<
    AddressEntry,
>)
    requires
        old(book).wf(),
        counts_below_max(old(book)@.entries),
    ensures
        final(book).wf(),
        match r {
            Some(e) => lookup(old(book)@, address_or_label@) == Some(e@) && final(book)@ == (BookView {
                entries: old(book)@.entries.update(
                    address_index(old(book)@.entries, e@.address),
                    recorded(e@, now),
                ),
                ..old(book)@
            }),
            None => lookup(old(book)@, address_or_label@) is None && final(book)@ == old(book)@,
        },
{
    let found = match book.get_entry(address_or_label.as_str()) {
        Some(e) => Some(e.clone()),
        None => None,
    };
    if let Some(e) = &found {
        if let Some(i) = book.find_address(e.address.as_str()) {
            proof {
                lemma_address_index(book@.entries, i as int);
                assert(has_address(book@.entries, e@.address)) by {
                    assert(book@.entries[i as int].address == e@.address);
                }
            }
            let ghost before = book.entries@;
            let ghost b0 = book@;
            book.entries[i].record_query_at(now);
            proof {
                assert(entries_view(book.entries@) =~= entries_view(before).update(
                    i as int,
                    book.entries@[i as int]@,
                ));
                assert forall|x: int, y: int|
                    0 <= x < book@.entries.len() && 0 <= y < book@.entries.len() && x != y
                        implies (#[trigger] book@.entries[x]).address
                        != (#[trigger] book@.entries[y]).address by {
                    assert(book@.entries[x].address == b0.entries[x].address);
                    assert(book@.entries[y].address == b0.entries[y].address);
                }
                assert(b0.entries[i as int] == e@) by {
                    let a = e@.address;
                    if has_address(b0.entries, old(book)@.entries[address_index(old(book)@.entries, address_or_label@)].address) {
                    }
                }
            }
        }
    }
    found
}

/// The query that lists every entry by display name, up to `limit`.
pub open spec fn list_query(limit: Option<usize>) -> QueryView {
    QueryView {
        search: None,
        address_type: None,
        tags: Seq::empty(),
        active_only: false,
        sort_by: AddressSortField::Label,
        ascending: true,
        limit,
    }
}

proof fn lemma_match_all(es: Seq<EntryView>, limit: Option<usize>)
    ensures
        matching(list_query(limit), es) == es,
    decreases es.len(),
{
    reveal(Seq::filter);
    if es.len() > 0 {
        lemma_match_all(es.drop_last(), limit);
        assert(es.drop_last().push(es.last()) =~= es);
    }
}

/// All entries sorted by display name, up to `limit` of them.
pub fn handle_list_addresses(book: &AddressBook, limit: Option<usize>) -> (r: Vec<AddressEntry>)
    requires
        book@.entries.len() >= 2 ==> forall|i: int|
            0 <= i < book@.entries.len() ==> crate::address_book::types::display_ok(
                #[trigger] book@.entries[i],
            ),
    ensures
        entries_view(r@) == limited(list_query(limit), stable_sorted(list_query(limit), book@.entries)),
        stable_sorted(list_query(limit), book@.entries).to_multiset() == book@.entries.to_multiset(),
        sorted_for(list_query(limit), stable_sorted(list_query(limit), book@.entries)),
{
    let q = AddressQuery {
        search: None,
        address_type: None,
        tags: Vec::new(),
        active_only: false,
        sort_by: AddressSortField::Label,
        ascending: true,
        limit,
    };
    proof {
        assert(q@.tags =~= Seq::<Seq<char>>::empty());
        assert(q@ == list_query(limit));
        lemma_match_all(book@.entries, limit);
    }
    let found = book.query(&q);
    clone_refs(&found)
}

/// The entries and label index after importing `incoming` in order: an entry
/// whose address is already present is skipped.
pub open spec fn imported(
    es: Seq<EntryView>,
    ls: Seq<(Seq<char>, Seq<char>)>,
    incoming: Seq<EntryView>,
) -> (Seq<EntryView>, Seq<(Seq<char>, Seq<char>)>)
    decreases incoming.len(),
{
    if incoming.len() == 0 {
        (es, ls)
    } else {
        let prev = imported(es, ls, incoming.drop_last());
        let e = incoming.last();
        if has_address(prev.0, e.address) {
            prev
        } else {
            (
                prev.0.push(e),
                match e.label {
                    Some(l) => label_insert(prev.1, l, e.address),
                    None => prev.1,
                },
            )
        }
    }
}

/// Imports entries read from a file at time `now`: each entry whose address
/// is not in the book yet is added. Returns how many were added.
pub fn handle_import_csv(book: &mut AddressBook, entries: Vec<AddressEntry>, now: i64) -> (r: usize)
    requires
        old(book).wf(),
        old(book).metadata.total_addresses + entries.len() <= usize::MAX,
    ensures
        final(book).wf(),
        (final(book)@.entries, final(book)@.labels) == imported(
            old(book)@.entries,
            old(book)@.labels,
            entries_view(entries@),
        ),
        r == final(book)@.entries.len() - old(book)@.entries.len(),
        final(book)@.metadata.total_addresses == old(book)@.metadata.total_addresses + r,
        final(book)@.version == old(book)@.version,
        final(book)@.current_address == old(book)@.current_address,
{
    let ghost b0 = book@;
    let ghost inc = entries_view(entries@);
    let mut count: usize = 0;
    let mut i: usize = 0;
    proof {
        assert(inc.take(0) =~= Seq::<EntryView>::empty());
    }
    while i < entries.len()
        invariant
            i <= entries.len(),
            inc == entries_view(entries@),
            book.wf(),
            (book@.entries, book@.labels) == imported(b0.entries, b0.labels, inc.take(i as int)),
            count == book@.entries.len() - b0.entries.len(),
            count <= i,
            book@.metadata.total_addresses == b0.metadata.total_addresses + count,
            b0.metadata.total_addresses + entries.len() <= usize::MAX,
            book@.version == b0.version,
            book@.current_address == b0.current_address,
        decreases entries.len() - i,
    {
        let e = entries[i].clone();
        proof {
            assert(inc.take(i + 1).drop_last() =~= inc.take(i as int));
            assert(inc.take(i + 1).last() == e@);
        }
        if book.find_address(e.address.as_str()).is_none() {
            book.upsert_entry_at(e, now);
            count = count + 1;
        }
        i = i + 1;
    }
    proof {
        assert(inc.take(i as int) =~= inc);
    }
    count
}

/// How making sure the wallet's own address is in the book ended.
#[derive(Debug, Clone, Copy, PartialEq, Eq, Structural)]
pub enum UserAddressOutcome {
    /// The address (or a label of that name) was already there; its query
    /// was counted.
    AlreadyKnown,
    /// It was added as the primary wallet and made the current address.
    Added,
    /// It could not be added; the book is unchanged.
    NotAdded,
}

/// The entry that stands for the wallet's own address.
pub open spec fn wallet_entry(key: Seq<char>, description: Seq<char>, tags: Seq<Seq<char>>, now: i64) -> EntryView {
    added_entry(key, Some("my-wallet"@), Some(description), AddressType::Own, tags, now)
}

/// What adding the wallet's own address did, from book `a` to book `b`: a
/// lookup that finds it counts a query; otherwise it is added as an own
/// address labelled `my-wallet` with the given description and tags and made
/// current, where the address is valid, new, and the label free; a refused
/// addition leaves the book as it was.
pub open spec fn wallet_outcome(
    a: BookView,
    address: Seq<char>,
    description: Seq<char>,
    tags: Seq<Seq<char>>,
    now: i64,
    b: BookView,
    r: UserAddressOutcome,
) -> bool {
    &&& (r is AlreadyKnown) == (lookup(a, address) is Some)
    &&& r is AlreadyKnown ==> (lookup(a, address) matches Some(e) && b == (BookView {
        entries: a.entries.update(address_index(a.entries, e.address), recorded(e, now)),
        ..a
    }))
    &&& lookup(a, address) is None ==> ((r is Added) == (address_key(address) matches Some(key)
        && !has_address(a.entries, key) && !has_label(a.labels, "my-wallet"@)))
    &&& r is Added ==> (address_key(address) matches Some(key) && b.entries
        == crate::address_book::types::mark_current(
        a.entries.push(wallet_entry(key, description, tags, now)),
        a.entries.len() as int,
    ) && b.labels == label_insert(a.labels, "my-wallet"@, key) && b.current_address == Some(key))
    &&& r is NotAdded ==> b == a
}

fn add_wallet_address(
    book: &mut AddressBook,
    address: String,
    description: String,
    tags: Vec<String>,
    now: i64,
) -> (r: UserAddressOutcome)
    requires
        old(book).wf(),
        counts_below_max(old(book)@.entries),
        old(book).metadata.total_addresses < usize::MAX,
    ensures
        final(book).wf(),
        wallet_outcome(old(book)@, address@, description@, strings_view(tags@), now, final(book)@, r),
{
    if handle_get_address(book, address.clone(), now).is_some() {
        return UserAddressOutcome::AlreadyKnown;
    }
    let label = String::from_str("my-wallet");
    let ghost b0 = book@;
    match handle_add_address(book, address.clone(), Some(label), Some(description), AddressType::Own, tags, now) {
        Ok(entry) => {
            let ghost b1 = book@;
            proof {
                lemma_address_index(b1.entries, b0.entries.len() as int);
                assert(entry@.address == b1.entries[b0.entries.len() as int].address);
            }
            let _ = handle_set_current_address(book, address, now);
            UserAddressOutcome::Added
        },
        Err(_) => UserAddressOutcome::NotAdded,
    }
}

/// Makes sure the wallet's own address is in the book at time `now`, as the
/// address commands do before they run: where it is not found it is added
/// with the description `Primary trading wallet (auto-added)` and the tags
/// `primary` and `auto-added`, and made current.
pub fn ensure_user_address(book: &mut AddressBook, address: String, now: i64) -> (r: UserAddressOutcome)
    requires
        old(book).wf(),
        counts_below_max(old(book)@.entries),
        old(book).metadata.total_addresses < usize::MAX,
    ensures
        final(book).wf(),
        wallet_outcome(
            old(book)@,
            address@,
            "Primary trading wallet (auto-added)"@,
            seq!["primary"@, "auto-added"@],
            now,
            final(book)@,
            r,
        ),
{
    let mut tags: Vec<String> = Vec::new();
    tags.push(String::from_str("primary"));
    tags.push(String::from_str("auto-added"));
    proof {
        assert(strings_view(tags@) =~= seq!["primary"@, "auto-added"@]);
    }
    add_wallet_address(book, address, String::from_str("Primary trading wallet (auto-added)"), tags, now)
}

/// Adds the wallet's own address to the book at time `now`, as `init` does
/// after authenticating: where it is not found it is added with the
/// description `Primary trading wallet` and the tag `primary`, and made
/// current.
pub fn init_wallet_address(book: &mut AddressBook, address: String, now: i64) -> (r: UserAddressOutcome)
    requires
        old(book).wf(),
        counts_below_max(old(book)@.entries),
        old(book).metadata.total_addresses < usize::MAX,
    ensures
        final(book).wf(),
        wallet_outcome(old(book)@, address@, "Primary trading wallet"@, seq!["primary"@], now, final(book)@, r),
{
    let mut tags: Vec<String> = Vec::new();
    tags.push(String::from_str("primary"));
    proof {
        assert(strings_view(tags@) =~= seq!["primary"@]);
    }
    add_wallet_address(book, address, String::from_str("Primary trading wallet"), tags, now)
}

} // verus!
