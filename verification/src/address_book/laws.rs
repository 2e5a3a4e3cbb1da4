//! What holds of the address book across its operations.

use vstd::prelude::*;
use crate::address_book::commands::with_added;
use crate::address_book::order::{pow10, seq_le};
use crate::address_book::query::{
    accepts, insert_ordered, limited, matching, ordered_le, sorted_for, stable_sorted, QueryView,
};
use crate::address_book::storage::{
    active_text, address_body, all_hex, canonical_address, csv_entry, csv_header, csv_imported,
    csv_line_of, csv_text, field_safe, lemma_concat_free,
    csv_row_with, csv_type,
    field_text, is_canonical_address, is_lower_hex, strip_hex_prefix,
};
use crate::address_book::types::{
    address_index, address_type_text, count_type, counted_metadata, entry_map, has_address,
    has_label, label_index, label_insert, label_remove, lemma_address_index, lemma_label_index,
    mark_current, unique_addresses, unique_labels, upserted_entries, AddressBookMetadata,
    AddressSortField, AddressType, Amount, EntryView, display_name_of, entry_matches,
};
use crate::text::{
    hex_lower, is_hex_digit, is_ws, joined_with, lemma_joined_ends, lemma_joined_free,
    lemma_split_joined, lemma_split_on_push_piece, lemma_split_on_single, lemma_trim_clean,
    split_on, strip_cr, text_lines, trim, trim_end, trim_start, utf8_len,
};

verus! {

broadcast use vstd::seq_lib::group_to_multiset_ensures;

/// After an entry is added or replaced, the book maps its address to it and
/// every other address to what it mapped before.
pub proof fn lemma_upsert_then_lookup(es: Seq<EntryView>, e: EntryView)
    requires
        unique_addresses(es),
    ensures
        entry_map(upserted_entries(es, e)) == entry_map(es).insert(e.address, e),
{
    let n = upserted_entries(es, e);
    if has_address(es, e.address) {
        let i = address_index(es, e.address);
        assert(n[i] == e);
        assert forall|a: Seq<char>| #![auto] has_address(n, a) <==> (has_address(es, a) || a == e.address) by {
            if has_address(n, a) {
                let k = choose|k: int| 0 <= k < n.len() && (#[trigger] n[k]).address == a;
                if k != i {
                    assert(es[k].address == a);
                }
            }
            if has_address(es, a) {
                let k = choose|k: int| 0 <= k < es.len() && (#[trigger] es[k]).address == a;
                if k == i {
                    assert(n[i].address == a);
                } else {
                    assert(n[k].address == a);
                }
            }
        }
        assert forall|a: Seq<char>| has_address(n, a) implies #[trigger] n[address_index(n, a)]
            == entry_map(es).insert(e.address, e)[a] by {
            let k = address_index(n, a);
            if a == e.address {
                if k != i {
                    assert(es[k].address == es[i].address);
                }
            } else {
                assert(k != i);
                let j = address_index(es, a);
                assert(es[k].address == a);
                if j != k {
                    assert(es[j].address == es[k].address);
                }
            }
        }
    } else {
        assert forall|a: Seq<char>| #![auto] has_address(n, a) <==> (has_address(es, a) || a == e.address) by {
            if has_address(n, a) {
                let k = choose|k: int| 0 <= k < n.len() && (#[trigger] n[k]).address == a;
                if k < es.len() {
                    assert(es[k].address == a);
                }
            }
            if has_address(es, a) {
                let k = choose|k: int| 0 <= k < es.len() && (#[trigger] es[k]).address == a;
                assert(n[k].address == a);
            }
            if a == e.address {
                assert(n[es.len() as int].address == a);
            }
        }
        assert forall|a: Seq<char>| has_address(n, a) implies #[trigger] n[address_index(n, a)]
            == entry_map(es).insert(e.address, e)[a] by {
            let k = address_index(n, a);
            if a == e.address {
                if k < es.len() {
                    assert(es[k].address == a);
                    assert(has_address(es, a));
                }
            } else {
                assert(k < es.len());
                let j = address_index(es, a);
                assert(es[k].address == a);
                if j != k {
                    assert(es[j].address == es[k].address);
                }
            }
        }
    }
    assert(entry_map(n) =~= entry_map(es).insert(e.address, e));
}

/// After the entry of an address is removed, the book no longer maps that
/// address, and maps every other address as before.
pub proof fn lemma_remove_then_absent(es: Seq<EntryView>, a: Seq<char>)
    requires
        unique_addresses(es),
        has_address(es, a),
    ensures
        entry_map(es.remove(address_index(es, a))) == entry_map(es).remove(a),
        !has_address(es.remove(address_index(es, a)), a),
{
    let i = address_index(es, a);
    let n = es.remove(i);
    assert forall|b: Seq<char>| #![auto] has_address(n, b) <==> (has_address(es, b) && b != a) by {
        if has_address(n, b) {
            let k = choose|k: int| 0 <= k < n.len() && (#[trigger] n[k]).address == b;
            if k < i {
                assert(es[k].address == b);
                assert(k != i);
            } else {
                assert(es[k + 1].address == b);
                assert(k + 1 != i);
            }
        }
        if has_address(es, b) && b != a {
            let k = choose|k: int| 0 <= k < es.len() && (#[trigger] es[k]).address == b;
            assert(k != i);
            if k < i {
                assert(n[k].address == b);
            } else {
                assert(n[k - 1].address == b);
            }
        }
    }
    assert forall|b: Seq<char>| has_address(n, b) implies #[trigger] n[address_index(n, b)]
        == entry_map(es)[b] by {
        let k = address_index(n, b);
        let j = address_index(es, b);
        let src = if k < i {
            k
        } else {
            k + 1
        };
        assert(es[src] == n[k]);
        if j != src {
            assert(es[j].address == es[src].address);
        }
    }
    assert(entry_map(n) =~= entry_map(es).remove(a));
}

/// The book's counts agree with its entries: the total is their number, the
/// own and watched counts the numbers of entries of those types.
pub open spec fn counts_agree(m: AddressBookMetadata, es: Seq<EntryView>) -> bool {
    &&& m.total_addresses == es.len()
    &&& m.own_addresses == count_type(es, AddressType::Own)
    &&& m.watched_addresses == count_type(es, AddressType::Watched)
}

/// Adding or replacing an entry keeps the counts in agreement with the
/// entries.
pub proof fn lemma_upsert_keeps_counts(m: AddressBookMetadata, es: Seq<EntryView>, e: EntryView, now: i64)
    requires
        counts_agree(m, es),
        upserted_entries(es, e).len() <= usize::MAX,
    ensures
        counts_agree(
            counted_metadata(
                m,
                upserted_entries(es, e),
                m.total_addresses + if has_address(es, e.address) {
                    0int
                } else {
                    1int
                },
                now,
            ),
            upserted_entries(es, e),
        ),
{
    lemma_count_type_bounded(upserted_entries(es, e), AddressType::Own);
    lemma_count_type_bounded(upserted_entries(es, e), AddressType::Watched);
}

/// Removing the entry of an address keeps the counts in agreement with the
/// entries.
pub proof fn lemma_remove_keeps_counts(m: AddressBookMetadata, es: Seq<EntryView>, a: Seq<char>, now: i64)
    requires
        counts_agree(m, es),
        has_address(es, a),
    ensures
        counts_agree(
            counted_metadata(m, es.remove(address_index(es, a)), m.total_addresses - 1, now),
            es.remove(address_index(es, a)),
        ),
{
    let n = es.remove(address_index(es, a));
    lemma_count_type_bounded(n, AddressType::Own);
    lemma_count_type_bounded(n, AddressType::Watched);
}

proof fn lemma_count_type_bounded(es: Seq<EntryView>, t: AddressType)
    ensures
        count_type(es, t) <= es.len(),
    decreases es.len(),
{
    if es.len() > 0 {
        lemma_count_type_bounded(es.drop_last(), t);
    }
}

/// Setting the current address marks exactly its entry as current and keeps
/// every address of the book.
pub proof fn lemma_current_is_unique(es: Seq<EntryView>, a: Seq<char>)
    requires
        has_address(es, a),
    ensures
        forall|k: int|
            0 <= k < es.len() ==> ((#[trigger] mark_current(es, address_index(es, a))[k]).metadata.is_current
                <==> k == address_index(es, a)),
        mark_current(es, address_index(es, a))[address_index(es, a)].address == a,
        entry_map(mark_current(es, address_index(es, a))).dom() == entry_map(es).dom(),
{
    let i = address_index(es, a);
    let n = mark_current(es, i);
    assert forall|b: Seq<char>| #![auto] has_address(n, b) <==> has_address(es, b) by {
        if has_address(n, b) {
            let k = choose|k: int| 0 <= k < n.len() && (#[trigger] n[k]).address == b;
            assert(es[k].address == b);
        }
        if has_address(es, b) {
            let k = choose|k: int| 0 <= k < es.len() && (#[trigger] es[k]).address == b;
            assert(n[k].address == b);
        }
    }
    assert(entry_map(n).dom() =~= entry_map(es).dom());
}

proof fn lemma_trim_start_plain(s: Seq<char>)
    requires
        s.len() == 0 || !is_ws(s[0]),
    ensures
        trim_start(s) == s,
{
}

proof fn lemma_trim_end_plain(s: Seq<char>)
    requires
        s.len() == 0 || !is_ws(s.last()),
    ensures
        trim_end(s) == s,
{
}

proof fn lemma_hex_utf8_len(s: Seq<char>)
    requires
        all_hex(s),
    ensures
        utf8_len(s) == s.len(),
    decreases s.len(),
{
    if s.len() > 0 {
        assert(all_hex(s.drop_last()));
        assert(is_hex_digit(s.last()));
        lemma_hex_utf8_len(s.drop_last());
    }
}

/// A validated address validates to itself: its body is the lower-cased
/// body it was made from, which is still 40 hexadecimal digits.
pub proof fn lemma_validated_is_canonical(address: Seq<char>)
    requires
        utf8_len(address_body(address)) == 40,
        all_hex(address_body(address)),
    ensures
        ({
            let v = canonical_address(address_body(address));
            &&& utf8_len(address_body(v)) == 40
            &&& all_hex(address_body(v))
            &&& canonical_address(address_body(v)) == v
            &&& is_canonical_address(v)
        }),
{
    let b = address_body(address);
    let low = b.map_values(|c: char| hex_lower(c));
    let v = canonical_address(b);
    lemma_hex_utf8_len(b);
    assert(b.len() == 40);
    assert forall|i: int| 0 <= i < low.len() implies is_hex_digit(#[trigger] low[i]) by {
        assert(is_hex_digit(b[i]));
    }
    assert(all_hex(low));
    lemma_hex_utf8_len(low);
    assert(v.len() == 42);
    assert(!is_ws(v[0]));
    assert(is_hex_digit(low[39]));
    assert(v.last() == low[39]);
    assert(!is_ws(v.last()));
    lemma_trim_start_plain(v);
    lemma_trim_end_plain(v);
    assert(trim(v) == v);
    assert(strip_hex_prefix(v) =~= low);
    assert(low.map_values(|c: char| hex_lower(c)) =~= low) by {
        assert forall|i: int| 0 <= i < low.len() implies hex_lower(low[i]) == low[i] by {
            assert(is_hex_digit(b[i]));
        }
    }
    assert forall|i: int| 2 <= i < 42 implies is_lower_hex(#[trigger] v[i]) by {
        assert(v[i] == low[i - 2]);
        assert(is_hex_digit(b[i - 2]));
    }
}

/// The type written in a CSV export reads back as the same type.
pub proof fn lemma_csv_type_round_trip(t: AddressType)
    ensures
        csv_type(address_type_text(t)) == t,
{
    reveal_strlit("Own");
    reveal_strlit("Watched");
    reveal_strlit("Contract");
    reveal_strlit("Exchange");
    reveal_strlit("Market Maker");
    reveal_strlit("Other");
    assert("Own"@.len() == 3);
    assert("Watched"@.len() == 7);
    assert("Contract"@.len() == 8);
    assert("Exchange"@.len() == 8);
    assert("Market Maker"@.len() == 12);
    assert("Other"@.len() == 5);
    assert("Exchange"@[0] != "Contract"@[0]);
}

/// Every entry that a query returns passes its filters, and there are no
/// more of them than its limit.
pub proof fn lemma_query_results_accepted(q: QueryView, es: Seq<EntryView>, p: Seq<EntryView>)
    requires
        p.to_multiset() == matching(q, es).to_multiset(),
    ensures
        forall|k: int| 0 <= k < limited(q, p).len() ==> accepts(q, #[trigger] limited(q, p)[k]),
        q.limit matches Some(n) ==> limited(q, p).len() <= n,
{
    let m = matching(q, es);
    assert forall|k: int| 0 <= k < limited(q, p).len() implies accepts(q, #[trigger] limited(q, p)[k]) by {
        let x = limited(q, p)[k];
        assert(p[k] == x);
        assert(p.to_multiset().count(x) > 0);
        assert(m.to_multiset().count(x) > 0);
        assert(m.contains(x));
        let j = choose|j: int| 0 <= j < m.len() && m[j] == x;
        es.lemma_filter_pred(|e: EntryView| accepts(q, e), j);
    }
}

proof fn lemma_insert_ordered_same_order(q: QueryView, r: QueryView, s: Seq<EntryView>, x: EntryView)
    requires
        q.sort_by == r.sort_by,
        q.ascending == r.ascending,
    ensures
        insert_ordered(q, s, x) == insert_ordered(r, s, x),
    decreases s.len(),
{
    if s.len() > 0 {
        lemma_insert_ordered_same_order(q, r, s.drop_last(), x);
    }
}

proof fn lemma_stable_sorted_same_order(q: QueryView, r: QueryView, m: Seq<EntryView>)
    requires
        q.sort_by == r.sort_by,
        q.ascending == r.ascending,
    ensures
        stable_sorted(q, m) == stable_sorted(r, m),
    decreases m.len(),
{
    if m.len() > 0 {
        lemma_stable_sorted_same_order(q, r, m.drop_last());
        lemma_insert_ordered_same_order(q, r, stable_sorted(q, m.drop_last()), m.last());
    }
}

proof fn lemma_insert_ordered_split(q: QueryView, s: Seq<EntryView>, x: EntryView) -> (p: int)
    ensures
        0 <= p <= s.len(),
        insert_ordered(q, s, x) == s.insert(p, x),
        forall|t: int| p <= t < s.len() ==> !ordered_le(q, #[trigger] s[t], x),
    decreases s.len(),
{
    if s.len() == 0 || ordered_le(q, s.last(), x) {
        assert(s.push(x) =~= s.insert(s.len() as int, x));
        s.len() as int
    } else {
        let d = s.drop_last();
        let p = lemma_insert_ordered_split(q, d, x);
        assert(d.insert(p, x).push(s.last()) =~= s.insert(p, x));
        assert forall|t: int| p <= t < s.len() implies !ordered_le(q, #[trigger] s[t], x) by {
            if t < d.len() {
                assert(s[t] == d[t]);
            }
        }
        p
    }
}

proof fn lemma_stable_sorted_has(q: QueryView, m: Seq<EntryView>, i: int)
    requires
        0 <= i < m.len(),
    ensures
        stable_sorted(q, m).contains(m[i]),
    decreases m.len(),
{
    let d = m.drop_last();
    let sd = stable_sorted(q, d);
    let p = lemma_insert_ordered_split(q, sd, m.last());
    let r = sd.insert(p, m.last());
    if i == m.len() - 1 {
        assert(r[p] == m[i]);
    } else {
        lemma_stable_sorted_has(q, d, i);
        let a = choose|a: int| 0 <= a < sd.len() && sd[a] == d[i];
        if a < p {
            assert(r[a] == m[i]);
        } else {
            assert(r[a + 1] == m[i]);
        }
    }
}

/// A query's sort is stable: two entries whose keys are equal come out in
/// the order they have in the book.
pub proof fn lemma_sort_keeps_ties_in_order(q: QueryView, m: Seq<EntryView>, i: int, j: int)
    requires
        0 <= i < j < m.len(),
        ordered_le(q, m[i], m[j]),
        ordered_le(q, m[j], m[i]),
    ensures
        exists|a: int, b: int|
            0 <= a < b < stable_sorted(q, m).len() && #[trigger] stable_sorted(q, m)[a] == m[i]
                && #[trigger] stable_sorted(q, m)[b] == m[j],
    decreases m.len(),
{
    let d = m.drop_last();
    let sd = stable_sorted(q, d);
    let x = m.last();
    let p = lemma_insert_ordered_split(q, sd, x);
    let r = sd.insert(p, x);
    assert(stable_sorted(q, m) == r);
    if j == m.len() - 1 {
        lemma_stable_sorted_has(q, d, i);
        let a = choose|a: int| 0 <= a < sd.len() && sd[a] == d[i];
        if a >= p {
            assert(!ordered_le(q, sd[a], x));
        }
        assert(r[a] == m[i] && r[p] == m[j]);
    } else {
        lemma_sort_keeps_ties_in_order(q, d, i, j);
        let (a, b) = choose|a: int, b: int|
            0 <= a < b < sd.len() && #[trigger] sd[a] == d[i] && #[trigger] sd[b] == d[j];
        let a2 = if a < p { a } else { a + 1 };
        let b2 = if b < p { b } else { b + 1 };
        assert(r[a2] == m[i] && r[b2] == m[j]);
    }
}

/// A query returns the entries that pass every filter it sets and only
/// those: active ones under `active_only`, those of the type asked for, those
/// that match the search, and those with one of the tags asked for; without
/// a limit, every such entry of the book is returned.
pub proof fn lemma_results_pass_filters(q: QueryView, es: Seq<EntryView>, p: Seq<EntryView>)
    requires
        p.to_multiset() == matching(q, es).to_multiset(),
    ensures
        forall|k: int|
            0 <= k < limited(q, p).len() ==> {
                let e = #[trigger] limited(q, p)[k];
                &&& (q.active_only ==> e.is_active)
                &&& (q.address_type matches Some(t) ==> e.address_type == t)
                &&& (q.search matches Some(s) ==> entry_matches(e, s))
                &&& (q.tags.len() > 0 ==> exists|i: int, j: int|
                    0 <= i < q.tags.len() && 0 <= j < e.tags.len() && q.tags[i] == e.tags[j])
            },
        q.limit is None ==> forall|k: int|
            0 <= k < es.len() && (q.active_only ==> es[k].is_active) && (q.address_type matches Some(
                t,
            ) ==> es[k].address_type == t) && (q.search matches Some(s) ==> entry_matches(es[k], s))
                && (q.tags.len() > 0 ==> exists|i: int, j: int|
                0 <= i < q.tags.len() && 0 <= j < es[k].tags.len() && q.tags[i] == es[k].tags[j])
                ==> #[trigger] limited(q, p).contains(es[k]),
{
    lemma_query_results_accepted(q, es, p);
    if q.limit is None {
        assert forall|k: int|
            0 <= k < es.len() && (q.active_only ==> es[k].is_active) && (q.address_type matches Some(
                t,
            ) ==> es[k].address_type == t) && (q.search matches Some(s) ==> entry_matches(es[k], s))
                && (q.tags.len() > 0 ==> exists|i: int, j: int|
                0 <= i < q.tags.len() && 0 <= j < es[k].tags.len() && q.tags[i] == es[k].tags[j])
                implies #[trigger] limited(q, p).contains(es[k]) by {
            assert(accepts(q, es[k]));
            es.lemma_filter_contains(|e: EntryView| accepts(q, e), k);
            let m = matching(q, es);
            assert(m.contains(es[k]));
            m.to_multiset_ensures();
            p.to_multiset_ensures();
            assert(m.to_multiset().count(es[k]) > 0);
            assert(p.to_multiset().count(es[k]) > 0);
            assert(limited(q, p) == p);
        }
    }
}

/// What a query returns is in the order of the field it sorts by, that very
/// field of each entry, ascending or descending as asked: the display name
/// or the address by character order, the time added, the time updated or
/// the query count as numbers, and the portfolio value (zero without
/// statistics) as a decimal `mantissa / 10^scale`.
pub proof fn lemma_results_follow_sort_field(q: QueryView, p: Seq<EntryView>)
    requires
        sorted_for(q, p),
    ensures
        forall|i: int, j: int|
            0 <= i < j < limited(q, p).len() ==> {
                let a = #[trigger] limited(q, p)[i];
                let b = #[trigger] limited(q, p)[j];
                let (x, y) = if q.ascending {
                    (a, b)
                } else {
                    (b, a)
                };
                match q.sort_by {
                    AddressSortField::Label => seq_le(display_name_of(x), display_name_of(y)),
                    AddressSortField::Address => seq_le(x.address, y.address),
                    AddressSortField::AddedAt => x.metadata.added_at <= y.metadata.added_at,
                    AddressSortField::UpdatedAt => x.metadata.updated_at <= y.metadata.updated_at,
                    AddressSortField::QueryCount => x.metadata.query_count
                        <= y.metadata.query_count,
                    AddressSortField::TotalValue => {
                        let vx = match x.stats {
                            Some(st) => st.total_value,
                            None => Amount { mantissa: 0, scale: 0 },
                        };
                        let vy = match y.stats {
                            Some(st) => st.total_value,
                            None => Amount { mantissa: 0, scale: 0 },
                        };
                        vx.mantissa * pow10(vy.scale as nat) <= vy.mantissa * pow10(vx.scale as nat)
                    },
                }
            },
{
    let r = limited(q, p);
    assert forall|i: int, j: int| 0 <= i < j < r.len() implies ordered_le(q, #[trigger] r[i], #[trigger] r[j]) by {
        assert(r[i] == p[i] && r[j] == p[j]);
    }
}

/// A query with a limit of `n` gives the first `n` entries (all of them when
/// there are fewer) of what the same query without a limit gives.
pub proof fn lemma_limit_takes_prefix(q: QueryView, es: Seq<EntryView>, n: usize)
    requires
        q.limit == Some(n),
    ensures
        ({
            let all = QueryView { limit: None, ..q };
            let full = limited(all, stable_sorted(all, matching(all, es)));
            limited(q, stable_sorted(q, matching(q, es))) == if n < full.len() {
                full.take(n as int)
            } else {
                full
            }
        }),
{
    let all = QueryView { limit: None, ..q };
    assert(matching(q, es) == matching(all, es)) by {
        assert forall|e: EntryView| accepts(q, e) == accepts(all, e) by {}
        assert((|e: EntryView| accepts(q, e)) =~= (|e: EntryView| accepts(all, e)));
    }
    lemma_stable_sorted_same_order(q, all, matching(q, es));
}

proof fn lemma_with_added_contains(cur: Seq<Seq<char>>, add: Seq<Seq<char>>)
    ensures
        forall|t: Seq<char>| cur.contains(t) ==> with_added(cur, add).contains(t),
        forall|t: Seq<char>| add.contains(t) ==> with_added(cur, add).contains(t),
    decreases add.len(),
{
    if add.len() > 0 {
        lemma_with_added_contains(cur, add.drop_last());
        let prev = with_added(cur, add.drop_last());
        let last = add.last();
        let next = with_added(cur, add);
        assert(prev.contains(last) ==> next == prev);
        assert(!prev.contains(last) ==> next == prev.push(last));
        assert forall|t: Seq<char>| prev.contains(t) implies next.contains(t) by {
            let k = choose|k: int| 0 <= k < prev.len() && prev[k] == t;
            if !prev.contains(last) {
                assert(next[k] == t);
            }
        }
        assert(next.contains(last)) by {
            if !prev.contains(last) {
                assert(next[prev.len() as int] == last);
            }
        }
        assert forall|t: Seq<char>| add.contains(t) implies next.contains(t) by {
            let k = choose|k: int| 0 <= k < add.len() && add[k] == t;
            if k < add.len() - 1 {
                assert(add.drop_last()[k] == t);
                assert(add.drop_last().contains(t));
                assert(prev.contains(t));
            }
        }
    }
}

proof fn lemma_with_added_present(cur: Seq<Seq<char>>, add: Seq<Seq<char>>)
    requires
        forall|t: Seq<char>| add.contains(t) ==> cur.contains(t),
    ensures
        with_added(cur, add) == cur,
    decreases add.len(),
{
    if add.len() > 0 {
        assert forall|t: Seq<char>| add.drop_last().contains(t) implies cur.contains(t) by {
            let k = choose|k: int| 0 <= k < add.drop_last().len() && add.drop_last()[k] == t;
            assert(add[k] == t);
        }
        lemma_with_added_present(cur, add.drop_last());
        assert(add[add.len() - 1] == add.last());
    }
}

/// Adding the same tags twice adds nothing the second time; after adding,
/// the entry has every tag it had and every tag added.
pub proof fn lemma_tag_merge_idempotent(cur: Seq<Seq<char>>, add: Seq<Seq<char>>)
    ensures
        with_added(with_added(cur, add), add) == with_added(cur, add),
        forall|t: Seq<char>|
            cur.contains(t) || add.contains(t) ==> #[trigger] with_added(cur, add).contains(t),
{
    lemma_with_added_contains(cur, add);
    lemma_with_added_present(with_added(cur, add), add);
}

/// A text that a CSV field gives back as it was written: no comma, and,
/// where it is not empty, no white space at either end.
pub open spec fn csv_clean(s: Seq<char>) -> bool {
    !s.contains(',') && (s.len() > 0 ==> !is_ws(s[0]) && !is_ws(s.last()))
}

/// An entry whose CSV line can be read back: clean fields, labels and
/// descriptions that are not empty, and tags that are not empty and hold no
/// `;`.
pub open spec fn csv_round_trips(e: EntryView) -> bool {
    &&& csv_clean(e.address)
    &&& (e.label matches Some(l) ==> csv_clean(l) && l.len() > 0)
    &&& (e.description matches Some(d) ==> csv_clean(d) && d.len() > 0)
    &&& forall|i: int|
        0 <= i < e.tags.len() ==> csv_clean(#[trigger] e.tags[i]) && e.tags[i].len() > 0
            && !e.tags[i].contains(';')
}

proof fn lemma_type_text_clean(t: AddressType)
    ensures
        csv_clean(address_type_text(t)),
        address_type_text(t).len() > 0,
{
    reveal_strlit("Own");
    reveal_strlit("Watched");
    reveal_strlit("Contract");
    reveal_strlit("Exchange");
    reveal_strlit("Market Maker");
    reveal_strlit("Other");
    let s = address_type_text(t);
    assert(!s.contains(',')) by {
        if s.contains(',') {
            let k = choose|k: int| 0 <= k < s.len() && s[k] == ',';
            assert(s[k] != ',');
        }
    }
}

proof fn lemma_active_text_clean(b: bool)
    ensures
        csv_clean(active_text(b)),
        active_text(b).len() > 0,
        (trim(active_text(b)) == "true"@) == b,
{
    reveal_strlit("true");
    reveal_strlit("false");
    let s = active_text(b);
    assert(!s.contains(',')) by {
        if s.contains(',') {
            let k = choose|k: int| 0 <= k < s.len() && s[k] == ',';
            assert(s[k] != ',');
        }
    }
    lemma_trim_clean(s);
    assert("false"@.len() != "true"@.len());
}

proof fn lemma_optional_field(o: Option<Seq<char>>)
    requires
        o matches Some(l) ==> csv_clean(l) && l.len() > 0,
    ensures
        !field_text(o).contains(','),
        crate::address_book::storage::csv_opt(field_text(o)) == o,
{
    match o {
        Some(l) => {
            lemma_trim_clean(l);
        },
        None => {
            lemma_trim_clean(Seq::<char>::empty());
        },
    }
}

proof fn lemma_tags_field(tags: Seq<Seq<char>>)
    requires
        forall|i: int|
            0 <= i < tags.len() ==> csv_clean(#[trigger] tags[i]) && tags[i].len() > 0
                && !tags[i].contains(';'),
    ensures
        !joined_with(tags, ";"@).contains(','),
        crate::address_book::storage::csv_tags(joined_with(tags, ";"@)) == tags,
{
    reveal_strlit(";");
    assert(";"@ =~= seq![';']);
    assert(!";"@.contains(',')) by {
        if ";"@.contains(',') {
            let k = choose|k: int| 0 <= k < ";"@.len() && ";"@[k] == ',';
            assert(";"@[k] == ';');
        }
    }
    assert forall|i: int| 0 <= i < tags.len() implies !(#[trigger] tags[i]).contains(',') by {
        assert(csv_clean(tags[i]));
    }
    lemma_joined_free(tags, ";"@, ',');
    let j = joined_with(tags, ";"@);
    if tags.len() == 0 {
        lemma_trim_clean(j);
        assert(crate::address_book::storage::csv_tags(j) =~= tags);
    } else {
        assert forall|i: int| 0 <= i < tags.len() implies (#[trigger] tags[i]).len() > 0 by {}
        lemma_joined_ends(tags, ";"@);
        assert(csv_clean(tags[0]) && tags[0].len() > 0);
        assert(csv_clean(tags[tags.len() - 1]) && tags[tags.len() - 1].len() > 0);
        lemma_trim_clean(j);
        assert forall|i: int| 0 <= i < tags.len() implies !(#[trigger] tags[i]).contains(';') by {}
        lemma_split_joined(tags, ';');
        assert forall|i: int| 0 <= i < tags.len() implies trim(#[trigger] tags[i]) == tags[i] by {
            assert(csv_clean(tags[i]));
            lemma_trim_clean(tags[i]);
        }
        assert(split_on(j, ';').map_values(|t: Seq<char>| trim(t)) =~= tags);
    }
}

/// Reading back an entry's line of the CSV export gives the entry's
/// address, label, type, description, tags and active flag, whatever texts
/// its times and value were written as, as long as they hold no comma.
pub proof fn lemma_csv_row_round_trip(
    e: EntryView,
    added: Seq<char>,
    synced: Seq<char>,
    value: Seq<char>,
    now: i64,
)
    requires
        csv_round_trips(e),
        !added.contains(','),
        !synced.contains(','),
        !value.contains(','),
    ensures
        csv_entry(csv_row_with(e, added, synced, value), now) matches Some(r) && r.address == e.address
            && r.label == e.label && r.description == e.description && r.address_type
            == e.address_type && r.tags == e.tags && r.is_active == e.is_active,
{
    reveal_strlit(",");
    let c = ","@;
    assert(c =~= seq![',']);
    let f0 = e.address;
    let f1 = field_text(e.label);
    let f2 = address_type_text(e.address_type);
    let f3 = field_text(e.description);
    let f4 = joined_with(e.tags, ";"@);
    let f8 = active_text(e.is_active);
    lemma_optional_field(e.label);
    lemma_optional_field(e.description);
    lemma_type_text_clean(e.address_type);
    lemma_active_text_clean(e.is_active);
    lemma_tags_field(e.tags);
    let p0 = f0;
    let p1 = p0 + c + f1;
    let p2 = p1 + c + f2;
    let p3 = p2 + c + f3;
    let p4 = p3 + c + f4;
    let p5 = p4 + c + added;
    let p6 = p5 + c + synced;
    let p7 = p6 + c + value;
    let p8 = p7 + c + f8;
    assert(p8 == csv_row_with(e, added, synced, value));
    lemma_split_on_single(p0, ',');
    lemma_split_on_push_piece(p0, ',', f1);
    lemma_split_on_push_piece(p1, ',', f2);
    lemma_split_on_push_piece(p2, ',', f3);
    lemma_split_on_push_piece(p3, ',', f4);
    lemma_split_on_push_piece(p4, ',', added);
    lemma_split_on_push_piece(p5, ',', synced);
    lemma_split_on_push_piece(p6, ',', value);
    lemma_split_on_push_piece(p7, ',', f8);
    let parts = split_on(p8, ',');
    assert(parts =~= seq![f0, f1, f2, f3, f4, added, synced, value, f8]);
    lemma_trim_clean(f0);
    lemma_trim_clean(f2);
    lemma_csv_type_round_trip(e.address_type);
}

/// The lines of a CSV export of `es`: the header, then the line of each
/// entry, written with the texts given for its times and value.
pub open spec fn csv_file(
    es: Seq<EntryView>,
    added: Seq<Seq<char>>,
    synced: Seq<Seq<char>>,
    value: Seq<Seq<char>>,
) -> Seq<Seq<char>> {
    seq![csv_header()] + Seq::new(
        es.len(),
        |i: int| csv_row_with(es[i], added[i], synced[i], value[i]),
    )
}

/// `r` has the address, label, type, description, tags and active flag of
/// `e`, what a line of the CSV export carries back, and starts with no
/// statistics and no queries counted.
pub open spec fn csv_fields_kept(r: EntryView, e: EntryView) -> bool {
    &&& r.stats is None
    &&& r.metadata.query_count == 0
    &&& r.address == e.address
    &&& r.label == e.label
    &&& r.description == e.description
    &&& r.address_type == e.address_type
    &&& r.tags == e.tags
    &&& r.is_active == e.is_active
}

proof fn lemma_csv_file_prefix(
    es: Seq<EntryView>,
    added: Seq<Seq<char>>,
    synced: Seq<Seq<char>>,
    value: Seq<Seq<char>>,
    stamps: Seq<i64>,
    k: int,
)
    requires
        0 <= k <= es.len(),
        added.len() == es.len(),
        synced.len() == es.len(),
        value.len() == es.len(),
        stamps.len() == es.len() + 1,
        forall|i: int|
            0 <= i < es.len() ==> csv_round_trips(#[trigger] es[i]) && !added[i].contains(',')
                && !synced[i].contains(',') && !value[i].contains(','),
    ensures
        ({
            let r = csv_imported(csv_file(es, added, synced, value), stamps, k + 1);
            &&& r.len() == k
            &&& forall|i: int| 0 <= i < k ==> csv_fields_kept(#[trigger] r[i], es[i])
        }),
    decreases k,
{
    if k > 0 {
        lemma_csv_file_prefix(es, added, synced, value, stamps, k - 1);
        let lines = csv_file(es, added, synced, value);
        let j = k - 1;
        assert(lines[k] == csv_row_with(es[j], added[j], synced[j], value[j]));
        assert(csv_round_trips(es[j]));
        lemma_csv_row_round_trip(es[j], added[j], synced[j], value[j], stamps[k]);
    }
}

/// A CSV file as the export writes it, its header and then one line per
/// entry, reads back as one entry per line, in order, each with the address,
/// label, type, description, tags and active flag of the entry it was
/// written from, whatever comma-free texts its times and value were written
/// as and whenever each line is read.
pub proof fn lemma_csv_file_round_trip(
    es: Seq<EntryView>,
    added: Seq<Seq<char>>,
    synced: Seq<Seq<char>>,
    value: Seq<Seq<char>>,
    stamps: Seq<i64>,
)
    requires
        added.len() == es.len(),
        synced.len() == es.len(),
        value.len() == es.len(),
        stamps.len() == es.len() + 1,
        forall|i: int|
            0 <= i < es.len() ==> csv_round_trips(#[trigger] es[i]) && !added[i].contains(',')
                && !synced[i].contains(',') && !value[i].contains(','),
    ensures
        ({
            let lines = csv_file(es, added, synced, value);
            let r = csv_imported(lines, stamps, lines.len() as int);
            &&& r.len() == es.len()
            &&& forall|i: int| 0 <= i < es.len() ==> csv_fields_kept(#[trigger] r[i], es[i])
        }),
{
    lemma_csv_file_prefix(es, added, synced, value, stamps, es.len() as int);
}

/// The texts of the times and value that a CSV line of `e` was written with.
pub open spec fn line_texts(e: EntryView, line: Seq<char>) -> (Seq<char>, Seq<char>, Seq<char>) {
    choose|t: (Seq<char>, Seq<char>, Seq<char>)|
        field_safe(t.0) && field_safe(t.1) && field_safe(t.2) && line == #[trigger] csv_row_with(
            e,
            t.0,
            t.1,
            t.2,
        )
}

/// The CSV export reads back: a file of the header and, for each entry, the
/// line that `export_csv_row` wrote for it reads back as one entry per line,
/// in order, each with the address, label, type, description, tags and
/// active flag of its entry, whenever each line is read.
pub proof fn lemma_export_reads_back(es: Seq<EntryView>, rows: Seq<Seq<char>>, stamps: Seq<i64>)
    requires
        rows.len() == es.len(),
        stamps.len() == es.len() + 1,
        forall|i: int|
            0 <= i < es.len() ==> csv_round_trips(#[trigger] es[i]) && csv_line_of(es[i], rows[i]),
    ensures
        ({
            let r = csv_imported(seq![csv_header()] + rows, stamps, (es.len() + 1) as int);
            &&& r.len() == es.len()
            &&& forall|i: int| 0 <= i < es.len() ==> csv_fields_kept(#[trigger] r[i], es[i])
        }),
{
    let n = es.len();
    let added = Seq::new(n, |i: int| line_texts(es[i], rows[i]).0);
    let synced = Seq::new(n, |i: int| line_texts(es[i], rows[i]).1);
    let value = Seq::new(n, |i: int| line_texts(es[i], rows[i]).2);
    assert forall|i: int| 0 <= i < n implies csv_round_trips(#[trigger] es[i]) && !added[i].contains(',')
        && !synced[i].contains(',') && !value[i].contains(',') && rows[i] == csv_row_with(
        es[i],
        added[i],
        synced[i],
        value[i],
    ) by {
        assert(csv_line_of(es[i], rows[i]));
    }
    let lines = csv_file(es, added, synced, value);
    assert(lines =~= seq![csv_header()] + rows) by {
        assert forall|k: int| 0 <= k < lines.len() implies lines[k] == (seq![csv_header()] + rows)[k] by {
            if k > 0 {
                assert(csv_round_trips(es[k - 1]));
            }
        }
    }
    lemma_csv_file_round_trip(es, added, synced, value, stamps);
}

/// No field of the entry holds a line break.
pub open spec fn no_line_breaks(e: EntryView) -> bool {
    &&& !e.address.contains('\n')
    &&& (e.label matches Some(l) ==> !l.contains('\n'))
    &&& (e.description matches Some(d) ==> !d.contains('\n'))
    &&& forall|i: int| 0 <= i < e.tags.len() ==> !(#[trigger] e.tags[i]).contains('\n')
}

proof fn lemma_literal_free(s: Seq<char>, c: char)
    requires
        forall|i: int| 0 <= i < s.len() ==> #[trigger] s[i] != c,
    ensures
        !s.contains(c),
{
}

proof fn lemma_field_text_one_line(o: Option<Seq<char>>)
    requires
        o matches Some(l) ==> !l.contains('\n'),
    ensures
        !field_text(o).contains('\n'),
{
}

proof fn lemma_row_one_line(e: EntryView, a: Seq<char>, s: Seq<char>, v: Seq<char>)
    requires
        no_line_breaks(e),
        field_safe(a),
        field_safe(s),
        field_safe(v),
    ensures
        !csv_row_with(e, a, s, v).contains('\n'),
        csv_row_with(e, a, s, v).len() > 0,
        csv_row_with(e, a, s, v).last() != '\r',
{
    reveal_strlit(",");
    reveal_strlit(";");
    reveal_strlit("true");
    reveal_strlit("false");
    reveal_strlit("Own");
    reveal_strlit("Watched");
    reveal_strlit("Contract");
    reveal_strlit("Exchange");
    reveal_strlit("Market Maker");
    reveal_strlit("Other");
    let nl = '\n';
    let c = ","@;
    lemma_literal_free(c, nl);
    lemma_literal_free(";"@, nl);
    let f1 = field_text(e.label);
    let f2 = address_type_text(e.address_type);
    let f3 = field_text(e.description);
    let f4 = joined_with(e.tags, ";"@);
    let f8 = active_text(e.is_active);
    lemma_field_text_one_line(e.label);
    lemma_field_text_one_line(e.description);
    lemma_literal_free(f2, nl);
    lemma_literal_free(f8, nl);
    lemma_joined_free(e.tags, ";"@, nl);
    let p1 = e.address + c;
    lemma_concat_free(e.address, c, nl);
    let p2 = p1 + f1;
    lemma_concat_free(p1, f1, nl);
    let p3 = p2 + c;
    lemma_concat_free(p2, c, nl);
    let p4 = p3 + f2;
    lemma_concat_free(p3, f2, nl);
    let p5 = p4 + c;
    lemma_concat_free(p4, c, nl);
    let p6 = p5 + f3;
    lemma_concat_free(p5, f3, nl);
    let p7 = p6 + c;
    lemma_concat_free(p6, c, nl);
    let p8 = p7 + f4;
    lemma_concat_free(p7, f4, nl);
    let p9 = p8 + c;
    lemma_concat_free(p8, c, nl);
    let p10 = p9 + a;
    lemma_concat_free(p9, a, nl);
    let p11 = p10 + c;
    lemma_concat_free(p10, c, nl);
    let p12 = p11 + s;
    lemma_concat_free(p11, s, nl);
    let p13 = p12 + c;
    lemma_concat_free(p12, c, nl);
    let p14 = p13 + v;
    lemma_concat_free(p13, v, nl);
    let p15 = p14 + c;
    lemma_concat_free(p14, c, nl);
    let p16 = p15 + f8;
    lemma_concat_free(p15, f8, nl);
    assert(p16 == csv_row_with(e, a, s, v));
    assert(p16.last() == f8.last());
}

proof fn lemma_text_lines_of_csv_text(l: Seq<Seq<char>>)
    requires
        l.len() >= 1,
        forall|i: int|
            0 <= i < l.len() ==> !(#[trigger] l[i]).contains('\n') && l[i].len() > 0 && l[i].last()
                != '\r',
    ensures
        text_lines(csv_text(l)) == l,
{
    let m = l.push(Seq::<char>::empty());
    assert(m.drop_last() =~= l);
    assert(joined_with(m, seq!['\n']) =~= joined_with(l, seq!['\n']) + seq!['\n']);
    assert forall|i: int| 0 <= i < m.len() implies !(#[trigger] m[i]).contains('\n') by {
        if i < l.len() {
            assert(m[i] == l[i]);
        }
    }
    lemma_split_joined(m, '\n');
    let p = split_on(csv_text(l), '\n');
    assert(p == m);
    assert(text_lines(csv_text(l)) =~= l) by {
        assert forall|i: int| 0 <= i < l.len() implies strip_cr(p[i]) == l[i] by {
            assert(p[i] == l[i]);
        }
    }
}

/// The text of a CSV export reads back: the lines of the header and the
/// exported line of each entry, each ended by a line break, split into
/// those lines again, and then read back as one entry per line, in order,
/// each with the address, label, type, description, tags and active flag of
/// its entry, whenever each line is read. Fields hold no line break.
pub proof fn lemma_csv_text_reads_back(es: Seq<EntryView>, rows: Seq<Seq<char>>, stamps: Seq<i64>)
    requires
        rows.len() == es.len(),
        stamps.len() == es.len() + 1,
        forall|i: int|
            0 <= i < es.len() ==> csv_round_trips(#[trigger] es[i]) && no_line_breaks(es[i])
                && csv_line_of(es[i], rows[i]),
    ensures
        text_lines(csv_text(seq![csv_header()] + rows)) == seq![csv_header()] + rows,
        ({
            let r = csv_imported(
                text_lines(csv_text(seq![csv_header()] + rows)),
                stamps,
                (es.len() + 1) as int,
            );
            &&& r.len() == es.len()
            &&& forall|i: int| 0 <= i < es.len() ==> csv_fields_kept(#[trigger] r[i], es[i])
        }),
{
    let l = seq![csv_header()] + rows;
    reveal_strlit("Address,Label,Type,Description,Tags,Added At,Last Synced,Total Value,Active");
    assert forall|i: int| 0 <= i < l.len() implies !(#[trigger] l[i]).contains('\n') && l[i].len()
        > 0 && l[i].last() != '\r' by {
        if i == 0 {
            lemma_literal_free(csv_header(), '\n');
        } else {
            let k = i - 1;
            assert(csv_round_trips(es[k]));
            assert(csv_line_of(es[k], rows[k]));
            let t = choose|t: (Seq<char>, Seq<char>, Seq<char>)|
                field_safe(t.0) && field_safe(t.1) && field_safe(t.2) && rows[k] == #[trigger] csv_row_with(
                    es[k],
                    t.0,
                    t.1,
                    t.2,
                );
            lemma_row_one_line(es[k], t.0, t.1, t.2);
            assert(l[i] == rows[k]);
        }
    }
    lemma_text_lines_of_csv_text(l);
    lemma_export_reads_back(es, rows, stamps);
}

/// Removing an address that was just added gives back the entries and the
/// label index the book had before the addition.
pub proof fn lemma_remove_undoes_add(
    es: Seq<EntryView>,
    ls: Seq<(Seq<char>, Seq<char>)>,
    e: EntryView,
)
    requires
        unique_addresses(es),
        unique_labels(ls),
        !has_address(es, e.address),
        e.label matches Some(l) ==> !has_label(ls, l),
    ensures
        ({
            let es2 = es.push(e);
            let ls2 = match e.label {
                Some(l) => label_insert(ls, l, e.address),
                None => ls,
            };
            let i = address_index(es2, e.address);
            &&& es2.remove(i) == es
            &&& match es2[i].label {
                Some(l) => label_remove(ls2, l),
                None => ls2,
            } == ls
        }),
{
    let es2 = es.push(e);
    assert(unique_addresses(es2)) by {
        assert forall|i: int, j: int|
            0 <= i < es2.len() && 0 <= j < es2.len() && i != j implies (#[trigger] es2[i]).address
                != (#[trigger] es2[j]).address by {
            if i < es.len() && j < es.len() {
                assert(es2[i] == es[i] && es2[j] == es[j]);
            } else if i < es.len() {
                assert(es2[i] == es[i]);
                assert(es[i].address != e.address);
            } else if j < es.len() {
                assert(es2[j] == es[j]);
                assert(es[j].address != e.address);
            }
        }
    }
    lemma_address_index(es2, es.len() as int);
    assert(es2[es.len() as int] == e);
    assert(es2.remove(es.len() as int) =~= es);
    match e.label {
        Some(l) => {
            let ls2 = ls.push((l, e.address));
            assert(label_insert(ls, l, e.address) == ls2);
            assert(unique_labels(ls2)) by {
                assert forall|i: int, j: int|
                    0 <= i < ls2.len() && 0 <= j < ls2.len() && i != j implies (#[trigger] ls2[i]).0
                        != (#[trigger] ls2[j]).0 by {
                    if i < ls.len() && j < ls.len() {
                        assert(ls2[i] == ls[i] && ls2[j] == ls[j]);
                    } else if i < ls.len() {
                        assert(ls2[i] == ls[i]);
                        assert(ls[i].0 != l);
                    } else if j < ls.len() {
                        assert(ls2[j] == ls[j]);
                        assert(ls[j].0 != l);
                    }
                }
            }
            lemma_label_index(ls2, ls.len() as int);
            assert(ls2.remove(ls.len() as int) =~= ls);
        },
        None => {},
    }
}

} // verus!
