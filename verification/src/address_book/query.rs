//! Querying the address book: filter, sort and limit.

use vstd::prelude::*;
use crate::address_book::order::{
    amount_order, amount_le, lemma_amount_le_trans, lemma_seq_le_total, lemma_seq_le_trans,
    seq_le, str_le,
};
use crate::address_book::types::{
    display_name_of, display_ok, entry_matches, strings_view, AddressBook,
    AddressEntry, AddressQuery, AddressSortField, AddressType, Amount, EntryView,
};
use crate::address_book::types::str_eq;

verus! {

broadcast use vstd::seq_lib::group_to_multiset_ensures;

/// The mathematical value of an `AddressQuery`.
pub struct QueryView {
    pub search: Option<Seq<char>>,
    pub address_type: Option<AddressType>,
    pub tags: Seq<Seq<char>>,
    pub active_only: bool,
    pub sort_by: AddressSortField,
    pub ascending: bool,
    pub limit: Option<usize>,
}

impl View for AddressQuery {
    type V = QueryView;

    open spec fn view(&self) -> QueryView {
        QueryView {
            search: crate::address_book::types::opt_view(self.search),
            address_type: self.address_type,
            tags: strings_view(self.tags@),
            active_only: self.active_only,
            sort_by: self.sort_by,
            ascending: self.ascending,
            limit: self.limit,
        }
    }
}

/// Some wanted tag is among `tags`.
pub open spec fn has_any_tag(wanted: Seq<Seq<char>>, tags: Seq<Seq<char>>) -> bool {
    exists|i: int, j: int| 0 <= i < wanted.len() && 0 <= j < tags.len() && #[trigger] wanted[i]
        == #[trigger] tags[j]
}

/// The entry passes the search, type, tag and active filters of `q`.
pub open spec fn accepts(q: QueryView, e: EntryView) -> bool {
    &&& (q.search matches Some(s) ==> entry_matches(e, s))
    &&& (q.address_type matches Some(t) ==> e.address_type == t)
    &&& (q.tags.len() > 0 ==> has_any_tag(q.tags, e.tags))
    &&& (q.active_only ==> e.is_active)
}

/// The entries that pass the filters of `q`, in book order.
pub open spec fn matching(q: QueryView, es: Seq<EntryView>) -> Seq<EntryView> {
    es.filter(|e: EntryView| accepts(q, e))
}

/// The portfolio value of an entry, zero when it has no statistics.
pub open spec fn total_value_of(e: EntryView) -> Amount {
    match e.stats {
        Some(s) => s.total_value,
        None => Amount { mantissa: 0, scale: 0 },
    }
}

/// `a` sorts no later than `b` on field `f`, in ascending order.
pub open spec fn key_le(f: AddressSortField, a: EntryView, b: EntryView) -> bool {
    match f {
        AddressSortField::Label => seq_le(display_name_of(a), display_name_of(b)),
        AddressSortField::Address => seq_le(a.address, b.address),
        AddressSortField::AddedAt => a.metadata.added_at <= b.metadata.added_at,
        AddressSortField::UpdatedAt => a.metadata.updated_at <= b.metadata.updated_at,
        AddressSortField::TotalValue => amount_le(total_value_of(a), total_value_of(b)),
        AddressSortField::QueryCount => a.metadata.query_count <= b.metadata.query_count,
    }
}

/// `a` may come before `b` in the results of `q`.
pub open spec fn ordered_le(q: QueryView, a: EntryView, b: EntryView) -> bool {
    if q.ascending {
        key_le(q.sort_by, a, b)
    } else {
        key_le(q.sort_by, b, a)
    }
}

/// `s` is in the order that `q` asks for.
pub open spec fn sorted_for(q: QueryView, s: Seq<EntryView>) -> bool {
    forall|i: int, j: int| 0 <= i < j < s.len() ==> ordered_le(q, #[trigger] s[i], #[trigger] s[j])
}

/// `x` placed into `s` right after the last entry that may come before it:
/// on a sorted `s`, after every entry whose key equals its own.
pub open spec fn insert_ordered(q: QueryView, s: Seq<EntryView>, x: EntryView) -> Seq<EntryView>
    decreases s.len(),
{
    if s.len() == 0 || ordered_le(q, s.last(), x) {
        s.push(x)
    } else {
        insert_ordered(q, s.drop_last(), x).push(s.last())
    }
}

/// `m` stably sorted in the order `q` asks for: entries whose keys are equal
/// keep the order they have in `m`.
pub open spec fn stable_sorted(q: QueryView, m: Seq<EntryView>) -> Seq<EntryView>
    decreases m.len(),
{
    if m.len() == 0 {
        m
    } else {
        insert_ordered(q, stable_sorted(q, m.drop_last()), m.last())
    }
}

/// `s` cut to the limit of `q`.
pub open spec fn limited(q: QueryView, s: Seq<EntryView>) -> Seq<EntryView> {
    match q.limit {
        Some(n) => if n < s.len() {
            s.take(n as int)
        } else {
            s
        },
        None => s,
    }
}

/// Sorting by display name does not panic: when two or more entries match,
/// each of them can be shown.
pub open spec fn query_ok(q: QueryView, es: Seq<EntryView>) -> bool {
    (q.sort_by == AddressSortField::Label && matching(q, es).len() >= 2) ==> forall|i: int|
        0 <= i < matching(q, es).len() ==> display_ok(#[trigger] matching(q, es)[i])
}

/// The values of a vector of entry references.
pub open spec fn refs_view(v: Seq<&AddressEntry>) -> Seq<EntryView> {
    v.map_values(|r: &AddressEntry| r@)
}

proof fn lemma_key_le_total(f: AddressSortField, a: EntryView, b: EntryView)
    ensures
        key_le(f, a, b) || key_le(f, b, a),
{
    match f {
        AddressSortField::Label => lemma_seq_le_total(display_name_of(a), display_name_of(b)),
        AddressSortField::Address => lemma_seq_le_total(a.address, b.address),
        _ => {},
    }
}

proof fn lemma_key_le_trans(f: AddressSortField, a: EntryView, b: EntryView, c: EntryView)
    requires
        key_le(f, a, b),
        key_le(f, b, c),
    ensures
        key_le(f, a, c),
{
    match f {
        AddressSortField::Label => lemma_seq_le_trans(
            display_name_of(a),
            display_name_of(b),
            display_name_of(c),
        ),
        AddressSortField::Address => lemma_seq_le_trans(a.address, b.address, c.address),
        AddressSortField::TotalValue => lemma_amount_le_trans(
            total_value_of(a),
            total_value_of(b),
            total_value_of(c),
        ),
        _ => {},
    }
}

proof fn lemma_insert_ordered_at(q: QueryView, s: Seq<EntryView>, x: EntryView, p: int)
    requires
        0 <= p <= s.len(),
        forall|t: int| p <= t < s.len() ==> !ordered_le(q, #[trigger] s[t], x),
        p > 0 ==> ordered_le(q, s[p - 1], x),
    ensures
        insert_ordered(q, s, x) == s.insert(p, x),
    decreases s.len(),
{
    if s.len() == 0 {
        assert(s.push(x) =~= s.insert(p, x));
    } else if ordered_le(q, s.last(), x) {
        assert(p == s.len());
        assert(s.push(x) =~= s.insert(p, x));
    } else {
        assert(p < s.len());
        let d = s.drop_last();
        assert forall|t: int| p <= t < d.len() implies !ordered_le(q, #[trigger] d[t], x) by {
            assert(d[t] == s[t]);
        }
        lemma_insert_ordered_at(q, d, x, p);
        assert(d.insert(p, x).push(s.last()) =~= s.insert(p, x));
    }
}

proof fn lemma_ordered_total(q: QueryView, a: EntryView, b: EntryView)
    ensures
        ordered_le(q, a, b) || ordered_le(q, b, a),
{
    lemma_key_le_total(q.sort_by, a, b);
}

proof fn lemma_ordered_trans(q: QueryView, a: EntryView, b: EntryView, c: EntryView)
    requires
        ordered_le(q, a, b),
        ordered_le(q, b, c),
    ensures
        ordered_le(q, a, c),
{
    if q.ascending {
        lemma_key_le_trans(q.sort_by, a, b, c);
    } else {
        lemma_key_le_trans(q.sort_by, c, b, a);
    }
}

fn total_value_exec(e: &AddressEntry) -> (v: Amount)
    ensures
        v == total_value_of(e@),
{
    match &e.stats {
        Some(s) => s.total_value,
        None => Amount { mantissa: 0, scale: 0 },
    }
}

fn key_le_exec(f: AddressSortField, a: &AddressEntry, b: &AddressEntry) -> (r: bool)
    requires
        f == AddressSortField::Label ==> display_ok(a@) && display_ok(b@),
    ensures
        r == key_le(f, a@, b@),
{
    match f {
        AddressSortField::Label => {
            let x = a.display_name();
            let y = b.display_name();
            str_le(x.as_str(), y.as_str())
        },
        AddressSortField::Address => str_le(a.address.as_str(), b.address.as_str()),
        AddressSortField::AddedAt => a.metadata.added_at <= b.metadata.added_at,
        AddressSortField::UpdatedAt => a.metadata.updated_at <= b.metadata.updated_at,
        AddressSortField::TotalValue => amount_order(total_value_exec(a), total_value_exec(b)) <= 0,
        AddressSortField::QueryCount => a.metadata.query_count <= b.metadata.query_count,
    }
}

fn ordered_le_exec(q: &AddressQuery, a: &AddressEntry, b: &AddressEntry) -> (r: bool)
    requires
        q.sort_by == AddressSortField::Label ==> display_ok(a@) && display_ok(b@),
    ensures
        r == ordered_le(q@, a@, b@),
{
    if q.ascending {
        key_le_exec(q.sort_by, a, b)
    } else {
        key_le_exec(q.sort_by, b, a)
    }
}

fn has_any_tag_exec(wanted: &Vec<String>, tags: &Vec<String>) -> (r: bool)
    ensures
        r == has_any_tag(strings_view(wanted@), strings_view(tags@)),
{
    let mut i: usize = 0;
    while i < wanted.len()
        invariant
            i <= wanted.len(),
            forall|x: int, y: int|
                0 <= x < i && 0 <= y < tags.len() ==> #[trigger] strings_view(wanted@)[x]
                    != #[trigger] strings_view(tags@)[y],
        decreases wanted.len() - i,
    {
        let mut j: usize = 0;
        while j < tags.len()
            invariant
                i < wanted.len(),
                j <= tags.len(),
                forall|x: int, y: int|
                    0 <= x < i && 0 <= y < tags.len() ==> #[trigger] strings_view(wanted@)[x]
                        != #[trigger] strings_view(tags@)[y],
                forall|y: int| 0 <= y < j ==> strings_view(wanted@)[i as int] != #[trigger] strings_view(tags@)[y],
            decreases tags.len() - j,
        {
            if str_eq(wanted[i].as_str(), tags[j].as_str()) {
                proof {
                    assert(strings_view(wanted@)[i as int] == strings_view(tags@)[j as int]);
                }
                return true;
            }
            j = j + 1;
        }
        i = i + 1;
    }
    false
}

fn accepts_exec(q: &AddressQuery, e: &AddressEntry) -> (r: bool)
    ensures
        r == accepts(q@, e@),
{
    if let Some(search) = &q.search {
        if !e.matches_search(search.as_str()) {
            return false;
        }
    }
    if let Some(t) = q.address_type {
        if e.address_type != t {
            return false;
        }
    }
    if q.tags.len() > 0 {
        if !has_any_tag_exec(&q.tags, &e.tags) {
            return false;
        }
    }
    if q.active_only && !e.is_active {
        return false;
    }
    true
}

proof fn lemma_filter_step(q: QueryView, es: Seq<EntryView>, i: int)
    requires
        0 <= i < es.len(),
    ensures
        matching(q, es.take(i + 1)) == if accepts(q, es[i]) {
            matching(q, es.take(i)).push(es[i])
        } else {
            matching(q, es.take(i))
        },
{
    reveal(Seq::filter);
    assert(es.take(i + 1).drop_last() =~= es.take(i));
}

proof fn lemma_insert_multiset(s: Seq<EntryView>, p: int, x: EntryView)
    requires
        0 <= p <= s.len(),
    ensures
        s.insert(p, x).to_multiset() =~= s.to_multiset().insert(x),
{
    let t = s.insert(p, x);
    assert(t.remove(p) =~= s);
    assert(t.to_multiset().remove(t[p]) =~= s.to_multiset());
    assert(t.contains(x)) by {
        assert(t[p] == x);
    }
    assert(t.to_multiset().count(x) > 0);
}

impl AddressBook {
    /// The entries that pass the filters of `query` (search term, type, any of
    /// the tags, active only), sorted by the query's field in its direction
    /// and cut to its limit.
    pub fn query(&self, query: &AddressQuery) -> (res: Vec<&AddressEntry>)
        requires
            query_ok(query@, self@.entries),
        ensures
            refs_view(res@) == limited(query@, stable_sorted(query@, matching(query@, self@.entries))),
            stable_sorted(query@, matching(query@, self@.entries)).to_multiset() == matching(
                query@,
                self@.entries,
            ).to_multiset(),
            sorted_for(query@, stable_sorted(query@, matching(query@, self@.entries))),
    {
        let ghost es = self@.entries;
        let ghost m = matching(query@, es);
        let mut found: Vec<&AddressEntry> = Vec::new();
        let mut i: usize = 0;
        proof {
            reveal(Seq::filter);
            assert(es.take(0) =~= Seq::<EntryView>::empty());
            assert(refs_view(found@) =~= matching(query@, es.take(0)));
        }
        while i < self.entries.len()
            invariant
                i <= self.entries.len(),
                es == self@.entries,
                refs_view(found@) == matching(query@, es.take(i as int)),
            decreases self.entries.len() - i,
        {
            proof {
                lemma_filter_step(query@, es, i as int);
            }
            if accepts_exec(query, &self.entries[i]) {
                found.push(&self.entries[i]);
                proof {
                    assert(refs_view(found@) =~= matching(query@, es.take(i as int)).push(es[i as int]));
                }
            }
            i = i + 1;
        }
        proof {
            assert(es.take(i as int) =~= es);
        }
        let mut sorted: Vec<&AddressEntry> = Vec::new();
        let mut k: usize = 0;
        proof {
            assert(m.take(0) =~= Seq::<EntryView>::empty());
            assert(refs_view(sorted@) =~= Seq::<EntryView>::empty());
        }
        while k < found.len()
            invariant
                k <= found.len(),
                refs_view(found@) == m,
                m == matching(query@, es),
                query_ok(query@, es),
                refs_view(sorted@).to_multiset() == m.take(k as int).to_multiset(),
                refs_view(sorted@).len() == k,
                refs_view(sorted@) == stable_sorted(query@, m.take(k as int)),
                sorted_for(query@, refs_view(sorted@)),
                forall|t: int| 0 <= t < sorted.len() ==> m.contains(#[trigger] refs_view(sorted@)[t]),
            decreases found.len() - k,
        {
            let x = found[k];
            let ghost xv = x@;
            assert(xv == m[k as int]);
            let ghost s = refs_view(sorted@);
            proof {
                if query@.sort_by == AddressSortField::Label && k > 0 {
                    assert(m.len() >= 2);
                    assert(display_ok(matching(query@, es)[k as int]));
                    assert forall|t: int| 0 <= t < s.len() implies display_ok(#[trigger] s[t]) by {
                        assert(m.contains(s[t]));
                        let j = choose|j: int| 0 <= j < m.len() && m[j] == s[t];
                        assert(display_ok(matching(query@, es)[j]));
                    }
                    assert forall|t: int| 0 <= t < s.len() implies display_ok(#[trigger] sorted@[t]@) by {
                        assert(s[t] == sorted@[t]@);
                    }
                }
            }
            let mut p: usize = sorted.len();
            while p > 0 && !ordered_le_exec(query, sorted[p - 1], x)
                invariant
                    p <= sorted.len(),
                    s == refs_view(sorted@),
                    xv == x@,
                    m == matching(query@, es),
                    query_ok(query@, es),
                    m.contains(xv),
                    query@.sort_by == AddressSortField::Label && sorted.len() > 0 ==> display_ok(xv)
                        && forall|t: int| 0 <= t < s.len() ==> display_ok(#[trigger] sorted@[t]@),
                    forall|t: int| 0 <= t < sorted.len() ==> m.contains(#[trigger] s[t]),
                    forall|t: int| p <= t < sorted.len() ==> !ordered_le(query@, #[trigger] s[t], xv),
                decreases p,
            {
                p = p - 1;
            }
            proof {
                assert forall|t: int| 0 <= t < p implies ordered_le(query@, #[trigger] s[t], xv) by {
                    if t < p - 1 {
                        lemma_ordered_trans(query@, s[t], s[p - 1], xv);
                    }
                }
                assert forall|t: int| p <= t < s.len() implies ordered_le(query@, xv, #[trigger] s[t]) by {
                    lemma_ordered_total(query@, s[t], xv);
                }
            }
            sorted.insert(p, x);
            proof {
                let s2 = refs_view(sorted@);
                assert(s2 =~= s.insert(p as int, xv));
                assert forall|t: int| p <= t < s.len() implies !ordered_le(query@, #[trigger] s[t], xv) by {}
                lemma_insert_ordered_at(query@, s, xv, p as int);
                assert(m.take(k + 1).drop_last() =~= m.take(k as int));
                lemma_insert_multiset(s, p as int, xv);
                assert(m.take(k + 1) =~= m.take(k as int).push(xv));
                assert forall|a: int, b: int| 0 <= a < b < s2.len() implies ordered_le(
                    query@,
                    #[trigger] s2[a],
                    #[trigger] s2[b],
                ) by {
                    if b < p {
                        assert(s2[a] == s[a] && s2[b] == s[b]);
                    } else if b == p {
                        assert(s2[a] == s[a]);
                    } else if a < p {
                        assert(s2[a] == s[a] && s2[b] == s[b - 1]);
                        lemma_ordered_trans(query@, s[a], xv, s[b - 1]);
                    } else if a == p {
                        assert(s2[b] == s[b - 1]);
                    } else {
                        assert(s2[a] == s[a - 1] && s2[b] == s[b - 1]);
                    }
                }
                assert forall|t: int| 0 <= t < s2.len() implies m.contains(#[trigger] s2[t]) by {
                    if t < p {
                        assert(s2[t] == s[t]);
                    } else if t > p {
                        assert(s2[t] == s[t - 1]);
                    }
                }
            }
            k = k + 1;
        }
        proof {
            assert(m.take(k as int) =~= m);
        }
        let ghost full = refs_view(sorted@);
        if let Some(limit) = query.limit {
            sorted.truncate(limit);
        }
        proof {
            assert(refs_view(sorted@) =~= limited(query@, full));
        }
        sorted
    }
}

} // verus!
