//! The market database listing: the query it sends, how it pages, the cells
//! of its table, and the key handling of the database browser.

use vstd::prelude::*;
use crate::address_book::types::{opt_view, str_eq};
use crate::text::{
    contains_seq, occurs_at, chars_of, copy_range, decimal, join_strings, joined_with, string_of, strings_view, u64_decimal,
    utf8_len, utf8_len_capped,
};

verus! {

/// The filters of a database listing; the minimum volume is given as the
/// text that stands in the query.
#[derive(Debug)]
pub struct DbListFilters {
    pub active_only: bool,
    pub closed_only: bool,
    pub category: Option<String>,
    pub min_volume: Option<String>,
}

/// The listing opens the browser unless interactivity is switched off.
pub fn db_list_interactive(interactive: bool, no_interactive: bool) -> (r: bool)
    ensures
        r == (interactive && !no_interactive),
{
    interactive && !no_interactive
}

/// The conditions of a listing's query, in order: active, closed, minimum
/// volume, category.
pub open spec fn list_conditions(f: DbListFilters) -> Seq<Seq<char>> {
    (if f.active_only {
        seq!["active = true"@]
    } else {
        Seq::empty()
    }) + (if f.closed_only {
        seq!["closed = true"@]
    } else {
        Seq::empty()
    }) + (match opt_view(f.min_volume) {
        Some(v) => seq!["volume >= "@ + v],
        None => Seq::empty(),
    }) + (match opt_view(f.category) {
        Some(c) => seq!["category = '"@ + c + "'"@],
        None => Seq::empty(),
    })
}

proof fn lemma_seq4_contains(
    a: Seq<Seq<char>>,
    b: Seq<Seq<char>>,
    c: Seq<Seq<char>>,
    d: Seq<Seq<char>>,
    x: Seq<char>,
)
    ensures
        (a + b + c + d).contains(x) <==> (a.contains(x) || b.contains(x) || c.contains(x)
            || d.contains(x)),
{
    let s = a + b + c + d;
    if s.contains(x) {
        let k = choose|k: int| 0 <= k < s.len() && s[k] == x;
        if k < a.len() {
            assert(a[k] == x);
        } else if k < a.len() + b.len() {
            assert(b[k - a.len()] == x);
        } else if k < a.len() + b.len() + c.len() {
            assert(c[k - a.len() - b.len()] == x);
        } else {
            assert(d[k - a.len() - b.len() - c.len()] == x);
        }
    }
    if a.contains(x) {
        let k = choose|k: int| 0 <= k < a.len() && a[k] == x;
        assert(s[k] == x);
    }
    if b.contains(x) {
        let k = choose|k: int| 0 <= k < b.len() && b[k] == x;
        assert(s[a.len() + k] == x);
    }
    if c.contains(x) {
        let k = choose|k: int| 0 <= k < c.len() && c[k] == x;
        assert(s[a.len() + b.len() + k] == x);
    }
    if d.contains(x) {
        let k = choose|k: int| 0 <= k < d.len() && d[k] == x;
        assert(s[a.len() + b.len() + c.len() + k] == x);
    }
}

/// Each filter of a listing adds the condition that keeps exactly the
/// markets it asks for, and only a filter that is set adds one:
/// `--active-only` adds `active = true`, `--closed-only` adds
/// `closed = true`, a minimum volume `v` adds `volume >= v` and a category
/// `c` adds `category = 'c'`; no condition ever selects inactive or open
/// markets.
pub proof fn lemma_list_filters_select(f: DbListFilters)
    ensures
        list_conditions(f).contains("active = true"@) <==> f.active_only,
        list_conditions(f).contains("closed = true"@) <==> f.closed_only,
        !list_conditions(f).contains("active = false"@),
        !list_conditions(f).contains("closed = false"@),
        f.min_volume matches Some(v) ==> list_conditions(f).contains("volume >= "@ + v@),
        f.category matches Some(c) ==> list_conditions(f).contains("category = '"@ + c@ + "'"@),
        list_conditions(f).len() == (if f.active_only {
            1int
        } else {
            0
        }) + (if f.closed_only {
            1int
        } else {
            0
        }) + (if f.min_volume is Some {
            1int
        } else {
            0
        }) + (if f.category is Some {
            1int
        } else {
            0
        }),
{
    reveal_strlit("active = true");
    reveal_strlit("closed = true");
    reveal_strlit("active = false");
    reveal_strlit("closed = false");
    reveal_strlit("volume >= ");
    reveal_strlit("category = '");
    let a: Seq<Seq<char>> = if f.active_only {
        seq!["active = true"@]
    } else {
        Seq::empty()
    };
    let b: Seq<Seq<char>> = if f.closed_only {
        seq!["closed = true"@]
    } else {
        Seq::empty()
    };
    let c: Seq<Seq<char>> = match opt_view(f.min_volume) {
        Some(v) => seq!["volume >= "@ + v],
        None => Seq::empty(),
    };
    let d: Seq<Seq<char>> = match opt_view(f.category) {
        Some(g) => seq!["category = '"@ + g + "'"@],
        None => Seq::empty(),
    };
    assert(list_conditions(f) == a + b + c + d);
    let targets = seq!["active = true"@, "closed = true"@, "active = false"@, "closed = false"@];
    assert forall|i: int| 0 <= i < 4 implies {
        let x = #[trigger] targets[i];
        (a + b + c + d).contains(x) <==> (a.contains(x) || b.contains(x) || c.contains(x)
            || d.contains(x))
    } by {
        lemma_seq4_contains(a, b, c, d, targets[i]);
    }
    assert forall|i: int| 0 <= i < 4 implies !c.contains(#[trigger] targets[i]) && !d.contains(
        targets[i],
    ) by {
        let x = targets[i];
        if c.contains(x) {
            assert(c[0][0] == 'v');
            assert(x[0] != 'v');
        }
        if d.contains(x) {
            assert(d[0][1] == 'a');
            assert(d[0][0] == 'c');
            assert(x[0] != 'c' || x[1] != 'a');
        }
    }
    assert(targets[0] == "active = true"@);
    assert(targets[1] == "closed = true"@);
    assert(targets[2] == "active = false"@);
    assert(targets[3] == "closed = false"@);
    assert("active = true"@ != "closed = true"@) by {
        assert("active = true"@[0] != "closed = true"@[0]);
    }
    assert("active = false"@ != "active = true"@) by {
        assert("active = false"@.len() != "active = true"@.len());
    }
    assert("closed = false"@ != "closed = true"@) by {
        assert("closed = false"@.len() != "closed = true"@.len());
    }
    assert("active = false"@ != "closed = true"@) by {
        assert("active = false"@.len() != "closed = true"@.len());
    }
    assert("closed = false"@ != "active = true"@) by {
        assert("closed = false"@.len() != "active = true"@.len());
    }
    if f.active_only {
        assert(a[0] == "active = true"@);
    }
    if f.closed_only {
        assert(b[0] == "closed = true"@);
    }
    if let Some(v) = opt_view(f.min_volume) {
        assert(c[0] == "volume >= "@ + v);
        lemma_seq4_contains(a, b, c, d, "volume >= "@ + v);
    }
    if let Some(g) = opt_view(f.category) {
        assert(d[0] == "category = '"@ + g + "'"@);
        lemma_seq4_contains(a, b, c, d, "category = '"@ + g + "'"@);
    }
}

proof fn lemma_contains_middle(a: Seq<char>, x: Seq<char>, b: Seq<char>)
    ensures
        contains_seq(a + x + b, x),
{
    assert((a + x + b).subrange(a.len() as int, (a.len() + x.len()) as int) =~= x);
    assert(occurs_at(a + x + b, x, a.len() as int));
}

proof fn lemma_contains_within(h: Seq<char>, x: Seq<char>, a: Seq<char>, b: Seq<char>)
    requires
        contains_seq(h, x),
    ensures
        contains_seq(a + h + b, x),
{
    let i = choose|i: int| occurs_at(h, x, i);
    assert((a + h + b).subrange(a.len() + i, a.len() + i + x.len()) =~= h.subrange(i, i + x.len()));
    assert(occurs_at(a + h + b, x, a.len() + i));
}

proof fn lemma_joined_contains(v: Seq<Seq<char>>, sep: Seq<char>, k: int)
    requires
        0 <= k < v.len(),
    ensures
        contains_seq(joined_with(v, sep), v[k]),
    decreases v.len(),
{
    if v.len() == 1 {
        lemma_contains_middle(Seq::empty(), v[0], Seq::empty());
        assert(Seq::<char>::empty() + v[0] + Seq::<char>::empty() =~= v[0]);
    } else if k == v.len() - 1 {
        lemma_contains_middle(joined_with(v.drop_last(), sep) + sep, v.last(), Seq::empty());
        assert(joined_with(v.drop_last(), sep) + sep + v.last() + Seq::<char>::empty() =~= joined_with(
            v,
            sep,
        ));
    } else {
        lemma_joined_contains(v.drop_last(), sep, k);
        lemma_contains_within(joined_with(v.drop_last(), sep), v[k], Seq::empty(), sep + v.last());
        assert(Seq::<char>::empty() + joined_with(v.drop_last(), sep) + (sep + v.last()) =~= joined_with(
            v,
            sep,
        ));
    }
}

/// The text of a listing's query: it selects from `markets`; it holds the
/// condition of each filter that is set; where the database is small or the
/// sort is by creation or update time it orders by the field asked for,
/// ascending for `asc` and descending otherwise; and where a filter is set
/// or the offset is not zero it reads at most 10000 markets from the
/// offset.
pub proof fn lemma_list_query_text(
    f: DbListFilters,
    sort_by: Seq<char>,
    order: Seq<char>,
    total_count: u64,
    limit: u64,
    offset: u64,
)
    ensures
        ({
            let q = list_query(f, sort_by, order, total_count, limit, offset);
            &&& q.take(21) == "SELECT * FROM markets"@
            &&& (f.active_only ==> contains_seq(q, "active = true"@))
            &&& (f.closed_only ==> contains_seq(q, "closed = true"@))
            &&& (f.min_volume matches Some(v) ==> contains_seq(q, "volume >= "@ + v@))
            &&& (f.category matches Some(c) ==> contains_seq(q, "category = '"@ + c@ + "'"@))
            &&& ((total_count < 10000 || sort_by == "created_at"@ || sort_by == "updated_at"@)
                ==> contains_seq(
                q,
                " ORDER BY "@ + sort_by + if order == "asc"@ {
                    " ASC"@
                } else {
                    " DESC"@
                },
            ))
            &&& ((f.active_only || f.closed_only || f.min_volume is Some || f.category is Some
                || offset > 0) ==> contains_seq(
                q,
                " LIMIT "@ + decimal(
                    (if limit > 10000 {
                        10000
                    } else {
                        limit
                    }) as nat,
                ) + " START "@ + decimal(offset as nat),
            ))
        }),
{
    reveal_strlit("SELECT * FROM markets");
    reveal_strlit(" ");
    reveal_strlit("ASC");
    reveal_strlit("DESC");
    reveal_strlit(" ASC");
    reveal_strlit(" DESC");
    lemma_list_filters_select(f);
    let conds = list_conditions(f);
    let sel = "SELECT * FROM markets"@;
    let w = where_part(conds);
    let srt = sort_part(list_sorts(total_count, sort_by), sort_by, order);
    let win = window_part(conds.len() == 0 && offset == 0, limit, offset);
    let q = list_query(f, sort_by, order, total_count, limit, offset);
    assert(q == sel + w + srt + win);
    assert(q.take(21) =~= sel);
    assert forall|x: Seq<char>| conds.contains(x) implies contains_seq(q, x) by {
        let k = choose|k: int| 0 <= k < conds.len() && conds[k] == x;
        lemma_joined_contains(conds, " AND "@, k);
        lemma_contains_within(joined_with(conds, " AND "@), x, " WHERE "@, Seq::empty());
        assert(" WHERE "@ + joined_with(conds, " AND "@) + Seq::<char>::empty() =~= w);
        lemma_contains_within(w, x, sel, srt + win);
        assert(sel + w + (srt + win) =~= q);
    }
    if list_sorts(total_count, sort_by) {
        let d = if order == "asc"@ {
            " ASC"@
        } else {
            " DESC"@
        };
        assert(srt =~= " ORDER BY "@ + sort_by + d);
        lemma_contains_middle(sel + w, srt, win);
    }
    if !(conds.len() == 0 && offset == 0) {
        lemma_contains_middle(sel + w + srt, win, Seq::empty());
        assert(sel + w + srt + win + Seq::<char>::empty() =~= q);
    }
}

/// Whether the listing sorts: always on a small database, and by creation
/// or update time on any.
pub open spec fn list_sorts(total_count: u64, sort_by: Seq<char>) -> bool {
    total_count < 10000 || sort_by == "created_at"@ || sort_by == "updated_at"@
}

/// The listing's query: the conditions joined by `AND`, the sort clause
/// where it sorts, and a window where it does not read in batches.
pub open spec fn list_query(
    f: DbListFilters,
    sort_by: Seq<char>,
    order: Seq<char>,
    total_count: u64,
    limit: u64,
    offset: u64,
) -> Seq<char> {
    let conds = list_conditions(f);
    "SELECT * FROM markets"@ + where_part(conds) + sort_part(list_sorts(total_count, sort_by), sort_by, order)
        + window_part(conds.len() == 0 && offset == 0, limit, offset)
}

/// How a listing reads the database.
#[derive(Debug)]
pub struct ListQueryPlan {
    /// The query text.
    pub query: String,
    /// Without conditions from the start, all markets are read in batches.
    pub batched: bool,
    /// Whether the query sorts.
    pub sorted: bool,
}

/// The conditions of a listing's query.
pub fn conditions_of(f: &DbListFilters) -> (r: Vec<String>)
    ensures
        strings_view(r@) == list_conditions(*f),
{
    let mut r: Vec<String> = Vec::new();
    if f.active_only {
        r.push(String::from_str("active = true"));
    }
    if f.closed_only {
        r.push(String::from_str("closed = true"));
    }
    if let Some(v) = &f.min_volume {
        let mut c = String::from_str("volume >= ");
        c.append(v.as_str());
        r.push(c);
    }
    if let Some(cat) = &f.category {
        let mut c = String::from_str("category = '");
        c.append(cat.as_str());
        c.append("'");
        r.push(c);
    }
    proof {
        assert(strings_view(r@) =~= list_conditions(*f));
    }
    r
}

/// The `WHERE` part of a listing's query.
pub open spec fn where_part(conds: Seq<Seq<char>>) -> Seq<char> {
    if conds.len() > 0 {
        " WHERE "@ + joined_with(conds, " AND "@)
    } else {
        Seq::empty()
    }
}

/// The `ORDER BY` part of a listing's query, where it sorts.
pub open spec fn sort_part(sorted: bool, sort_by: Seq<char>, order: Seq<char>) -> Seq<char> {
    if sorted {
        " ORDER BY "@ + sort_by + " "@ + (if order == "asc"@ {
            "ASC"@
        } else {
            "DESC"@
        })
    } else {
        Seq::empty()
    }
}

/// The window of a listing's query that does not read in batches: at most
/// 10000 markets from the offset.
pub open spec fn window_part(batched: bool, limit: u64, offset: u64) -> Seq<char> {
    if batched {
        Seq::empty()
    } else {
        " LIMIT "@ + decimal(
            (if limit > 10000 {
                10000
            } else {
                limit
            }) as nat,
        ) + " START "@ + decimal(offset as nat)
    }
}

fn where_text(conds: &Vec<String>) -> (r: String)
    ensures
        r@ == where_part(strings_view(conds@)),
{
    let mut t = String::new();
    if conds.len() > 0 {
        t.append(" WHERE ");
        let j = join_strings(conds, " AND ");
        t.append(j.as_str());
    }
    t
}

fn sort_text(sorted: bool, sort_by: &str, order: &str) -> (r: String)
    ensures
        r@ == sort_part(sorted, sort_by@, order@),
{
    let mut t = String::new();
    if sorted {
        t.append(" ORDER BY ");
        t.append(sort_by);
        t.append(" ");
        if str_eq(order, "asc") {
            t.append("ASC");
        } else {
            t.append("DESC");
        }
    }
    t
}

fn window_text(batched: bool, limit: u64, offset: u64) -> (r: String)
    ensures
        r@ == window_part(batched, limit, offset),
{
    let mut t = String::new();
    if !batched {
        let effective: u64 = if limit > 10000 {
            10000
        } else {
            limit
        };
        t.append(" LIMIT ");
        let e = u64_decimal(effective);
        t.append(e.as_str());
        t.append(" START ");
        let o = u64_decimal(offset);
        t.append(o.as_str());
    }
    t
}

/// The query of a database listing, and how it reads.
pub fn build_list_query(
    f: &DbListFilters,
    sort_by: &str,
    order: &str,
    total_count: u64,
    limit: u64,
    offset: u64,
) -> (r: ListQueryPlan)
    ensures
        r.query@ == list_query(*f, sort_by@, order@, total_count, limit, offset),
        r.batched == (list_conditions(*f).len() == 0 && offset == 0),
        r.sorted == list_sorts(total_count, sort_by@),
{
    let conds = conditions_of(f);
    let sorted = total_count < 10000 || str_eq(sort_by, "created_at") || str_eq(
        sort_by,
        "updated_at",
    );
    let batched = conds.len() == 0 && offset == 0;
    let mut q = String::from_str("SELECT * FROM markets");
    let w = where_text(&conds);
    q.append(w.as_str());
    let s = sort_text(sorted, sort_by, order);
    q.append(s.as_str());
    let x = window_text(batched, limit, offset);
    q.append(x.as_str());
    proof {
        let conds_v = list_conditions(*f);
        assert(where_part(conds_v) == (if conds_v.len() > 0 {
            " WHERE "@ + joined_with(conds_v, " AND "@)
        } else {
            Seq::<char>::empty()
        }));
        assert(q@ =~= "SELECT * FROM markets"@ + where_part(conds_v) + sort_part(sorted, sort_by@, order@)
            + window_part(batched, limit, offset));
    }
    ListQueryPlan { query: q, batched, sorted }
}

/// The paging hints under a listing's table.
#[derive(Debug)]
pub struct PageHints {
    /// The offset of the previous page, when this is not the first.
    pub previous_offset: Option<u64>,
    /// The offset of the next page, when this page is full.
    pub next_offset: Option<u64>,
    /// The first and last numbers shown, when not all markets are shown
    /// from the start.
    pub showing: Option<(u64, u64)>,
}

/// A page that is full may have a next one; the previous page starts
/// `limit` earlier, at 0 at the least.
pub fn page_hints(limit: u64, offset: u64, displayed: u64, total_count: u64) -> (r: PageHints)
    requires
        offset + limit <= u64::MAX,
        offset + displayed <= u64::MAX,
        offset < u64::MAX,
    ensures
        r.previous_offset == (if offset > 0 {
            Some((if offset >= limit {
                offset - limit
            } else {
                0
            }) as u64)
        } else {
            None
        }),
        r.next_offset == (if displayed == limit {
            Some((offset + limit) as u64)
        } else {
            None
        }),
        r.showing == (if offset > 0 || displayed < total_count {
            Some(((offset + 1) as u64, (offset + displayed) as u64))
        } else {
            None
        }),
{
    let previous_offset = if offset > 0 {
        Some(offset.saturating_sub(limit))
    } else {
        None
    };
    let next_offset = if displayed == limit {
        Some(offset + limit)
    } else {
        None
    };
    let showing = if offset > 0 || displayed < total_count {
        Some((offset + 1, offset + displayed))
    } else {
        None
    };
    PageHints { previous_offset, next_offset, showing }
}

/// A question as its table cell shows it: cut to 47 characters and an
/// ellipsis when longer than 48 bytes.
pub open spec fn question_cell_text(q: Seq<char>) -> Seq<char> {
    if utf8_len(q) > 48 {
        q.take(if q.len() < 47 {
            q.len() as int
        } else {
            47
        }) + seq!['\u{2026}']
    } else {
        q
    }
}

/// The table cell of a market's question.
pub fn question_cell(q: &str) -> (r: String)
    ensures
        r@ == question_cell_text(q@),
{
    let v = chars_of(q);
    let n = utf8_len_capped(&v, 48);
    if n > 48 {
        let k: usize = if v.len() < 47 {
            v.len()
        } else {
            47
        };
        let mut head = copy_range(&v, 0, k);
        head.push('\u{2026}');
        proof {
            assert(head@ =~= q@.take(k as int) + seq!['\u{2026}']);
        }
        string_of(&head)
    } else {
        String::from_str(q)
    }
}

/// The table cell of a market's category: its first 13 characters, `-`
/// without one.
pub fn category_cell(c: Option<&str>) -> (r: String)
    ensures
        r@ == (match c {
            Some(t) => t@.take(if t@.len() < 13 {
                t@.len() as int
            } else {
                13
            }),
            None => "-"@.take(1),
        }),
{
    let v = match c {
        Some(t) => chars_of(t),
        None => chars_of("-"),
    };
    proof {
        reveal_strlit("-");
    }
    let k: usize = if v.len() < 13 {
        v.len()
    } else {
        13
    };
    let head = copy_range(&v, 0, k);
    string_of(&head)
}

/// The status of a market in the listing.
#[derive(Debug, Clone, Copy, PartialEq, Eq, Structural)]
pub enum MarketStatus {
    Active,
    Closed,
    Inactive,
}

/// Active markets show as active, else closed ones as closed, else inactive.
pub fn market_status(active: bool, closed: bool) -> (r: MarketStatus)
    ensures
        r == (if active {
            MarketStatus::Active
        } else if closed {
            MarketStatus::Closed
        } else {
            MarketStatus::Inactive
        }),
{
    if active {
        MarketStatus::Active
    } else if closed {
        MarketStatus::Closed
    } else {
        MarketStatus::Inactive
    }
}

/// The number of pages of `n` items, `page_size` to a page.
pub open spec fn page_count(n: nat, page_size: nat) -> nat {
    if page_size == 0 {
        0
    } else {
        ((n + page_size - 1) / (page_size as int)) as nat
    }
}

fn pages(n: u64, page_size: u64) -> (r: u64)
    requires
        page_size > 0,
    ensures
        r == page_count(n as nat, page_size as nat),
{
    let q = n / page_size;
    let extra: u64 = if n % page_size == 0 {
        0
    } else {
        1
    };
    proof {
        let ps = page_size as int;
        let ni = n as int;
        assert(ni == ps * (q as int) + (ni % ps)) by (nonlinear_arith)
            requires
                ps > 0,
                q == ni / ps,
        ;
        assert((ni + ps - 1) / ps == q + extra) by (nonlinear_arith)
            requires
                ps > 0,
                ni == ps * (q as int) + (ni % ps),
                0 <= ni % ps < ps,
                extra == (if ni % ps == 0 {
                    0int
                } else {
                    1int
                }),
        {
            if ni % ps == 0 {
                assert(ni + ps - 1 == ps * q + (ps - 1));
            } else {
                assert(ni + ps - 1 == ps * (q + 1) + (ni % ps - 1));
            }
        }
    }
    proof {
        if extra == 1 {
            assert(page_size >= 2);
            assert(q <= n / 2) by (nonlinear_arith)
                requires
                    page_size >= 2,
                    q == n / page_size,
            ;
        }
    }
    q + extra
}

/// A key, as far as the database browser tells keys apart.
#[derive(Debug, Clone, Copy, PartialEq, Eq, Structural)]
pub enum BrowserKey {
    Char(char),
    Esc,
    Enter,
    Backspace,
    Down,
    Up,
    PageDown,
    PageUp,
    Other,
}

/// What the browser does after a key.
#[derive(Debug, Clone, Copy, PartialEq, Eq, Structural)]
pub enum BrowserAction {
    /// Leave the browser.
    Quit,
    /// Nothing more than the state change.
    Stay,
    /// Run the search in the query from the first page.
    StartSearch,
    /// Select the next market.
    SelectNext,
    /// Select the previous market.
    SelectPrevious,
    /// Load the current page.
    LoadPage,
    /// Build the fast search index.
    BuildIndex,
}

/// The value of a browser state.
pub struct BrowserView {
    pub search_query: Seq<char>,
    pub search_mode: bool,
    pub search_loading: bool,
    pub show_help: bool,
    pub show_details: bool,
    pub show_progress: bool,
    pub current_page: u64,
    pub page_size: u64,
    pub total_markets: u64,
    pub total_search_results: u64,
}

impl View for BrowserState {
    type V = BrowserView;

    open spec fn view(&self) -> BrowserView {
        BrowserView {
            search_query: self.search_query@,
            search_mode: self.search_mode,
            search_loading: self.search_loading,
            show_help: self.show_help,
            show_details: self.show_details,
            show_progress: self.show_progress,
            current_page: self.current_page,
            page_size: self.page_size,
            total_markets: self.total_markets,
            total_search_results: self.total_search_results,
        }
    }
}

impl BrowserView {
    /// The number of pages: of the search results while searching, else of
    /// all markets.
    pub open spec fn max_page(&self) -> nat {
        if self.search_query.len() > 0 {
            page_count(self.total_search_results as nat, self.page_size as nat)
        } else {
            page_count(self.total_markets as nat, self.page_size as nat)
        }
    }
}

/// What a key does to the browser, from state `a` to state `b` with action
/// `r`. `q` always quits. While a search loads, Esc cancels it. While
/// typing a query, Enter starts the search, Esc clears it and starts an
/// empty one, characters and Backspace edit it. Otherwise `h`, Enter and `p`
/// toggle help, details and progress, Esc hides details, `/` starts typing a
/// query, Up and Down move the selection, Page Down and Page Up change pages
/// within bounds, and `b` builds the index.
pub open spec fn browser_step(a: BrowserView, key: BrowserKey, b: BrowserView, r: BrowserAction) -> bool {
    &&& b.page_size == a.page_size
    &&& b.total_markets == a.total_markets
    &&& key == BrowserKey::Char('q') ==> r == BrowserAction::Quit && b.search_query == a.search_query
        && b.current_page == a.current_page
    &&& key != BrowserKey::Char('q') && a.search_loading ==> r == BrowserAction::Stay && (key
        == BrowserKey::Esc ==> !b.search_loading && !b.search_mode && b.search_query.len() == 0) && (
    key != BrowserKey::Esc ==> b.search_query == a.search_query && b.search_loading)
    &&& key != BrowserKey::Char('q') && !a.search_loading && a.search_mode ==> match key {
        BrowserKey::Enter => r == BrowserAction::StartSearch && !b.search_mode && b.search_query
            == a.search_query && b.current_page == 0 && b.search_loading,
        BrowserKey::Esc => r == BrowserAction::StartSearch && !b.search_mode && b.search_query.len()
            == 0 && b.current_page == 0 && b.search_loading,
        BrowserKey::Char(c) => r == BrowserAction::Stay && b.search_query == a.search_query.push(c),
        BrowserKey::Backspace => r == BrowserAction::Stay && b.search_query == (
        if a.search_query.len() > 0 {
            a.search_query.drop_last()
        } else {
            a.search_query
        }),
        _ => r == BrowserAction::Stay && b.search_query == a.search_query,
    }
    &&& key != BrowserKey::Char('q') && !a.search_loading && !a.search_mode ==> {
        &&& b.search_query == a.search_query
        &&& b.search_loading == a.search_loading
        &&& b.total_search_results == a.total_search_results
        &&& key != BrowserKey::Char('/') ==> b.search_mode == a.search_mode
        &&& match key {
            BrowserKey::Char('h') => r == BrowserAction::Stay && b.show_help == !a.show_help,
            BrowserKey::Char('/') => r == BrowserAction::Stay && b.search_mode,
            BrowserKey::Down => r == BrowserAction::SelectNext,
            BrowserKey::Up => r == BrowserAction::SelectPrevious,
            BrowserKey::PageDown => if a.current_page + 1 < a.max_page() {
                r == BrowserAction::LoadPage && b.current_page == a.current_page + 1
            } else {
                r == BrowserAction::Stay && b.current_page == a.current_page
            },
            BrowserKey::PageUp => if a.current_page > 0 {
                r == BrowserAction::LoadPage && b.current_page == a.current_page - 1
            } else {
                r == BrowserAction::Stay && b.current_page == a.current_page
            },
            BrowserKey::Enter => r == BrowserAction::Stay && b.show_details == !a.show_details,
            BrowserKey::Esc => r == BrowserAction::Stay && !b.show_details,
            BrowserKey::Char('b') => r == BrowserAction::BuildIndex,
            BrowserKey::Char('p') => r == BrowserAction::Stay && b.show_progress == !a.show_progress,
            _ => r == BrowserAction::Stay,
        }
    }
}

/// Paging down and then up, where paging down moved, comes back to the page
/// it started from.
pub proof fn lemma_page_down_then_up(
    a: BrowserView,
    b: BrowserView,
    c: BrowserView,
    r1: BrowserAction,
    r2: BrowserAction,
)
    requires
        !a.search_loading,
        !a.search_mode,
        browser_step(a, BrowserKey::PageDown, b, r1),
        r1 == BrowserAction::LoadPage,
        browser_step(b, BrowserKey::PageUp, c, r2),
    ensures
        r2 == BrowserAction::LoadPage,
        c.current_page == a.current_page,
{
}

/// Paging up and then down, where paging up moved from a page within the
/// page count, comes back to the page it started from.
pub proof fn lemma_page_up_then_down(
    a: BrowserView,
    b: BrowserView,
    c: BrowserView,
    r1: BrowserAction,
    r2: BrowserAction,
)
    requires
        !a.search_loading,
        !a.search_mode,
        a.current_page < a.max_page(),
        browser_step(a, BrowserKey::PageUp, b, r1),
        r1 == BrowserAction::LoadPage,
        browser_step(b, BrowserKey::PageDown, c, r2),
    ensures
        r2 == BrowserAction::LoadPage,
        c.current_page == a.current_page,
{
}

/// The state of the database browser that its keys change.
#[derive(Debug)]
pub struct BrowserState {
    pub search_query: String,
    pub search_mode: bool,
    pub search_loading: bool,
    pub show_help: bool,
    pub show_details: bool,
    pub show_progress: bool,
    pub current_page: u64,
    pub page_size: u64,
    pub total_markets: u64,
    pub total_search_results: u64,
}

impl BrowserState {
    /// The state is consistent: pages have a size.
    pub open spec fn wf(&self) -> bool {
        self.page_size > 0
    }

    /// Starts a search for `query` from the first page, with no results yet.
    pub fn start_search(&mut self, query: String)
        ensures
            final(self).search_query@ == query@,
            final(self).current_page == 0,
            final(self).search_loading,
            final(self).total_search_results == 0,
            final(self).search_mode == old(self).search_mode,
            final(self).show_help == old(self).show_help,
            final(self).show_details == old(self).show_details,
            final(self).show_progress == old(self).show_progress,
            final(self).page_size == old(self).page_size,
            final(self).total_markets == old(self).total_markets,
    {
        self.search_query = query;
        self.current_page = 0;
        self.search_loading = true;
        self.total_search_results = 0;
    }

    /// What a key does: the step `browser_step` describes.
    pub fn handle_key(&mut self, key: BrowserKey) -> (r: BrowserAction)
        requires
            old(self).wf(),
        ensures
            final(self).wf(),
            browser_step(old(self)@, key, final(self)@, r),
    {
        if key == BrowserKey::Char('q') {
            return BrowserAction::Quit;
        }
        if self.search_loading {
            if key == BrowserKey::Esc {
                self.search_loading = false;
                self.search_mode = false;
                self.search_query = String::new();
            }
            return BrowserAction::Stay;
        }
        if self.search_mode {
            match key {
                BrowserKey::Enter => {
                    self.search_mode = false;
                    let q = self.search_query.clone();
                    self.start_search(q);
                    return BrowserAction::StartSearch;
                },
                BrowserKey::Esc => {
                    self.search_mode = false;
                    self.start_search(String::new());
                    return BrowserAction::StartSearch;
                },
                BrowserKey::Char(c) => {
                    let mut v = chars_of(self.search_query.as_str());
                    v.push(c);
                    self.search_query = string_of(&v);
                },
                BrowserKey::Backspace => {
                    let v = chars_of(self.search_query.as_str());
                    if v.len() > 0 {
                        let w = copy_range(&v, 0, v.len() - 1);
                        proof {
                            assert(w@ =~= v@.drop_last());
                        }
                        self.search_query = string_of(&w);
                    }
                },
                _ => {},
            }
            return BrowserAction::Stay;
        }
        match key {
            BrowserKey::Char('h') => {
                self.show_help = !self.show_help;
                BrowserAction::Stay
            },
            BrowserKey::Char('/') => {
                self.search_mode = true;
                BrowserAction::Stay
            },
            BrowserKey::Down => BrowserAction::SelectNext,
            BrowserKey::Up => BrowserAction::SelectPrevious,
            BrowserKey::PageDown => {
                let searching = chars_of(self.search_query.as_str()).len() > 0;
                let max_page = if searching {
                    pages(self.total_search_results, self.page_size)
                } else {
                    pages(self.total_markets, self.page_size)
                };
                if self.current_page < max_page && self.current_page + 1 < max_page {
                    self.current_page = self.current_page + 1;
                    BrowserAction::LoadPage
                } else {
                    BrowserAction::Stay
                }
            },
            BrowserKey::PageUp => {
                if self.current_page > 0 {
                    self.current_page = self.current_page - 1;
                    BrowserAction::LoadPage
                } else {
                    BrowserAction::Stay
                }
            },
            BrowserKey::Enter => {
                self.show_details = !self.show_details;
                BrowserAction::Stay
            },
            BrowserKey::Esc => {
                self.show_details = false;
                BrowserAction::Stay
            },
            BrowserKey::Char('b') => BrowserAction::BuildIndex,
            BrowserKey::Char('p') => {
                self.show_progress = !self.show_progress;
                BrowserAction::Stay
            },
            _ => BrowserAction::Stay,
        }
    }
}

/// The rows of a page of `n` search results: from the page's offset to one
/// page later, both cut to `n`.
pub fn page_window(current_page: u64, page_size: u64, n: u64) -> (r: (u64, u64))
    requires
        current_page * page_size + page_size <= u64::MAX,
    ensures
        r.0 == (if current_page * page_size < n {
            current_page * page_size
        } else {
            n as int
        }),
        r.1 == (if current_page * page_size + page_size < n {
            current_page * page_size + page_size
        } else {
            n as int
        }),
        r.0 <= r.1 <= n,
{
    proof {
        assert(current_page * page_size <= current_page * page_size + page_size) by (nonlinear_arith)
            requires
                page_size >= 0,
        ;
    }
    let offset = current_page * page_size;
    let start = if offset < n {
        offset
    } else {
        n
    };
    let end = if offset + page_size < n {
        offset + page_size
    } else {
        n
    };
    (start, end)
}

/// A text cut to `keep` characters and an ellipsis when its UTF-8 form is
/// longer than `max_bytes`.
pub open spec fn ellipsized(q: Seq<char>, max_bytes: nat, keep: nat) -> Seq<char> {
    if utf8_len(q) > max_bytes {
        q.take(if q.len() < keep {
            q.len() as int
        } else {
            keep as int
        }) + seq!['\u{2026}']
    } else {
        q
    }
}

/// A market's question as the search results show it: cut to 77
/// characters and an ellipsis when longer than 80 bytes.
pub fn search_question_cell(q: &str) -> (r: String)
    ensures
        r@ == ellipsized(q@, 80, 77),
{
    let v = chars_of(q);
    let n = utf8_len_capped(&v, 80);
    if n > 80 {
        let k: usize = if v.len() < 77 {
            v.len()
        } else {
            77
        };
        let mut head = copy_range(&v, 0, k);
        head.push('\u{2026}');
        proof {
            assert(head@ =~= q@.take(k as int) + seq!['\u{2026}']);
        }
        string_of(&head)
    } else {
        String::from_str(q)
    }
}

/// A search restricted to the category field searches the category for
/// the query.
pub fn search_category(field: &Option<String>, query: &str) -> (r: Option<String>)
    ensures
        match opt_view(*field) {
            Some(f) if f == "category"@ => r matches Some(c) && c@ == query@,
            _ => r is None,
        },
{
    match field {
        Some(f) => if str_eq(f.as_str(), "category") {
            Some(String::from_str(query))
        } else {
            None
        },
        None => None,
    }
}

/// How a measured time or size rates in the health report.
#[derive(Debug, Clone, Copy, PartialEq, Eq, Structural)]
pub enum Rating {
    Good,
    Fair,
    Poor,
}

/// A ping under 100 ms is excellent, under 500 ms good, else poor.
pub fn ping_rating(ms: u64) -> (r: Rating)
    ensures
        r == (if ms < 100 {
            Rating::Good
        } else if ms < 500 {
            Rating::Fair
        } else {
            Rating::Poor
        }),
{
    if ms < 100 {
        Rating::Good
    } else if ms < 500 {
        Rating::Fair
    } else {
        Rating::Poor
    }
}

/// A count under one second is fast, under five seconds moderate, else
/// slow.
pub fn count_time_rating(ms: u64) -> (r: Rating)
    ensures
        r == (if ms < 1000 {
            Rating::Good
        } else if ms < 5000 {
            Rating::Fair
        } else {
            Rating::Poor
        }),
{
    if ms < 1000 {
        Rating::Good
    } else if ms < 5000 {
        Rating::Fair
    } else {
        Rating::Poor
    }
}

/// The size class of a market database.
#[derive(Debug, Clone, Copy, PartialEq, Eq, Structural)]
pub enum DatasetSize {
    Small,
    Medium,
    Large,
    VeryLarge,
}

/// Under 1000 markets is small, under 50000 medium, under 200000 large,
/// else very large.
pub fn dataset_size(count: u64) -> (r: DatasetSize)
    ensures
        r == (if count < 1000 {
            DatasetSize::Small
        } else if count < 50000 {
            DatasetSize::Medium
        } else if count < 200000 {
            DatasetSize::Large
        } else {
            DatasetSize::VeryLarge
        }),
{
    if count < 1000 {
        DatasetSize::Small
    } else if count < 50000 {
        DatasetSize::Medium
    } else if count < 200000 {
        DatasetSize::Large
    } else {
        DatasetSize::VeryLarge
    }
}

/// The query of a benchmark that reads `size` markets.
pub fn benchmark_query(size: u64) -> (r: String)
    ensures
        r@ == "SELECT * FROM markets LIMIT "@ + decimal(size as nat),
{
    let mut q = String::from_str("SELECT * FROM markets LIMIT ");
    let d = u64_decimal(size);
    q.append(d.as_str());
    q
}

/// The query that reads one page of markets in the browser.
pub fn page_query(page_size: u64, offset: u64) -> (r: String)
    ensures
        r@ == "SELECT * FROM markets LIMIT "@ + decimal(page_size as nat) + " START "@ + decimal(
            offset as nat,
        ),
{
    let mut q = String::from_str("SELECT * FROM markets LIMIT ");
    let d = u64_decimal(page_size);
    q.append(d.as_str());
    q.append(" START ");
    let o = u64_decimal(offset);
    q.append(o.as_str());
    q
}

/// The position of the first occurrence of `id` in `ids`, if any.
pub open spec fn first_position(ids: Seq<Seq<char>>, id: Seq<char>) -> Option<int> {
    if exists|i: int| 0 <= i < ids.len() && ids[i] == id {
        Some(choose|i: int| 0 <= i < ids.len() && ids[i] == id && forall|j: int| 0 <= j < i ==> ids[j] != id)
    } else {
        None
    }
}

proof fn lemma_first_position(ids: Seq<Seq<char>>, id: Seq<char>)
    ensures
        first_position(ids, id) matches Some(i) ==> 0 <= i < ids.len() && ids[i] == id,
{
    if exists|i: int| 0 <= i < ids.len() && ids[i] == id {
        let w = choose|i: int| 0 <= i < ids.len() && ids[i] == id;
        lemma_first_occurrence(ids, id, w);
    }
}

proof fn lemma_first_occurrence(ids: Seq<Seq<char>>, id: Seq<char>, w: int)
    requires
        0 <= w < ids.len(),
        ids[w] == id,
    ensures
        exists|i: int| 0 <= i < ids.len() && ids[i] == id && forall|j: int| 0 <= j < i ==> ids[j] != id,
    decreases w,
{
    if exists|j: int| 0 <= j < w && ids[j] == id {
        let j = choose|j: int| 0 <= j < w && ids[j] == id;
        lemma_first_occurrence(ids, id, j);
    } else {
        assert(forall|j: int| 0 <= j < w ==> ids[j] != id);
    }
}

/// How a fetched batch relates to the last market of the previous fetch.
#[derive(Debug, Clone, Copy, PartialEq, Eq, Structural)]
pub enum Overlap {
    /// The previous fetch's last market is not in the batch.
    Disjoint,
    /// It is, followed by this many markets.
    NewAfter(usize),
}

/// Whether the previous fetch's last market is in the batch, and how many
/// markets follow its first occurrence.
pub fn batch_overlap(ids: &Vec<String>, last_id: &str) -> (r: Overlap)
    ensures
        match first_position(strings_view(ids@), last_id@) {
            None => r == Overlap::Disjoint,
            Some(i) => r == Overlap::NewAfter((ids@.len() - i - 1) as usize),
        },
{
    let ghost v = strings_view(ids@);
    let mut i: usize = 0;
    while i < ids.len()
        invariant
            i <= ids.len(),
            v == strings_view(ids@),
            forall|j: int| 0 <= j < i ==> v[j] != last_id@,
        decreases ids.len() - i,
    {
        if str_eq(ids[i].as_str(), last_id) {
            proof {
                assert(v[i as int] == last_id@);
                let c = choose|c: int| 0 <= c < v.len() && v[c] == last_id@ && forall|j: int| 0 <= j < c ==> v[j] != last_id@;
                if c < i {
                    assert(v[c] != last_id@);
                } else if c > i {
                    assert(v[i as int] != last_id@);
                }
            }
            return Overlap::NewAfter(ids.len() - i - 1);
        }
        i = i + 1;
    }
    Overlap::Disjoint
}

/// The cursor of a market fetch session.
#[derive(Debug)]
pub struct FetchCursor {
    pub count: usize,
    pub last_market_id: Option<String>,
    pub is_exhausted: bool,
}

/// What the fetch loop does with a batch.
#[derive(Debug, Clone, Copy, PartialEq, Eq, Structural)]
pub enum BatchStep {
    /// Nothing new: the session is complete, nothing is stored.
    Complete,
    /// Store the batch and fetch the next one.
    StoreAndContinue,
    /// Store the batch; the source has no more.
    StoreAndFinish,
}

/// A market fetch session sees a batch of `ids`: an empty batch, or one in
/// which the previous fetch's last market is followed by nothing, completes
/// it; otherwise the batch is stored, the cursor counts it and remembers its
/// last market, and the source is exhausted when it says so or the batch is
/// short of 500.
pub fn on_market_batch(cursor: &mut FetchCursor, ids: &Vec<String>, has_more: bool) -> (r: BatchStep)
    requires
        old(cursor).count + ids@.len() <= usize::MAX,
    ensures
        ids@.len() == 0 ==> r == BatchStep::Complete && *final(cursor) == *old(cursor),
        ids@.len() > 0 && (match old(cursor).last_market_id {
            Some(l) => first_position(strings_view(ids@), l@) matches Some(i) && i == ids@.len() - 1,
            None => false,
        }) ==> r == BatchStep::Complete && *final(cursor) == *old(cursor),
        ids@.len() > 0 && !(match old(cursor).last_market_id {
            Some(l) => first_position(strings_view(ids@), l@) matches Some(i) && i == ids@.len() - 1,
            None => false,
        }) ==> {
            &&& final(cursor).count == old(cursor).count + ids@.len()
            &&& final(cursor).last_market_id matches Some(l) && l@ == ids@[ids@.len() - 1]@
            &&& final(cursor).is_exhausted == (!has_more || ids@.len() < 500)
            &&& r == if !has_more || ids@.len() < 500 {
                BatchStep::StoreAndFinish
            } else {
                BatchStep::StoreAndContinue
            }
        },
{
    if ids.len() == 0 {
        return BatchStep::Complete;
    }
    if let Some(l) = &cursor.last_market_id {
        proof {
            lemma_first_position(strings_view(ids@), l@);
        }
        match batch_overlap(ids, l.as_str()) {
            Overlap::NewAfter(0) => {
                return BatchStep::Complete;
            },
            _ => {},
        }
    }
    cursor.count = cursor.count + ids.len();
    cursor.last_market_id = Some(ids[ids.len() - 1].clone());
    cursor.is_exhausted = !has_more || ids.len() < 500;
    if cursor.is_exhausted {
        BatchStep::StoreAndFinish
    } else {
        BatchStep::StoreAndContinue
    }
}

/// The number of markets a listing shows: all with `--all`, else at most
/// the limit.
pub fn shown_count(len: usize, all: bool, limit: u32) -> (r: usize)
    ensures
        r == (if !all && len > limit {
            limit as int
        } else {
            len as int
        }),
{
    if !all && len > limit as usize {
        limit as usize
    } else {
        len
    }
}

/// What a cache clearing removes.
#[derive(Debug, Clone, Copy, PartialEq, Eq, Structural)]
pub struct ClearTargets {
    /// The cache file and its snapshot.
    pub cache: bool,
    /// The raw API responses.
    pub raw_responses: bool,
    /// The individual storage: JSON files and RocksDB.
    pub individual_storage: bool,
}

/// What to clear: `--all` clears everything; the cache is also cleared with
/// `--cache-only`, or when nothing else was asked for.
pub fn clear_targets(cache_only: bool, raw_responses: bool, individual_storage: bool, all: bool) -> (r:
    ClearTargets)
    ensures
        r.cache == (cache_only || all || (!raw_responses && !individual_storage && !cache_only)),
        r.raw_responses == (raw_responses || all),
        r.individual_storage == (individual_storage || all),
{
    ClearTargets {
        cache: cache_only || all || (!raw_responses && !individual_storage && !cache_only),
        raw_responses: raw_responses || all,
        individual_storage: individual_storage || all,
    }
}

/// How many of the ids repeat an id that came before them.
pub open spec fn duplicates(ids: Seq<Seq<char>>) -> nat
    decreases ids.len(),
{
    if ids.len() == 0 {
        0
    } else {
        duplicates(ids.drop_last()) + if ids.drop_last().contains(ids.last()) {
            1nat
        } else {
            0nat
        }
    }
}

/// Counts the markets whose id was already seen, as the database cleanup
/// reports them.
pub fn duplicate_count(ids: &Vec<String>) -> (r: usize)
    ensures
        r == duplicates(strings_view(ids@)),
{
    let ghost v = strings_view(ids@);
    let mut seen: Vec<String> = Vec::new();
    let mut count: usize = 0;
    let mut i: usize = 0;
    while i < ids.len()
        invariant
            i <= ids.len(),
            v == strings_view(ids@),
            count == duplicates(v.take(i as int)),
            count <= i,
            strings_view(seen@).to_set() == v.take(i as int).to_set(),
        decreases ids.len() - i,
    {
        let id = &ids[i];
        let known = crate::address_book::commands::contains_string(&seen, id.as_str());
        proof {
            let t = v.take(i + 1);
            assert(t.drop_last() =~= v.take(i as int));
            assert(t.last() == id@);
            assert(known == strings_view(seen@).contains(id@));
            assert(strings_view(seen@).contains(id@) == strings_view(seen@).to_set().contains(id@)) by {
                broadcast use vstd::seq_lib::group_seq_properties;
            }
            assert(v.take(i as int).contains(id@) == v.take(i as int).to_set().contains(id@)) by {
                broadcast use vstd::seq_lib::group_seq_properties;
            }
        }
        if known {
            count = count + 1;
        } else {
            let ghost s0 = strings_view(seen@);
            seen.push(id.clone());
            proof {
                assert(strings_view(seen@) =~= s0.push(id@));
                assert(v.take(i + 1) =~= v.take(i as int).push(id@));
                s0.lemma_push_to_set_commute(id@);
                v.take(i as int).lemma_push_to_set_commute(id@);
            }
        }
        proof {
            if known {
                assert(v.take(i + 1) =~= v.take(i as int).push(id@));
                v.take(i as int).lemma_push_to_set_commute(id@);
                assert(v.take(i as int).to_set().contains(id@));
                assert(v.take(i as int).to_set().insert(id@) =~= v.take(i as int).to_set());
            }
        }
        i = i + 1;
    }
    proof {
        assert(v.take(i as int) =~= v);
    }
    count
}

/// The conditions of an export's query, in order: active, minimum volume,
/// category; the minimum volume is given as the text that stands in the
/// query.
pub open spec fn export_conditions(
    active_only: bool,
    min_volume: Option<Seq<char>>,
    category: Option<Seq<char>>,
) -> Seq<Seq<char>> {
    (if active_only {
        seq!["active = true"@]
    } else {
        Seq::empty()
    }) + (match min_volume {
        Some(v) => seq!["volume >= "@ + v],
        None => Seq::empty(),
    }) + (match category {
        Some(c) => seq!["category = '"@ + c + "'"@],
        None => Seq::empty(),
    })
}

/// The query of a database export: its conditions joined by `AND`, and the
/// limit where one is given.
pub open spec fn export_query_text(
    active_only: bool,
    min_volume: Option<Seq<char>>,
    category: Option<Seq<char>>,
    limit: Option<u64>,
) -> Seq<char> {
    "SELECT * FROM markets"@ + where_part(export_conditions(active_only, min_volume, category)) + match limit {
        Some(n) => " LIMIT "@ + decimal(n as nat),
        None => Seq::empty(),
    }
}

/// The query that a database export sends.
pub fn export_query(
    active_only: bool,
    min_volume: &Option<String>,
    category: &Option<String>,
    limit: Option<u64>,
) -> (r: String)
    ensures
        r@ == export_query_text(active_only, opt_view(*min_volume), opt_view(*category), limit),
{
    let mut conds: Vec<String> = Vec::new();
    if active_only {
        conds.push(String::from_str("active = true"));
    }
    if let Some(v) = min_volume {
        let mut c = String::from_str("volume >= ");
        c.append(v.as_str());
        conds.push(c);
    }
    if let Some(cat) = category {
        let mut c = String::from_str("category = '");
        c.append(cat.as_str());
        c.append("'");
        conds.push(c);
    }
    proof {
        assert(strings_view(conds@) =~= export_conditions(
            active_only,
            opt_view(*min_volume),
            opt_view(*category),
        ));
    }
    let mut q = String::from_str("SELECT * FROM markets");
    let w = where_text(&conds);
    q.append(w.as_str());
    if let Some(n) = limit {
        q.append(" LIMIT ");
        let d = u64_decimal(n);
        q.append(d.as_str());
    }
    q
}

} // verus!
