//! Character-level string helpers shared by the library.

use vstd::prelude::*;

verus! {

/// The values of a vector of strings.
pub open spec fn strings_view(v: Seq<String>) -> Seq<Seq<char>> {
    v.map_values(|s: String| s@)
}

/// The Unicode `White_Space` property, which `char::is_whitespace` tests.
pub open spec fn is_ws(c: char) -> bool {
    let u = c as u32;
    ||| 0x09 <= u <= 0x0D
    ||| u == 0x20
    ||| u == 0x85
    ||| u == 0xA0
    ||| u == 0x1680
    ||| 0x2000 <= u <= 0x200A
    ||| u == 0x2028
    ||| u == 0x2029
    ||| u == 0x202F
    ||| u == 0x205F
    ||| u == 0x3000
}

/// `s` without its leading white space.
pub open spec fn trim_start(s: Seq<char>) -> Seq<char>
    decreases s.len(),
{
    if s.len() > 0 && is_ws(s[0]) {
        trim_start(s.drop_first())
    } else {
        s
    }
}

/// `s` without its trailing white space.
pub open spec fn trim_end(s: Seq<char>) -> Seq<char>
    decreases s.len(),
{
    if s.len() > 0 && is_ws(s.last()) {
        trim_end(s.drop_last())
    } else {
        s
    }
}

/// `s` without leading and trailing white space, as `str::trim` gives it.
pub open spec fn trim(s: Seq<char>) -> Seq<char> {
    trim_end(trim_start(s))
}

/// Tests the Unicode `White_Space` property of one character.
pub fn is_whitespace_char(c: char) -> (b: bool)
    ensures
        b == is_ws(c),
{
    let u = c as u32;
    (0x09 <= u && u <= 0x0D) || u == 0x20 || u == 0x85 || u == 0xA0 || u == 0x1680 || (0x2000
        <= u && u <= 0x200A) || u == 0x2028 || u == 0x2029 || u == 0x202F || u == 0x205F || u
        == 0x3000
}

/// The characters of a string slice, in order.
pub fn chars_of(s: &str) -> (v: Vec<char>)
    ensures
        v@ == s@,
{
    broadcast use vstd::string::group_string_axioms;

    let mut v: Vec<char> = Vec::new();
    for c in it: s.chars()
        invariant
            it.seq() == s@,
            v@ == it.seq().take(it.index() as int),
    {
        v.push(c);
    }
    v
}

/// Appends `c` to `s` through `String::push`, which adds one character at
/// the end.
#[verifier::external_body]
fn push_char(s: &mut String, c: char)
    ensures
        final(s)@ == old(s)@.push(c),
{
    s.push(c);
}

/// A string made of the given characters, in order.
pub fn string_of(cs: &Vec<char>) -> (s: String)
    ensures
        s@ == cs@,
{
    let mut s = String::new();
    let mut i: usize = 0;
    while i < cs.len()
        invariant
            i <= cs.len(),
            s@ == cs@.take(i as int),
        decreases cs.len() - i,
    {
        push_char(&mut s, cs[i]);
        proof {
            assert(cs@.take(i + 1) =~= cs@.take(i as int).push(cs@[i as int]));
        }
        i = i + 1;
    }
    proof {
        assert(cs@.take(i as int) =~= cs@);
    }
    s
}

/// The characters `v[from..to]` as a new vector.
pub fn copy_range(v: &Vec<char>, from: usize, to: usize) -> (r: Vec<char>)
    requires
        from <= to <= v.len(),
    ensures
        r@ == v@.subrange(from as int, to as int),
{
    let mut r: Vec<char> = Vec::new();
    let mut k = from;
    while k < to
        invariant
            from <= k <= to <= v.len(),
            r@ == v@.subrange(from as int, k as int),
        decreases to - k,
    {
        r.push(v[k]);
        k = k + 1;
    }
    r
}

proof fn lemma_trim_start_skip(s: Seq<char>, i: int)
    requires
        0 <= i < s.len(),
        is_ws(s[i]),
    ensures
        trim_start(s.skip(i)) == trim_start(s.skip(i + 1)),
{
    assert(s.skip(i).drop_first() =~= s.skip(i + 1));
}

proof fn lemma_trim_end_take(s: Seq<char>, i: int, j: int)
    requires
        0 <= i < j <= s.len(),
        is_ws(s[j - 1]),
    ensures
        trim_end(s.subrange(i, j)) == trim_end(s.subrange(i, j - 1)),
{
    assert(s.subrange(i, j).drop_last() =~= s.subrange(i, j - 1));
}

/// Removes leading and trailing white space.
pub fn trim_chars(v: &Vec<char>) -> (r: Vec<char>)
    ensures
        r@ == trim(v@),
{
    let n = v.len();
    let mut i: usize = 0;
    proof {
        assert(v@.skip(0) =~= v@);
    }
    while i < n && is_whitespace_char(v[i])
        invariant
            i <= n == v.len(),
            trim_start(v@) == trim_start(v@.skip(i as int)),
        decreases n - i,
    {
        proof {
            lemma_trim_start_skip(v@, i as int);
        }
        i = i + 1;
    }
    proof {
        assert(v@.skip(i as int) =~= v@.subrange(i as int, n as int));
    }
    let mut j: usize = n;
    while j > i && is_whitespace_char(v[j - 1])
        invariant
            i <= j <= n == v.len(),
            trim_start(v@) == v@.subrange(i as int, n as int),
            trim_end(v@.subrange(i as int, n as int)) == trim_end(v@.subrange(i as int, j as int)),
        decreases j - i,
    {
        proof {
            lemma_trim_end_take(v@, i as int, j as int);
        }
        j = j - 1;
    }
    copy_range(v, i, j)
}

/// `s` with surrounding white space removed, as a new string.
pub fn trim_str(s: &str) -> (r: String)
    ensures
        r@ == trim(s@),
{
    let cs = chars_of(s);
    let t = trim_chars(&cs);
    string_of(&t)
}

/// What `str::to_lowercase` returns for a string: the Unicode lowercase
/// mapping of each character, with the final-sigma rule.
pub uninterp spec fn lowercase(s: Seq<char>) -> Seq<char>;

/// A character is ASCII: its code point is below 128.
pub open spec fn is_ascii_char(c: char) -> bool {
    (c as u32) < 128
}

/// Every character of `s` is ASCII.
pub open spec fn all_ascii(s: Seq<char>) -> bool {
    forall|i: int| 0 <= i < s.len() ==> is_ascii_char(#[trigger] s[i])
}

/// The ASCII lower-case form of a character: `A`-`Z` become `a`-`z`, every
/// other character stays as it is.
pub open spec fn ascii_lower(c: char) -> char {
    if 'A' <= c && c <= 'Z' {
        ((c as u32) + 32) as char
    } else {
        c
    }
}

/// `s` with each character lower-cased as ASCII.
pub open spec fn ascii_lowered(s: Seq<char>) -> Seq<char> {
    s.map_values(|c: char| ascii_lower(c))
}

/// Calls `str::to_lowercase`; its result is named `lowercase`, a function of
/// the characters of `s` alone. The documentation of `str::to_lowercase`
/// defines the result by the Unicode lowercase mapping, whose ASCII part maps
/// `A`-`Z` to `a`-`z` and keeps every other ASCII character; so on ASCII text
/// the result is its ASCII lower-casing, character by character. Outside
/// ASCII nothing more than the name is stated.
#[verifier::external_body]
pub(crate) fn to_lowercase(s: &str) -> (r: String)
    ensures
        r@ == lowercase(s@),
        all_ascii(s@) ==> r@ == ascii_lowered(s@),
{
    s.to_lowercase()
}

/// ASCII digits and the letters a-f in either case.
pub open spec fn is_hex_digit(c: char) -> bool {
    ('0' <= c && c <= '9') || ('a' <= c && c <= 'f') || ('A' <= c && c <= 'F')
}

/// The lower-case form of a hexadecimal digit.
pub open spec fn hex_lower(c: char) -> char {
    if c == 'A' {
        'a'
    } else if c == 'B' {
        'b'
    } else if c == 'C' {
        'c'
    } else if c == 'D' {
        'd'
    } else if c == 'E' {
        'e'
    } else if c == 'F' {
        'f'
    } else {
        c
    }
}

/// Lower-cases a hexadecimal digit.
pub fn hex_lower_char(c: char) -> (r: char)
    ensures
        r == hex_lower(c),
{
    if c == 'A' {
        'a'
    } else if c == 'B' {
        'b'
    } else if c == 'C' {
        'c'
    } else if c == 'D' {
        'd'
    } else if c == 'E' {
        'e'
    } else if c == 'F' {
        'f'
    } else {
        c
    }
}

/// The number of bytes of the UTF-8 encoding of `c` (`char::len_utf8`).
pub open spec fn utf8_width(c: char) -> nat {
    let u = c as u32;
    if u < 0x80 {
        1
    } else if u < 0x800 {
        2
    } else if u < 0x10000 {
        3
    } else {
        4
    }
}

/// The number of bytes of the UTF-8 encoding of `s` (`str::len`).
pub open spec fn utf8_len(s: Seq<char>) -> nat
    decreases s.len(),
{
    if s.len() == 0 {
        0
    } else {
        utf8_len(s.drop_last()) + utf8_width(s.last())
    }
}

/// Extending a string never shortens its encoding.
pub proof fn lemma_utf8_len_prefix(s: Seq<char>, i: int)
    requires
        0 <= i <= s.len(),
    ensures
        utf8_len(s.subrange(0, i)) <= utf8_len(s),
    decreases s.len() - i,
{
    if i < s.len() {
        lemma_utf8_len_prefix(s, i + 1);
        assert(s.subrange(0, i + 1).drop_last() =~= s.subrange(0, i));
    } else {
        assert(s.subrange(0, i) =~= s);
    }
}

/// The UTF-8 length of `s`, or any number above `cap` when it exceeds `cap`.
pub fn utf8_len_capped(s: &Vec<char>, cap: usize) -> (n: usize)
    requires
        cap < usize::MAX - 4,
    ensures
        utf8_len(s@) <= cap ==> n == utf8_len(s@),
        utf8_len(s@) > cap ==> n > cap,
{
    let mut n: usize = 0;
    let mut i: usize = 0;
    while i < s.len()
        invariant
            i <= s.len(),
            cap < usize::MAX - 4,
            n == utf8_len(s@.subrange(0, i as int)),
            n <= cap,
        decreases s.len() - i,
    {
        let u = s[i] as u32;
        let w: usize = if u < 0x80 {
            1
        } else if u < 0x800 {
            2
        } else if u < 0x10000 {
            3
        } else {
            4
        };
        proof {
            assert(s@.subrange(0, i + 1).drop_last() =~= s@.subrange(0, i as int));
        }
        n = n + w;
        i = i + 1;
        if n > cap {
            proof {
                lemma_utf8_len_prefix(s@, i as int);
            }
            return n;
        }
    }
    proof {
        assert(s@.subrange(0, i as int) =~= s@);
    }
    n
}

/// Whether the UTF-8 length of `s` exceeds `cap`.
pub fn utf8_len_exceeds(s: &Vec<char>, cap: usize) -> (b: bool)
    ensures
        b == (utf8_len(s@) > cap),
{
    let mut n: usize = 0;
    let mut i: usize = 0;
    while i < s.len()
        invariant
            i <= s.len(),
            n == utf8_len(s@.subrange(0, i as int)),
            n <= cap,
        decreases s.len() - i,
    {
        let u = s[i] as u32;
        let w: usize = if u < 0x80 {
            1
        } else if u < 0x800 {
            2
        } else if u < 0x10000 {
            3
        } else {
            4
        };
        proof {
            assert(s@.subrange(0, i + 1).drop_last() =~= s@.subrange(0, i as int));
        }
        if w > cap - n {
            proof {
                lemma_utf8_len_prefix(s@, i + 1);
            }
            return true;
        }
        n = n + w;
        i = i + 1;
    }
    proof {
        assert(s@.subrange(0, i as int) =~= s@);
    }
    false
}

/// `needle` occurs in `hay` at position `i`.
pub open spec fn occurs_at(hay: Seq<char>, needle: Seq<char>, i: int) -> bool {
    0 <= i && i + needle.len() <= hay.len() && hay.subrange(i, i + needle.len()) == needle
}

/// `needle` occurs somewhere in `hay` (`str::contains`).
pub open spec fn contains_seq(hay: Seq<char>, needle: Seq<char>) -> bool {
    exists|i: int| occurs_at(hay, needle, i)
}

/// Tests whether `needle` occurs in `hay`.
pub fn contains_chars(hay: &Vec<char>, needle: &Vec<char>) -> (b: bool)
    ensures
        b == contains_seq(hay@, needle@),
{
    if needle.len() > hay.len() {
        proof {
            assert forall|i: int| !occurs_at(hay@, needle@, i) by {}
        }
        return false;
    }
    if needle.len() == 0 {
        proof {
            assert(hay@.subrange(0, 0) =~= needle@);
            assert(occurs_at(hay@, needle@, 0));
        }
        return true;
    }
    let last = hay.len() - needle.len();
    let mut i: usize = 0;
    while i <= last
        invariant
            last == hay.len() - needle.len(),
            0 < needle.len() <= hay.len(),
            i <= last + 1,
            forall|k: int| 0 <= k < i ==> !occurs_at(hay@, needle@, k),
        decreases last + 1 - i,
    {
        let mut j: usize = 0;
        while j < needle.len() && hay[i + j] == needle[j]
            invariant
                i <= last,
                last == hay.len() - needle.len(),
                j <= needle.len(),
                forall|m: int| 0 <= m < j ==> hay@[i + m] == needle@[m],
            decreases needle.len() - j,
        {
            j = j + 1;
        }
        if j == needle.len() {
            proof {
                assert(hay@.subrange(i as int, i + needle.len()) =~= needle@);
                assert(occurs_at(hay@, needle@, i as int));
            }
            return true;
        }
        proof {
            assert(!occurs_at(hay@, needle@, i as int)) by {
                if occurs_at(hay@, needle@, i as int) {
                    assert(hay@.subrange(i as int, i + needle.len())[j as int] == hay@[i + j]);
                }
            }
        }
        i = i + 1;
    }
    proof {
        assert forall|k: int| !occurs_at(hay@, needle@, k) by {
            if occurs_at(hay@, needle@, k) {
                assert(k <= last);
            }
        }
    }
    false
}

/// Tests whether `needle` occurs in `hay`, as `str::contains` does.
pub fn str_contains(hay: &str, needle: &str) -> (b: bool)
    ensures
        b == contains_seq(hay@, needle@),
{
    let h = chars_of(hay);
    let n = chars_of(needle);
    contains_chars(&h, &n)
}

proof fn lemma_utf8_len_cons(c: char, t: Seq<char>)
    ensures
        utf8_len(seq![c] + t) == utf8_width(c) + utf8_len(t),
    decreases t.len(),
{
    if t.len() == 0 {
        assert(seq![c] + t =~= seq![c]);
        assert(seq![c].drop_last() =~= Seq::<char>::empty());
        assert(utf8_len(Seq::<char>::empty()) == 0);
        assert(seq![c].last() == c);
        assert(utf8_len(t) == 0);
    } else {
        lemma_utf8_len_cons(c, t.drop_last());
        assert((seq![c] + t).drop_last() =~= seq![c] + t.drop_last());
        assert((seq![c] + t).last() == t.last());
    }
}

proof fn lemma_utf8_len_skip(s: Seq<char>, j: int)
    requires
        0 <= j < s.len(),
    ensures
        utf8_len(s.skip(j)) == utf8_width(s[j]) + utf8_len(s.skip(j + 1)),
{
    assert(s.skip(j) =~= seq![s[j]] + s.skip(j + 1));
    lemma_utf8_len_cons(s[j], s.skip(j + 1));
}

/// Longer prefixes have longer encodings.
pub proof fn lemma_utf8_prefix_strict(s: Seq<char>, k1: int, k2: int)
    requires
        0 <= k1 < k2 <= s.len(),
    ensures
        utf8_len(s.take(k1)) < utf8_len(s.take(k2)),
    decreases k2 - k1,
{
    assert(s.take(k2).drop_last() =~= s.take(k2 - 1));
    if k1 < k2 - 1 {
        lemma_utf8_prefix_strict(s, k1, k2 - 1);
    }
}

/// Longer suffixes have longer encodings.
pub proof fn lemma_utf8_suffix_strict(s: Seq<char>, j1: int, j2: int)
    requires
        0 <= j1 < j2 <= s.len(),
    ensures
        utf8_len(s.skip(j1)) > utf8_len(s.skip(j2)),
    decreases j2 - j1,
{
    lemma_utf8_len_skip(s, j1);
    if j1 + 1 < j2 {
        lemma_utf8_suffix_strict(s, j1 + 1, j2);
    }
}

/// The number of characters whose encoding is exactly the first `b` bytes
/// of `s`, or `None` when byte `b` falls inside a character or past the end.
pub fn byte_prefix_end(v: &Vec<char>, b: usize) -> (r: Option<usize>)
    ensures
        r matches Some(k) ==> k <= v.len() && utf8_len(v@.take(k as int)) == b,
        r is None ==> forall|k: int| 0 <= k <= v.len() ==> utf8_len(v@.take(k)) != b,
{
    let mut n: usize = 0;
    let mut i: usize = 0;
    proof {
        assert(v@.take(0) =~= Seq::<char>::empty());
    }
    while n < b && i < v.len()
        invariant
            i <= v.len(),
            n <= b,
            n == utf8_len(v@.take(i as int)),
            i > 0 ==> utf8_len(v@.take(i - 1)) < b,
        decreases v.len() - i,
    {
        let u = v[i] as u32;
        let w: usize = if u < 0x80 {
            1
        } else if u < 0x800 {
            2
        } else if u < 0x10000 {
            3
        } else {
            4
        };
        proof {
            assert(v@.take(i + 1).drop_last() =~= v@.take(i as int));
        }
        if w > b - n {
            proof {
                assert forall|k: int| 0 <= k <= v.len() implies utf8_len(v@.take(k)) != b by {
                    if k < i {
                        lemma_utf8_prefix_strict(v@, k, i as int);
                    } else if k > i + 1 {
                        lemma_utf8_prefix_strict(v@, i + 1, k);
                    }
                }
            }
            return None;
        }
        n = n + w;
        i = i + 1;
    }
    if n == b {
        Some(i)
    } else {
        proof {
            assert forall|k: int| 0 <= k <= v.len() implies utf8_len(v@.take(k)) != b by {
                if k < i {
                    if k < i - 1 {
                        lemma_utf8_prefix_strict(v@, k, i - 1);
                    }
                } else if k > i {
                    lemma_utf8_prefix_strict(v@, i as int, k);
                }
            }
        }
        None
    }
}

/// The index of the first character of the last `b` bytes of `s`, or `None`
/// when that byte falls inside a character or before the start.
pub fn byte_suffix_start(v: &Vec<char>, b: usize) -> (r: Option<usize>)
    requires
        b < usize::MAX - 4,
    ensures
        r matches Some(j) ==> j <= v.len() && utf8_len(v@.skip(j as int)) == b,
        r is None ==> forall|j: int| 0 <= j <= v.len() ==> utf8_len(v@.skip(j)) != b,
{
    let mut m: usize = 0;
    let mut j: usize = v.len();
    proof {
        assert(v@.skip(j as int) =~= Seq::<char>::empty());
    }
    while m < b && j > 0
        invariant
            j <= v.len(),
            b < usize::MAX - 4,
            m == utf8_len(v@.skip(j as int)),
            j < v.len() ==> utf8_len(v@.skip(j + 1)) < b,
        decreases j,
    {
        let u = v[j - 1] as u32;
        let w: usize = if u < 0x80 {
            1
        } else if u < 0x800 {
            2
        } else if u < 0x10000 {
            3
        } else {
            4
        };
        proof {
            lemma_utf8_len_skip(v@, j - 1);
        }
        m = m + w;
        j = j - 1;
    }
    if m == b {
        Some(j)
    } else {
        proof {
            assert forall|k: int| 0 <= k <= v.len() implies utf8_len(v@.skip(k)) != b by {
                if k > j {
                    if k > j + 1 {
                        lemma_utf8_suffix_strict(v@, j + 1, k);
                    }
                } else if k < j {
                    lemma_utf8_suffix_strict(v@, k, j as int);
                }
            }
        }
        None
    }
}

/// The pieces of `s` between occurrences of `sep`, as `str::split` with a
/// character gives them (an empty string gives one empty piece).
pub open spec fn split_on(s: Seq<char>, sep: char) -> Seq<Seq<char>>
    decreases s.len(),
{
    if s.len() == 0 {
        seq![Seq::<char>::empty()]
    } else {
        let rest = split_on(s.drop_last(), sep);
        if s.last() == sep {
            rest.push(Seq::<char>::empty())
        } else {
            rest.update(rest.len() - 1, rest.last().push(s.last()))
        }
    }
}

/// `split_on` always gives at least one piece.
pub proof fn lemma_split_on_nonempty(s: Seq<char>, sep: char)
    ensures
        split_on(s, sep).len() >= 1,
    decreases s.len(),
{
    if s.len() > 0 {
        lemma_split_on_nonempty(s.drop_last(), sep);
    }
}

/// A text without `sep` is one piece.
pub proof fn lemma_split_on_single(a: Seq<char>, sep: char)
    requires
        !a.contains(sep),
    ensures
        split_on(a, sep) == seq![a],
    decreases a.len(),
{
    if a.len() > 0 {
        let a0 = a.drop_last();
        assert(!a0.contains(sep)) by {
            if a0.contains(sep) {
                let i = choose|i: int| 0 <= i < a0.len() && a0[i] == sep;
                assert(a[i] == sep);
            }
        }
        lemma_split_on_single(a0, sep);
        assert(a[a.len() - 1] != sep);
        assert(a0.push(a.last()) =~= a);
        assert(seq![a0].update(0, a0.push(a.last())) =~= seq![a]);
    } else {
        assert(a =~= Seq::<char>::empty());
    }
}

/// Appending a separator and a piece without separators appends that piece.
pub proof fn lemma_split_on_push_piece(s: Seq<char>, sep: char, b: Seq<char>)
    requires
        !b.contains(sep),
    ensures
        split_on(s + seq![sep] + b, sep) == split_on(s, sep).push(b),
    decreases b.len(),
{
    let t = s + seq![sep] + b;
    if b.len() == 0 {
        assert(t =~= s.push(sep));
        assert(t.drop_last() =~= s);
        assert(t.last() == sep);
        assert(b =~= Seq::<char>::empty());
    } else {
        let b0 = b.drop_last();
        assert(!b0.contains(sep)) by {
            if b0.contains(sep) {
                let i = choose|i: int| 0 <= i < b0.len() && b0[i] == sep;
                assert(b[i] == sep);
            }
        }
        lemma_split_on_push_piece(s, sep, b0);
        assert(t.drop_last() =~= s + seq![sep] + b0);
        assert(t.last() == b[b.len() - 1]);
        assert(b[b.len() - 1] != sep);
        assert(b0.push(b.last()) =~= b);
        assert(split_on(s, sep).push(b0).update(split_on(s, sep).len() as int, b) =~= split_on(
            s,
            sep,
        ).push(b));
    }
}

/// The pieces of strings joined with a separator that none of them holds
/// are those strings.
pub proof fn lemma_split_joined(v: Seq<Seq<char>>, sep: char)
    requires
        v.len() >= 1,
        forall|i: int| 0 <= i < v.len() ==> !(#[trigger] v[i]).contains(sep),
    ensures
        split_on(joined_with(v, seq![sep]), sep) == v,
    decreases v.len(),
{
    if v.len() == 1 {
        lemma_split_on_single(v[0], sep);
        assert(seq![v[0]] =~= v);
    } else {
        let w = v.drop_last();
        assert forall|i: int| 0 <= i < w.len() implies !(#[trigger] w[i]).contains(sep) by {
            assert(w[i] == v[i]);
        }
        lemma_split_joined(w, sep);
        assert(!v[v.len() - 1].contains(sep));
        lemma_split_on_push_piece(joined_with(w, seq![sep]), sep, v.last());
        assert(w.push(v.last()) =~= v);
    }
}

/// A text with no white space at its ends is its own trim.
pub proof fn lemma_trim_clean(s: Seq<char>)
    requires
        s.len() > 0 ==> !is_ws(s[0]) && !is_ws(s.last()),
    ensures
        trim(s) == s,
{
    assert(trim_start(s) == s);
    assert(trim_end(s) == s);
}

/// Strings that are not empty joined with a separator begin with the first
/// string's first character and end with the last string's last one.
pub proof fn lemma_joined_ends(v: Seq<Seq<char>>, sep: Seq<char>)
    requires
        v.len() >= 1,
        forall|i: int| 0 <= i < v.len() ==> (#[trigger] v[i]).len() > 0,
    ensures
        joined_with(v, sep).len() > 0,
        joined_with(v, sep)[0] == v[0][0],
        joined_with(v, sep).last() == v.last().last(),
    decreases v.len(),
{
    if v.len() > 1 {
        let w = v.drop_last();
        assert forall|i: int| 0 <= i < w.len() implies (#[trigger] w[i]).len() > 0 by {
            assert(w[i] == v[i]);
        }
        lemma_joined_ends(w, sep);
        assert(v[v.len() - 1].len() > 0);
        assert(w[0] == v[0]);
    }
}

/// Strings joined with a separator hold a character only where one of them
/// or the separator does.
pub proof fn lemma_joined_free(v: Seq<Seq<char>>, sep: Seq<char>, c: char)
    requires
        forall|i: int| 0 <= i < v.len() ==> !(#[trigger] v[i]).contains(c),
        !sep.contains(c),
    ensures
        !joined_with(v, sep).contains(c),
    decreases v.len(),
{
    if v.len() == 1 {
        assert(!v[0].contains(c));
    } else if v.len() > 1 {
        let w = v.drop_last();
        assert forall|i: int| 0 <= i < w.len() implies !(#[trigger] w[i]).contains(c) by {
            assert(w[i] == v[i]);
        }
        lemma_joined_free(w, sep, c);
        let j = joined_with(w, sep);
        let l = v[v.len() - 1];
        assert(!l.contains(c));
        let t = j + sep + l;
        if t.contains(c) {
            let k = choose|k: int| 0 <= k < t.len() && t[k] == c;
            if k < j.len() {
                assert(j[k] == c);
            } else if k < j.len() + sep.len() {
                assert(sep[k - j.len()] == c);
            } else {
                assert(l[k - j.len() - sep.len()] == c);
            }
        }
    }
}

/// Splits `s` at every `sep`.
pub fn split_str(s: &str, sep: char) -> (r: Vec<String>)
    ensures
        strings_view(r@) == split_on(s@, sep),
{
    let v = chars_of(s);
    let mut done: Vec<String> = Vec::new();
    let mut cur: Vec<char> = Vec::new();
    let mut i: usize = 0;
    proof {
        assert(v@.take(0) =~= Seq::<char>::empty());
        assert(strings_view(done@).push(cur@) =~= split_on(v@.take(0), sep));
    }
    while i < v.len()
        invariant
            i <= v.len(),
            strings_view(done@).push(cur@) == split_on(v@.take(i as int), sep),
        decreases v.len() - i,
    {
        proof {
            assert(v@.take(i + 1).drop_last() =~= v@.take(i as int));
            lemma_split_on_nonempty(v@.take(i as int), sep);
        }
        let ghost d0 = strings_view(done@);
        let ghost c0 = cur@;
        if v[i] == sep {
            let piece = string_of(&cur);
            done.push(piece);
            cur = Vec::new();
            proof {
                assert(strings_view(done@) =~= d0.push(c0));
                assert(strings_view(done@).push(cur@) =~= split_on(v@.take(i + 1), sep));
            }
        } else {
            cur.push(v[i]);
            proof {
                assert(strings_view(done@).push(cur@) =~= split_on(v@.take(i + 1), sep));
            }
        }
        i = i + 1;
    }
    let last = string_of(&cur);
    let ghost d0 = strings_view(done@);
    done.push(last);
    proof {
        assert(v@.take(i as int) =~= v@);
        assert(strings_view(done@) =~= d0.push(cur@));
    }
    done
}

/// The decimal digit for `d`, which is below ten.
pub open spec fn digit_char(d: int) -> char {
    if d == 0 {
        '0'
    } else if d == 1 {
        '1'
    } else if d == 2 {
        '2'
    } else if d == 3 {
        '3'
    } else if d == 4 {
        '4'
    } else if d == 5 {
        '5'
    } else if d == 6 {
        '6'
    } else if d == 7 {
        '7'
    } else if d == 8 {
        '8'
    } else {
        '9'
    }
}

/// The decimal digits of `n`, most significant first, with no leading zero.
pub open spec fn decimal(n: nat) -> Seq<char>
    decreases n,
{
    if n < 10 {
        seq![digit_char(n as int)]
    } else {
        decimal(n / 10).push(digit_char((n % 10) as int))
    }
}

fn digit_of(d: u64) -> (c: char)
    requires
        d < 10,
    ensures
        c == digit_char(d as int),
{
    if d == 0 {
        '0'
    } else if d == 1 {
        '1'
    } else if d == 2 {
        '2'
    } else if d == 3 {
        '3'
    } else if d == 4 {
        '4'
    } else if d == 5 {
        '5'
    } else if d == 6 {
        '6'
    } else if d == 7 {
        '7'
    } else if d == 8 {
        '8'
    } else {
        '9'
    }
}

fn push_decimal(v: &mut Vec<char>, n: u64)
    ensures
        final(v)@ == old(v)@ + decimal(n as nat),
    decreases n,
{
    let ghost v0 = v@;
    if n >= 10 {
        push_decimal(v, n / 10);
    }
    let d = digit_of(n % 10);
    v.push(d);
    proof {
        if n >= 10 {
            assert(v@ =~= v0 + decimal(n as nat));
        } else {
            assert(v@ =~= v0 + decimal(n as nat));
        }
    }
}

/// The decimal form of `n`, as `u64`'s `Display` writes it.
pub fn u64_decimal(n: u64) -> (s: String)
    ensures
        s@ == decimal(n as nat),
{
    let mut v: Vec<char> = Vec::new();
    push_decimal(&mut v, n);
    proof {
        assert(v@ =~= decimal(n as nat));
    }
    string_of(&v)
}

/// The decimal form of `n` padded with leading zeros to `width` characters.
pub open spec fn zero_padded(n: nat, width: nat) -> Seq<char> {
    let d = decimal(n);
    if d.len() < width {
        Seq::new((width - d.len()) as nat, |i: int| '0') + d
    } else {
        d
    }
}

/// The decimal form of `n` padded with leading zeros to `width` characters,
/// as the format `{:0width$}` writes it.
pub fn u64_zero_padded(n: u64, width: usize) -> (s: String)
    ensures
        s@ == zero_padded(n as nat, width as nat),
{
    let mut d: Vec<char> = Vec::new();
    push_decimal(&mut d, n);
    proof {
        assert(d@ =~= decimal(n as nat));
    }
    let mut v: Vec<char> = Vec::new();
    if d.len() < width {
        let pad = width - d.len();
        let mut i: usize = 0;
        while i < pad
            invariant
                i <= pad,
                v@ == Seq::new(i as nat, |k: int| '0'),
            decreases pad - i,
        {
            v.push('0');
            proof {
                assert(v@ =~= Seq::new((i + 1) as nat, |k: int| '0'));
            }
            i = i + 1;
        }
    }
    let mut j: usize = 0;
    let ghost v0 = v@;
    while j < d.len()
        invariant
            j <= d.len(),
            v@ == v0 + d@.take(j as int),
        decreases d.len() - j,
    {
        v.push(d[j]);
        proof {
            assert(v@ =~= v0 + d@.take(j + 1));
        }
        j = j + 1;
    }
    proof {
        assert(d@.take(j as int) =~= d@);
        assert(v@ =~= zero_padded(n as nat, width as nat));
    }
    string_of(&v)
}

/// `p` is a prefix of `s`.
pub open spec fn is_prefix(p: Seq<char>, s: Seq<char>) -> bool {
    p.len() <= s.len() && s.take(p.len() as int) == p
}

/// `p` is a suffix of `s`.
pub open spec fn is_suffix(p: Seq<char>, s: Seq<char>) -> bool {
    p.len() <= s.len() && s.skip(s.len() - p.len()) == p
}

fn prefix_at(v: &Vec<char>, p: &Vec<char>, start: usize) -> (b: bool)
    requires
        start + p.len() <= v.len(),
    ensures
        b == (v@.subrange(start as int, start + p.len()) == p@),
{
    let mut i: usize = 0;
    while i < p.len()
        invariant
            i <= p.len(),
            start + p.len() <= v.len(),
            forall|j: int| 0 <= j < i ==> v@[start + j] == p@[j],
        decreases p.len() - i,
    {
        if v[start + i] != p[i] {
            proof {
                assert(v@.subrange(start as int, start + p.len())[i as int] != p@[i as int]);
            }
            return false;
        }
        i = i + 1;
    }
    proof {
        assert(v@.subrange(start as int, start + p.len()) =~= p@);
    }
    true
}

/// Whether `s` starts with `p` (`str::starts_with`).
pub fn starts_with(s: &str, p: &str) -> (b: bool)
    ensures
        b == is_prefix(p@, s@),
{
    let v = chars_of(s);
    let w = chars_of(p);
    if w.len() > v.len() {
        return false;
    }
    let r = prefix_at(&v, &w, 0);
    proof {
        assert(v@.subrange(0, w@.len() as int) =~= v@.take(w@.len() as int));
    }
    r
}

/// Whether `s` ends with `p` (`str::ends_with`).
pub fn ends_with(s: &str, p: &str) -> (b: bool)
    ensures
        b == is_suffix(p@, s@),
{
    let v = chars_of(s);
    let w = chars_of(p);
    if w.len() > v.len() {
        return false;
    }
    let r = prefix_at(&v, &w, v.len() - w.len());
    proof {
        assert(v@.subrange(v@.len() - w@.len(), v@.len() as int) =~= v@.skip(v@.len() - w@.len()));
    }
    r
}

/// `s` without the prefix `p`, where it has it (`str::strip_prefix`).
pub fn strip_prefix(s: &str, p: &str) -> (r: Option<String>)
    ensures
        match r {
            Some(t) => is_prefix(p@, s@) && t@ == s@.skip(p@.len() as int),
            None => !is_prefix(p@, s@),
        },
{
    if starts_with(s, p) {
        let v = chars_of(s);
        let w = chars_of(p);
        let rest = copy_range(&v, w.len(), v.len());
        proof {
            assert(rest@ =~= s@.skip(p@.len() as int));
        }
        Some(string_of(&rest))
    } else {
        None
    }
}

/// `s` without the suffix `p`, where it has it (`str::strip_suffix`).
pub fn strip_suffix(s: &str, p: &str) -> (r: Option<String>)
    ensures
        match r {
            Some(t) => is_suffix(p@, s@) && t@ == s@.take(s@.len() - p@.len()),
            None => !is_suffix(p@, s@),
        },
{
    if ends_with(s, p) {
        let v = chars_of(s);
        let w = chars_of(p);
        let rest = copy_range(&v, 0, v.len() - w.len());
        proof {
            assert(rest@ =~= s@.take(s@.len() - p@.len()));
        }
        Some(string_of(&rest))
    } else {
        None
    }
}

/// `s` split at its first `c`, which neither part holds (`str::split_once`).
pub fn split_once(s: &str, c: char) -> (r: Option<(String, String)>)
    ensures
        match r {
            Some((a, b)) => exists|i: int|
                0 <= i < s@.len() && s@[i] == c && (forall|j: int| 0 <= j < i ==> s@[j] != c)
                    && a@ == s@.take(i) && b@ == s@.skip(i + 1),
            None => forall|i: int| 0 <= i < s@.len() ==> s@[i] != c,
        },
{
    let v = chars_of(s);
    let mut i: usize = 0;
    while i < v.len()
        invariant
            i <= v.len(),
            v@ == s@,
            forall|j: int| 0 <= j < i ==> v@[j] != c,
        decreases v.len() - i,
    {
        if v[i] == c {
            let a = copy_range(&v, 0, i);
            let b = copy_range(&v, i + 1, v.len());
            proof {
                assert(a@ =~= s@.take(i as int));
                assert(b@ =~= s@.skip(i + 1));
            }
            return Some((string_of(&a), string_of(&b)));
        }
        i = i + 1;
    }
    None
}

/// `s` is a yes answer: trimmed and lower-cased, it starts with `y`.
pub open spec fn is_yes(s: Seq<char>) -> bool {
    let l = lowercase(trim(s));
    l.len() > 0 && l[0] == 'y'
}

/// Whether a prompt's answer is yes (`trim().to_lowercase().starts_with('y')`).
pub fn answer_is_yes(s: &str) -> (b: bool)
    ensures
        b == is_yes(s@),
{
    let t = trim_str(s);
    let l = to_lowercase(t.as_str());
    let v = chars_of(l.as_str());
    v.len() > 0 && v[0] == 'y'
}

/// The answer to a `[y/N]` prompt is `y`, in either case, once trimmed.
pub open spec fn is_y(s: Seq<char>) -> bool {
    trim(s) == "y"@ || trim(s) == "Y"@
}

/// Whether a `[y/N]` prompt was answered `y`
/// (`trim().eq_ignore_ascii_case("y")`).
pub fn confirmed_y(s: &str) -> (b: bool)
    ensures
        b == is_y(s@),
{
    let t = trim_str(s);
    let v = chars_of(t.as_str());
    proof {
        reveal_strlit("y");
        reveal_strlit("Y");
    }
    let r = v.len() == 1 && (v[0] == 'y' || v[0] == 'Y');
    proof {
        if r {
            if v@[0] == 'y' {
                assert(v@ =~= "y"@);
            } else {
                assert(v@ =~= "Y"@);
            }
        }
    }
    r
}

/// `x` without a final carriage return.
pub open spec fn strip_cr(x: Seq<char>) -> Seq<char> {
    if x.len() > 0 && x.last() == '\r' {
        x.drop_last()
    } else {
        x
    }
}

/// The lines of `s` as `str::lines` gives them: split at each `\n`, a `\r`
/// before it dropped, and no empty line after a final `\n`.
pub open spec fn text_lines(s: Seq<char>) -> Seq<Seq<char>> {
    let p = split_on(s, '\n');
    let n = if p.last().len() == 0 {
        p.len() - 1
    } else {
        p.len() as int
    };
    Seq::new(
        n as nat,
        |i: int|
            if i < p.len() - 1 {
                strip_cr(p[i])
            } else {
                p[i]
            },
    )
}

/// The lines of `s` (`str::lines`).
pub fn lines_of(s: &str) -> (r: Vec<String>)
    ensures
        strings_view(r@) == text_lines(s@),
{
    let pieces = split_str(s, '\n');
    proof {
        lemma_split_on_nonempty(s@, '\n');
    }
    let ghost p = strings_view(pieces@);
    let count: usize = if pieces[pieces.len() - 1].as_str().is_empty() {
        pieces.len() - 1
    } else {
        pieces.len()
    };
    proof {
        assert(p.last() == pieces@[pieces.len() - 1]@);
    }
    let mut r: Vec<String> = Vec::new();
    let mut i: usize = 0;
    while i < count
        invariant
            i <= count <= pieces.len(),
            pieces.len() >= 1,
            p == strings_view(pieces@),
            p == split_on(s@, '\n'),
            count == (if p.last().len() == 0 {
                p.len() - 1
            } else {
                p.len() as int
            }),
            strings_view(r@) == text_lines(s@).take(i as int),
        decreases count - i,
    {
        let piece = &pieces[i];
        let v = chars_of(piece.as_str());
        let line = if i + 1 < pieces.len() && v.len() > 0 && v[v.len() - 1] == '\r' {
            let w = copy_range(&v, 0, v.len() - 1);
            string_of(&w)
        } else {
            string_of(&v)
        };
        let ghost r0 = r@;
        proof {
            assert(p[i as int] == pieces@[i as int]@);
            if i + 1 < pieces.len() && v.len() > 0 && v@[v.len() - 1] == '\r' {
                assert(line@ =~= p[i as int].drop_last());
            }
            assert(line@ == text_lines(s@)[i as int]);
        }
        r.push(line);
        proof {
            assert(strings_view(r@) =~= strings_view(r0).push(line@));
            assert(text_lines(s@).take(i + 1) =~= text_lines(s@).take(i as int).push(line@));
        }
        i = i + 1;
    }
    proof {
        assert(text_lines(s@).take(i as int) =~= text_lines(s@));
    }
    r
}

/// The strings of `v` with `sep` between each two.
pub open spec fn joined_with(v: Seq<Seq<char>>, sep: Seq<char>) -> Seq<char>
    decreases v.len(),
{
    if v.len() == 0 {
        Seq::empty()
    } else if v.len() == 1 {
        v[0]
    } else {
        joined_with(v.drop_last(), sep) + sep + v.last()
    }
}

/// The strings of `v` joined with `sep` (`join`).
pub fn join_strings(v: &Vec<String>, sep: &str) -> (r: String)
    ensures
        r@ == joined_with(strings_view(v@), sep@),
{
    let mut r = String::new();
    let mut i: usize = 0;
    while i < v.len()
        invariant
            i <= v.len(),
            r@ == joined_with(strings_view(v@).take(i as int), sep@),
        decreases v.len() - i,
    {
        proof {
            assert(strings_view(v@).take(i + 1).drop_last() =~= strings_view(v@).take(i as int));
        }
        if i > 0 {
            r.append(sep);
        }
        r.append(v[i].as_str());
        proof {
            if i == 0 {
                assert(r@ =~= joined_with(strings_view(v@).take(1), sep@));
            }
        }
        i = i + 1;
    }
    proof {
        assert(strings_view(v@).take(i as int) =~= strings_view(v@));
    }
    r
}

/// Every character of `s` is an ASCII digit.
pub open spec fn all_digits(s: Seq<char>) -> bool {
    forall|i: int| 0 <= i < s.len() ==> '0' <= #[trigger] s[i] <= '9'
}

/// The number that the decimal digits `s` write.
pub open spec fn digits_value(s: Seq<char>) -> int
    decreases s.len(),
{
    if s.len() == 0 {
        0
    } else {
        digits_value(s.drop_last()) * 10 + ((s.last() as u32) - ('0' as u32))
    }
}

/// The `usize` that `s` writes, as `str::parse::<usize>` reads it: an
/// optional `+`, then one or more decimal digits, within range.
pub open spec fn parsed_usize(s: Seq<char>) -> Option<usize> {
    let d = if s.len() > 0 && s[0] == '+' {
        s.drop_first()
    } else {
        s
    };
    if d.len() > 0 && all_digits(d) && digits_value(d) <= usize::MAX {
        Some(digits_value(d) as usize)
    } else {
        None
    }
}

proof fn lemma_digits_value_nonneg(s: Seq<char>)
    requires
        all_digits(s),
    ensures
        digits_value(s) >= 0,
    decreases s.len(),
{
    if s.len() > 0 {
        assert(all_digits(s.drop_last()));
        lemma_digits_value_nonneg(s.drop_last());
    }
}

proof fn lemma_digits_value_prefix(s: Seq<char>, i: int)
    requires
        all_digits(s),
        0 <= i <= s.len(),
    ensures
        digits_value(s.take(i)) <= digits_value(s),
    decreases s.len() - i,
{
    if i < s.len() {
        lemma_digits_value_prefix(s, i + 1);
        assert(s.take(i + 1).drop_last() =~= s.take(i));
        assert(all_digits(s.take(i)));
        lemma_digits_value_nonneg(s.take(i));
    } else {
        assert(s.take(i) =~= s);
    }
}

/// Reads a `usize` as `str::parse::<usize>` does.
pub fn parse_usize(s: &str) -> (r: Option<usize>)
    ensures
        r == parsed_usize(s@),
{
    let v = chars_of(s);
    let start: usize = if v.len() > 0 && v[0] == '+' {
        1
    } else {
        0
    };
    let ghost d = if s@.len() > 0 && s@[0] == '+' {
        s@.drop_first()
    } else {
        s@
    };
    proof {
        assert(d =~= v@.skip(start as int));
    }
    if start == v.len() {
        return None;
    }
    let mut n: usize = 0;
    let mut i: usize = start;
    while i < v.len()
        invariant
            start <= i <= v.len(),
            v@ == s@,
            d == v@.skip(start as int),
            d == (if s@.len() > 0 && s@[0] == '+' {
                s@.drop_first()
            } else {
                s@
            }),
            all_digits(d.take(i - start)),
            n == digits_value(d.take(i - start)),
        decreases v.len() - i,
    {
        let c = v[i];
        proof {
            assert(d.take(i + 1 - start).drop_last() =~= d.take(i - start));
            assert(d[i - start] == c);
        }
        if !('0' <= c && c <= '9') {
            proof {
                assert(!('0' <= d[i - start] <= '9'));
                assert(!all_digits(d));
                assert(parsed_usize(s@) is None);
            }
            return None;
        }
        let digit = (c as u32 - '0' as u32) as usize;
        proof {
            assert(all_digits(d.take(i + 1 - start)));
            assert(d.take(i + 1 - start).last() == c);
            assert(digits_value(d.take(i + 1 - start)) == n * 10 + digit);
        }
        match n.checked_mul(10) {
            None => {
                proof {
                    if all_digits(d) {
                        lemma_digits_value_prefix(d, i + 1 - start);
                        assert(digits_value(d) > usize::MAX);
                    }
                    assert(parsed_usize(s@) is None);
                }
                return None;
            },
            Some(m) => match m.checked_add(digit) {
                None => {
                    proof {
                        if all_digits(d) {
                            lemma_digits_value_prefix(d, i + 1 - start);
                        }
                    }
                    return None;
                },
                Some(k) => {
                    n = k;
                },
            },
        }
        i = i + 1;
    }
    proof {
        assert(d.take(i - start) =~= d);
    }
    Some(n)
}

proof fn lemma_digit_char_value(k: int)
    requires
        0 <= k < 10,
    ensures
        (digit_char(k) as u32) - ('0' as u32) == k,
        '0' <= digit_char(k) <= '9',
{
    assert('0' as u32 == 48);
    assert('1' as u32 == 49);
    assert('2' as u32 == 50);
    assert('3' as u32 == 51);
    assert('4' as u32 == 52);
    assert('5' as u32 == 53);
    assert('6' as u32 == 54);
    assert('7' as u32 == 55);
    assert('8' as u32 == 56);
    assert('9' as u32 == 57);
}

/// The decimal form of a number is a non-empty string of digits that
/// reads back as the number.
pub proof fn lemma_decimal_digits(n: nat)
    ensures
        decimal(n).len() > 0,
        all_digits(decimal(n)),
        digits_value(decimal(n)) == n,
    decreases n,
{
    lemma_digit_char_value((n % 10) as int);
    if n < 10 {
        let d = decimal(n);
        assert(d.drop_last() =~= Seq::<char>::empty());
        assert(digits_value(Seq::<char>::empty()) == 0);
        assert(n % 10 == n);
        assert(d.last() == digit_char(n as int));
        assert(digits_value(d) == n);
    }
    if n >= 10 {
        lemma_decimal_digits(n / 10);
        let d = decimal(n);
        assert(d.drop_last() =~= decimal(n / 10));
        assert(n == (n / 10) * 10 + n % 10);
        assert(d.last() == digit_char((n % 10) as int));
        assert(digits_value(d) == digits_value(decimal(n / 10)) * 10 + ((d.last() as u32) - ('0' as u32)));
        assert forall|i: int| 0 <= i < d.len() implies '0' <= #[trigger] d[i] <= '9' by {
            if i < d.len() - 1 {
                assert(d[i] == decimal(n / 10)[i]);
            }
        }
    }
}

/// Reading back the decimal form of a number gives the number.
pub proof fn lemma_decimal_round_trip(n: usize)
    ensures
        parsed_usize(decimal(n as nat)) == Some(n),
{
    lemma_decimal_digits(n as nat);
    let d = decimal(n as nat);
    assert('0' <= d[0] <= '9');
}

} // verus!
