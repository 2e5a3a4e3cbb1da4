//! Address validation and the storage layout of the address book.

use vstd::prelude::*;
use crate::address_book::types::{
    address_type_text, entries_view, now_micros, opt_view, AddressEntry, AddressType, Amount, EntryView,
    fresh_entry, str_eq,
};
use crate::paths::{join, joined};
use crate::text::{join_strings, joined_with, lines_of, text_lines};
use crate::text::{all_digits, decimal, lemma_decimal_digits, ascii_lower, is_ascii_char, chars_of, copy_range, lowercase, to_lowercase, split_on, split_str, strings_view, trim_str, hex_lower, hex_lower_char, is_hex_digit, string_of, trim, trim_chars, utf8_len, utf8_len_capped};

verus! {

/// Errors of the address book.
#[derive(Debug, Clone)]
pub enum AddressBookError {
    AddressNotFound(String),
    AddressExists(String),
    LabelExists(String),
    InvalidAddress(String),
}

/// `s` without one leading `0x` or `0X`.
pub open spec fn strip_hex_prefix(s: Seq<char>) -> Seq<char> {
    if s.len() >= 2 && s[0] == '0' && (s[1] == 'x' || s[1] == 'X') {
        s.skip(2)
    } else {
        s
    }
}

/// Every character of `s` is a hexadecimal digit.
pub open spec fn all_hex(s: Seq<char>) -> bool {
    forall|i: int| 0 <= i < s.len() ==> is_hex_digit(#[trigger] s[i])
}

/// The hexadecimal body of an address as `validate_address` reads it.
pub open spec fn address_body(address: Seq<char>) -> Seq<char> {
    strip_hex_prefix(trim(address))
}

/// `0x` followed by the lower-cased digits of `body`.
pub open spec fn canonical_address(body: Seq<char>) -> Seq<char> {
    seq!['0', 'x'] + body.map_values(|c: char| hex_lower(c))
}

/// Validates an Ethereum address and returns it as `0x` and 40 lower-case
/// hexadecimal digits. Surrounding white space and one `0x`/`0X` prefix are
/// removed first; the rest must be 40 bytes long and all hexadecimal.
pub fn validate_address(address: &str) -> (res: Result<String, AddressBookError>)
    ensures
        res is Ok <==> (utf8_len(address_body(address@)) == 40 && all_hex(
            address_body(address@),
        )),
        res matches Ok(a) ==> a@ == canonical_address(address_body(address@)),
        res matches Err(e) ==> e is InvalidAddress,
        res matches Err(e) ==> (utf8_len(address_body(address@)) != 40 ==> e->InvalidAddress_0@
            == "Address must be 40 hexadecimal characters"@),
        res matches Err(e) ==> (utf8_len(address_body(address@)) == 40 ==> e->InvalidAddress_0@
            == "Address must contain only hexadecimal characters"@),
{
    let all = chars_of(address);
    let t = trim_chars(&all);
    let n = t.len();
    let start: usize = if n >= 2 && t[0] == '0' && (t[1] == 'x' || t[1] == 'X') {
        2
    } else {
        0
    };
    let body = copy_range(&t, start, n);
    proof {
        assert(body@ =~= address_body(address@));
    }
    if utf8_len_capped(&body, 40) != 40 {
        return Err(
            AddressBookError::InvalidAddress(
                String::from_str("Address must be 40 hexadecimal characters"),
            ),
        );
    }
    let mut out: Vec<char> = Vec::new();
    out.push('0');
    out.push('x');
    let mut i: usize = 0;
    while i < body.len()
        invariant
            i <= body.len(),
            body@ == address_body(address@),
            utf8_len(body@) == 40,
            forall|k: int| 0 <= k < i ==> is_hex_digit(#[trigger] body@[k]),
            out@ == seq!['0', 'x'] + body@.subrange(0, i as int).map_values(
                |c: char| hex_lower(c),
            ),
        decreases body.len() - i,
    {
        let c = body[i];
        if !(('0' <= c && c <= '9') || ('a' <= c && c <= 'f') || ('A' <= c && c <= 'F')) {
            return Err(
                AddressBookError::InvalidAddress(
                    String::from_str("Address must contain only hexadecimal characters"),
                ),
            );
        }
        out.push(hex_lower_char(c));
        proof {
            assert(body@.subrange(0, i + 1).map_values(|c: char| hex_lower(c)) =~= body@.subrange(
                0,
                i as int,
            ).map_values(|c: char| hex_lower(c)).push(hex_lower(c)));
        }
        i = i + 1;
    }
    proof {
        assert(body@.subrange(0, i as int) =~= body@);
    }
    Ok(string_of(&out))
}

/// `s` with every leading `0` + `c` pair removed, as
/// `trim_start_matches("0c")` does.
pub open spec fn strip_all_prefix(s: Seq<char>, c: char) -> Seq<char>
    decreases s.len(),
{
    if s.len() >= 2 && s[0] == '0' && s[1] == c {
        strip_all_prefix(s.skip(2), c)
    } else {
        s
    }
}

/// The address as `checksum_address` writes it.
pub open spec fn checksummed(address: Seq<char>) -> Seq<char> {
    seq!['0', 'x'] + lowercase(strip_all_prefix(strip_all_prefix(address, 'x'), 'X'))
}

fn strip_all_prefix_exec(v: &Vec<char>, c: char) -> (r: Vec<char>)
    ensures
        r@ == strip_all_prefix(v@, c),
{
    let mut i: usize = 0;
    proof {
        assert(v@.skip(0) =~= v@);
    }
    while v.len() - i >= 2 && v[i] == '0' && v[i + 1] == c
        invariant
            i <= v.len(),
            strip_all_prefix(v@, c) == strip_all_prefix(v@.skip(i as int), c),
        decreases v.len() - i,
    {
        proof {
            assert(v@.skip(i as int).skip(2) =~= v@.skip(i + 2));
        }
        i = i + 2;
    }
    copy_range(v, i, v.len())
}

/// A lower-case hexadecimal digit.
pub open spec fn is_lower_hex(c: char) -> bool {
    ('0' <= c && c <= '9') || ('a' <= c && c <= 'f')
}

/// `0x` followed by 40 lower-case hexadecimal digits: the form in which
/// `validate_address` returns an address.
pub open spec fn is_canonical_address(s: Seq<char>) -> bool {
    &&& s.len() == 42
    &&& s[0] == '0'
    &&& s[1] == 'x'
    &&& forall|i: int| 2 <= i < 42 ==> is_lower_hex(#[trigger] s[i])
}

/// The address with every leading `0x` and then every leading `0X` removed,
/// lower-cased and prefixed with `0x` (no EIP-55 mixed-case checksum).
/// An address already in the form `validate_address` returns comes back
/// unchanged.
pub fn checksum_address(address: &str) -> (r: String)
    ensures
        r@ == checksummed(address@),
        is_canonical_address(address@) ==> r@ == address@,
{
    let v = chars_of(address);
    let a = strip_all_prefix_exec(&v, 'x');
    let b = strip_all_prefix_exec(&a, 'X');
    let body = string_of(&b);
    let low = to_lowercase(body.as_str());
    let lc = chars_of(low.as_str());
    let mut out: Vec<char> = Vec::new();
    out.push('0');
    out.push('x');
    let mut i: usize = 0;
    while i < lc.len()
        invariant
            i <= lc.len(),
            out@ == seq!['0', 'x'] + lc@.subrange(0, i as int),
        decreases lc.len() - i,
    {
        out.push(lc[i]);
        proof {
            assert(out@ =~= seq!['0', 'x'] + lc@.subrange(0, i + 1));
        }
        i = i + 1;
    }
    proof {
        assert(lc@.subrange(0, i as int) =~= lc@);
        if is_canonical_address(address@) {
            let w = v@.skip(2);
            assert(w[1] == address@[3]);
            assert(is_lower_hex(w[1]));
            assert(strip_all_prefix(w, 'x') == w);
            assert(strip_all_prefix(v@, 'x') == strip_all_prefix(w, 'x'));
            assert(strip_all_prefix(w, 'X') == w);
            assert(b@ == w);
            assert forall|k: int| 0 <= k < w.len() implies is_ascii_char(#[trigger] w[k]) by {
                assert(is_lower_hex(address@[k + 2]));
            }
            assert(low@ =~= w) by {
                assert forall|k: int| 0 <= k < w.len() implies ascii_lower(#[trigger] w[k]) == w[k] by {
                    assert(is_lower_hex(address@[k + 2]));
                }
            }
            assert(out@ =~= address@);
        }
    }
    string_of(&out)
}

/// The address type named in the type column of the CSV format.
pub open spec fn csv_type(s: Seq<char>) -> AddressType {
    if s == "Own"@ {
        AddressType::Own
    } else if s == "Watched"@ {
        AddressType::Watched
    } else if s == "Contract"@ {
        AddressType::Contract
    } else if s == "Exchange"@ {
        AddressType::Exchange
    } else if s == "Market Maker"@ {
        AddressType::MarketMaker
    } else {
        AddressType::Other
    }
}

/// A trimmed field, or `None` when it is empty after trimming.
pub open spec fn csv_opt(s: Seq<char>) -> Option<Seq<char>> {
    if trim(s).len() == 0 {
        None
    } else {
        Some(trim(s))
    }
}

/// The tags of the tag column: none when it is blank, else its `;`-separated
/// pieces, trimmed.
pub open spec fn csv_tags(s: Seq<char>) -> Seq<Seq<char>> {
    if trim(s).len() == 0 {
        Seq::empty()
    } else {
        split_on(s, ';').map_values(|t: Seq<char>| trim(t))
    }
}

/// The entry that a line of the CSV format describes, created at `now`:
/// columns are address, label, type, description, tags, added, synced,
/// value and active; a line with fewer than nine columns describes none.
pub open spec fn csv_entry(line: Seq<char>, now: i64) -> Option<EntryView> {
    let parts = split_on(line, ',');
    if parts.len() < 9 {
        None
    } else {
        Some(
            EntryView {
                label: csv_opt(parts[1]),
                description: csv_opt(parts[3]),
                tags: csv_tags(parts[4]),
                is_active: trim(parts[8]) == "true"@,
                ..fresh_entry(trim(parts[0]), csv_type(trim(parts[2])), now)
            },
        )
    }
}

fn csv_type_exec(s: &str) -> (t: AddressType)
    ensures
        t == csv_type(s@),
{
    if str_eq(s, "Own") {
        AddressType::Own
    } else if str_eq(s, "Watched") {
        AddressType::Watched
    } else if str_eq(s, "Contract") {
        AddressType::Contract
    } else if str_eq(s, "Exchange") {
        AddressType::Exchange
    } else if str_eq(s, "Market Maker") {
        AddressType::MarketMaker
    } else {
        AddressType::Other
    }
}

fn csv_opt_exec(s: &String) -> (r: Option<String>)
    ensures
        crate::address_book::types::opt_view(r) == csv_opt(s@),
{
    let t = trim_str(s.as_str());
    if t.as_str().is_empty() {
        None
    } else {
        Some(t)
    }
}

fn csv_tags_exec(s: &String) -> (r: Vec<String>)
    ensures
        strings_view(r@) == csv_tags(s@),
{
    let t = trim_str(s.as_str());
    if t.as_str().is_empty() {
        let r: Vec<String> = Vec::new();
        proof {
            assert(strings_view(r@) =~= csv_tags(s@));
        }
        return r;
    }
    let pieces = split_str(s.as_str(), ';');
    let mut r: Vec<String> = Vec::new();
    let mut i: usize = 0;
    while i < pieces.len()
        invariant
            i <= pieces.len(),
            strings_view(pieces@) == split_on(s@, ';'),
            strings_view(r@) == strings_view(pieces@).take(i as int).map_values(
                |t: Seq<char>| trim(t),
            ),
        decreases pieces.len() - i,
    {
        let tt = trim_str(pieces[i].as_str());
        let ghost r0 = strings_view(r@);
        r.push(tt);
        proof {
            assert(strings_view(r@) =~= r0.push(trim(strings_view(pieces@)[i as int])));
            assert(strings_view(pieces@).take(i + 1).map_values(|t: Seq<char>| trim(t))
                =~= strings_view(pieces@).take(i as int).map_values(|t: Seq<char>| trim(t)).push(
                trim(strings_view(pieces@)[i as int]),
            ));
        }
        i = i + 1;
    }
    proof {
        assert(strings_view(pieces@).take(i as int) =~= strings_view(pieces@));
    }
    r
}

/// Reads one line of the CSV format into an entry created at `now`.
pub fn parse_csv_line(line: &str, now: i64) -> (r: Option<AddressEntry>)
    ensures
        match r {
            Some(e) => csv_entry(line@, now) == Some(e@),
            None => csv_entry(line@, now) is None,
        },
{
    let parts = split_str(line, ',');
    if parts.len() < 9 {
        return None;
    }
    proof {
        assert(strings_view(parts@)[0] == parts@[0]@);
        assert(strings_view(parts@)[2] == parts@[2]@);
        assert(strings_view(parts@)[8] == parts@[8]@);
        assert(strings_view(parts@)[1] == parts@[1]@);
        assert(strings_view(parts@)[3] == parts@[3]@);
        assert(strings_view(parts@)[4] == parts@[4]@);
    }
    let address = trim_str(parts[0].as_str());
    let type_field = trim_str(parts[2].as_str());
    let address_type = csv_type_exec(type_field.as_str());
    let active_field = trim_str(parts[8].as_str());
    let mut e = AddressEntry::new_at(address, address_type, now);
    e.label = csv_opt_exec(&parts[1]);
    e.description = csv_opt_exec(&parts[3]);
    e.tags = csv_tags_exec(&parts[4]);
    e.is_active = str_eq(active_field.as_str(), "true");
    Some(e)
}

/// The entries described by the first `n` lines of a CSV file, the header
/// line left out, where line `i` is read with the clock at `stamps[i]`.
pub open spec fn csv_imported(lines: Seq<Seq<char>>, stamps: Seq<i64>, n: int) -> Seq<EntryView>
    decreases n,
{
    if n <= 1 {
        Seq::empty()
    } else {
        let prev = csv_imported(lines, stamps, n - 1);
        match csv_entry(lines[n - 1], stamps[n - 1]) {
            Some(e) => prev.push(e),
            None => prev,
        }
    }
}

proof fn lemma_csv_imported_stamps(lines: Seq<Seq<char>>, stamps: Seq<i64>, t: i64, n: int)
    requires
        n <= stamps.len(),
    ensures
        csv_imported(lines, stamps.push(t), n) == csv_imported(lines, stamps, n),
    decreases n,
{
    if n > 1 {
        lemma_csv_imported_stamps(lines, stamps, t, n - 1);
        assert(stamps.push(t)[n - 1] == stamps[n - 1]);
    }
}

/// The entries that the lines of a CSV file describe, after its header line,
/// in file order; each is stamped with the clock when its line is read.
pub fn import_csv_lines(lines: &Vec<String>) -> (r: Vec<AddressEntry>)
    ensures
        exists|stamps: Seq<i64>|
            stamps.len() == lines@.len() && entries_view(r@) == #[trigger] csv_imported(
                strings_view(lines@),
                stamps,
                lines@.len() as int,
            ),
{
    let mut r: Vec<AddressEntry> = Vec::new();
    let ghost ls = strings_view(lines@);
    let ghost mut stamps: Seq<i64> = if lines.len() == 0 {
        Seq::empty()
    } else {
        seq![0i64]
    };
    if lines.len() == 0 {
        proof {
            assert(entries_view(r@) =~= csv_imported(ls, stamps, 0));
        }
        return r;
    }
    let mut i: usize = 1;
    while i < lines.len()
        invariant
            1 <= i <= lines.len(),
            ls == strings_view(lines@),
            stamps.len() == i,
            entries_view(r@) == csv_imported(ls, stamps, i as int),
        decreases lines.len() - i,
    {
        let now = now_micros();
        let ghost r0 = entries_view(r@);
        proof {
            lemma_csv_imported_stamps(ls, stamps, now, i as int);
            stamps = stamps.push(now);
            assert(ls[i as int] == lines@[i as int]@);
        }
        if let Some(e) = parse_csv_line(lines[i].as_str(), now) {
            r.push(e);
            proof {
                assert(entries_view(r@) =~= r0.push(e@));
            }
        } else {
            assert(entries_view(r@) =~= r0);
        }
        i = i + 1;
    }
    r
}

/// Where the address book is kept: the book file and its backups under a
/// base directory.
#[derive(Debug)]
pub struct AddressBookStorage {
    /// Base directory for address book data
    pub base_dir: String,
    /// Address book file path
    pub address_book_path: String,
    /// Backup directory
    pub backup_dir: String,
}

impl AddressBookStorage {
    /// The storage under `base_dir`: `address_book.json` and `backups/`.
    pub fn new(base_dir: &str) -> (r: Self)
        ensures
            r.base_dir@ == base_dir@,
            r.address_book_path@ == joined(base_dir@, "address_book.json"@),
            r.backup_dir@ == joined(base_dir@, "backups"@),
    {
        AddressBookStorage {
            base_dir: String::from_str(base_dir),
            address_book_path: join(base_dir, "address_book.json"),
            backup_dir: join(base_dir, "backups"),
        }
    }
}

/// The header line of the CSV export.
pub open spec fn csv_header() -> Seq<char> {
    "Address,Label,Type,Description,Tags,Added At,Last Synced,Total Value,Active"@
}

/// The header line of the CSV export.
pub fn export_csv_header() -> (r: String)
    ensures
        r@ == csv_header(),
{
    String::from_str("Address,Label,Type,Description,Tags,Added At,Last Synced,Total Value,Active")
}

/// The UTC date and time `%Y-%m-%d %H:%M:%S` of an instant given in
/// microseconds since the epoch, where chrono can represent it.
pub uninterp spec fn utc_text(micros: i64) -> Option<Seq<char>>;

/// The decimal digits of `n`, with zeros in front up to `width` digits.
pub open spec fn padded_decimal(n: nat, width: nat) -> Seq<char> {
    let d = decimal(n);
    if d.len() >= width {
        d
    } else {
        Seq::new((width - d.len()) as nat, |i: int| '0') + d
    }
}

/// The decimal text of the amount `mantissa / 10^scale`, as
/// `rust_decimal::Decimal` writes it: a `-` for a negative mantissa, the
/// digits of the mantissa with exactly `scale` of them after a `.` (none
/// when the scale is zero), and a single `0` before the `.` where there is
/// no whole part.
pub open spec fn decimal_text(mantissa: i128, scale: u32) -> Seq<char> {
    let d = padded_decimal(
        (if mantissa < 0 {
            -mantissa
        } else {
            mantissa as int
        }) as nat,
        scale as nat,
    );
    let whole = d.len() - scale;
    let sign = if mantissa < 0 {
        seq!['-']
    } else {
        Seq::empty()
    };
    sign + if scale == 0 {
        d
    } else {
        (if whole == 0 {
            seq!['0']
        } else {
            d.take(whole)
        }) + seq!['.'] + d.skip(whole)
    }
}

/// A character that the time format `%Y-%m-%d %H:%M:%S` can write: a
/// digit, the sign of a year outside 0 to 9999, or a separator.
pub open spec fn utc_text_char(c: char) -> bool {
    ('0' <= c && c <= '9') || c == '+' || c == '-' || c == ':' || c == ' '
}

/// Formats an instant with chrono: `DateTime::from_timestamp_micros`, then
/// `format("%Y-%m-%d %H:%M:%S")` in UTC. The result is named by `utc_text`;
/// `None` where chrono cannot represent the instant. chrono writes each
/// field of that format as digits, with a sign before a year outside 0 to
/// 9999, and the format's own separators, so every character of the text
/// is one of those.
#[verifier::external_body]
fn format_utc(micros: i64) -> (r: Option<String>)
    ensures
        match r {
            Some(t) => utc_text(micros) == Some(t@),
            None => utc_text(micros) is None,
        },
        r matches Some(t) ==> forall|i: int| 0 <= i < t@.len() ==> utc_text_char(#[trigger] t@[i]),
{
    match chrono::DateTime::from_timestamp_micros(micros) {
        Some(t) => Some(t.format("%Y-%m-%d %H:%M:%S").to_string()),
        None => None,
    }
}

/// A `rust_decimal::Decimal` can hold the amount: a scale of at most 28 and
/// a mantissa within 96 bits.
pub open spec fn amount_fits(a: Amount) -> bool {
    a.scale <= 28 && -79228162514264337593543950335 <= a.mantissa <= 79228162514264337593543950335
}

/// Writes an amount with rust_decimal: `Decimal::from_i128_with_scale`,
/// then `to_string`, which writes the sign, the digits of the mantissa and
/// a `.` before the last `scale` of them, as `decimal_text` states.
#[verifier::external_body]
fn amount_text(a: Amount) -> (r: String)
    requires
        amount_fits(a),
    ensures
        r@ == decimal_text(a.mantissa, a.scale),
{
    rust_decimal::Decimal::from_i128_with_scale(a.mantissa, a.scale).to_string()
}

/// The text of an optional field: empty where there is none.
pub open spec fn field_text(o: Option<Seq<char>>) -> Seq<char> {
    match o {
        Some(t) => t,
        None => Seq::empty(),
    }
}

/// The text of the active flag.
pub open spec fn active_text(b: bool) -> Seq<char> {
    if b {
        "true"@
    } else {
        "false"@
    }
}

/// An entry's line of the CSV export, given the texts of its time added,
/// its time last synced and its total value: the address, label, type,
/// description, `;`-joined tags, those three texts and the active flag,
/// separated by commas.
pub open spec fn csv_row_with(e: EntryView, added: Seq<char>, synced: Seq<char>, value: Seq<char>) -> Seq<
    char,
> {
    e.address + ","@ + field_text(e.label) + ","@ + address_type_text(e.address_type) + ","@
        + field_text(e.description) + ","@ + joined_with(e.tags, ";"@) + ","@ + added + ","@ + synced
        + ","@ + value + ","@ + active_text(e.is_active)
}

/// An entry's line of the CSV export, where its times can be written. An
/// amount that no decimal can hold is written empty.
pub open spec fn csv_row(e: EntryView) -> Option<Seq<char>> {
    match utc_text(e.metadata.added_at) {
        None => None,
        Some(added) => {
            let synced = match e.metadata.last_synced {
                Some(t) => utc_text(t),
                None => Some(Seq::empty()),
            };
            match synced {
                None => None,
                Some(synced) => {
                    let value = match e.stats {
                        Some(st) => if amount_fits(st.total_value) {
                            decimal_text(st.total_value.mantissa, st.total_value.scale)
                        } else {
                            Seq::empty()
                        },
                        None => Seq::empty(),
                    };
                    Some(csv_row_with(e, added, synced, value))
                },
            }
        },
    }
}

fn append_opt(out: &mut String, o: &Option<String>)
    ensures
        final(out)@ == old(out)@ + match opt_view(*o) {
            Some(t) => t,
            None => Seq::empty(),
        },
{
    if let Some(t) = o {
        out.append(t.as_str());
    }
}

/// `s` holds neither a comma nor a line break, so it stays within one field
/// of one line.
pub open spec fn field_safe(s: Seq<char>) -> bool {
    !s.contains(',') && !s.contains('\n')
}

/// `line` is the CSV line of `e` written with some texts for its times and
/// value that hold no comma and no line break.
pub open spec fn csv_line_of(e: EntryView, line: Seq<char>) -> bool {
    exists|t: (Seq<char>, Seq<char>, Seq<char>)|
        field_safe(t.0) && field_safe(t.1) && field_safe(t.2) && line == #[trigger] csv_row_with(
            e,
            t.0,
            t.1,
            t.2,
        )
}

/// Two strings without `c` joined hold no `c`.
pub proof fn lemma_concat_free(a: Seq<char>, b: Seq<char>, c: char)
    requires
        !a.contains(c),
        !b.contains(c),
    ensures
        !(a + b).contains(c),
{
    if (a + b).contains(c) {
        let k = choose|k: int| 0 <= k < (a + b).len() && (a + b)[k] == c;
        if k < a.len() {
            assert(a[k] == c);
        } else {
            assert(b[k - a.len()] == c);
        }
    }
}

proof fn lemma_digits_free(d: Seq<char>, c: char)
    requires
        all_digits(d),
        !('0' <= c && c <= '9'),
    ensures
        !d.contains(c),
        forall|i: int| 0 <= i <= d.len() ==> !(#[trigger] d.take(i)).contains(c) && !d.skip(
            i,
        ).contains(c),
{
    if d.contains(c) {
        let k = choose|k: int| 0 <= k < d.len() && d[k] == c;
        assert('0' <= d[k] <= '9');
    }
    assert forall|i: int| 0 <= i <= d.len() implies !(#[trigger] d.take(i)).contains(c) && !d.skip(
        i,
    ).contains(c) by {
        if d.take(i).contains(c) {
            let k = choose|k: int| 0 <= k < d.take(i).len() && d.take(i)[k] == c;
            assert('0' <= d[k] <= '9');
        }
        if d.skip(i).contains(c) {
            let k = choose|k: int| 0 <= k < d.skip(i).len() && d.skip(i)[k] == c;
            assert('0' <= d[k + i] <= '9');
        }
    }
}

proof fn lemma_single_free(x: char, c: char)
    requires
        x != c,
    ensures
        !seq![x].contains(c),
{
    if seq![x].contains(c) {
        let k = choose|k: int| 0 <= k < seq![x].len() && seq![x][k] == c;
    }
}

proof fn lemma_decimal_text_free(mantissa: i128, scale: u32, c: char)
    requires
        !('0' <= c && c <= '9'),
        c != '-',
        c != '.',
    ensures
        !decimal_text(mantissa, scale).contains(c),
{
    let n = (if mantissa < 0 {
        -mantissa
    } else {
        mantissa as int
    }) as nat;
    let dec = decimal(n);
    lemma_decimal_digits(n);
    let d = padded_decimal(n, scale as nat);
    if dec.len() < scale {
        let z = Seq::new((scale - dec.len()) as nat, |i: int| '0');
        assert forall|i: int| 0 <= i < d.len() implies '0' <= #[trigger] d[i] <= '9' by {
            if i >= z.len() {
                assert(d[i] == dec[i - z.len()]);
            }
        }
    }
    assert(all_digits(d));
    lemma_digits_free(d, c);
    let whole = d.len() - scale;
    let sign = if mantissa < 0 {
        seq!['-']
    } else {
        Seq::<char>::empty()
    };
    lemma_single_free('-', c);
    assert(!sign.contains(c)) by {
        if sign.contains(c) {
            let k = choose|k: int| 0 <= k < sign.len() && sign[k] == c;
        }
    }
    let zero = seq!['0'];
    let dot = seq!['.'];
    lemma_single_free('0', c);
    lemma_single_free('.', c);
    if scale == 0 {
        lemma_concat_free(sign, d, c);
    } else {
        let w = if whole == 0 {
            zero
        } else {
            d.take(whole)
        };
        assert(!w.contains(c));
        assert(!d.skip(whole).contains(c));
        lemma_concat_free(w, dot, c);
        lemma_concat_free(w + dot, d.skip(whole), c);
        lemma_concat_free(sign, w + dot + d.skip(whole), c);
    }
}

proof fn lemma_utc_text_free(t: Seq<char>, c: char)
    requires
        forall|i: int| 0 <= i < t.len() ==> utc_text_char(#[trigger] t[i]),
        !utc_text_char(c),
    ensures
        !t.contains(c),
{
    if t.contains(c) {
        let k = choose|k: int| 0 <= k < t.len() && t[k] == c;
        assert(utc_text_char(t[k]));
    }
}

proof fn lemma_empty_free(c: char)
    ensures
        !Seq::<char>::empty().contains(c),
{
}

/// The line of the CSV export for one entry, or `None` where one of its
/// times cannot be written. The times and the value are written without a
/// comma, so the line splits back into its nine fields.
pub fn export_csv_row(e: &AddressEntry) -> (r: Option<String>)
    ensures
        match r {
            Some(t) => csv_row(e@) == Some(t@),
            None => csv_row(e@) is None,
        },
        r matches Some(t) ==> csv_line_of(e@, t@),
{
    let added = match format_utc(e.metadata.added_at) {
        Some(t) => t,
        None => {
            return None;
        },
    };
    let synced = match e.metadata.last_synced {
        Some(t) => match format_utc(t) {
            Some(s) => s,
            None => {
                return None;
            },
        },
        None => String::new(),
    };
    let value = match &e.stats {
        Some(st) => {
            let a = st.total_value;
            if a.scale <= 28 && -79228162514264337593543950335i128 <= a.mantissa && a.mantissa
                <= 79228162514264337593543950335i128 {
                amount_text(a)
            } else {
                String::new()
            }
        },
        None => String::new(),
    };
    let mut out = e.address.clone();
    out.append(",");
    append_opt(&mut out, &e.label);
    out.append(",");
    out.append(e.address_type.display_text());
    out.append(",");
    append_opt(&mut out, &e.description);
    out.append(",");
    let tags = join_strings(&e.tags, ";");
    out.append(tags.as_str());
    out.append(",");
    out.append(added.as_str());
    out.append(",");
    out.append(synced.as_str());
    out.append(",");
    out.append(value.as_str());
    out.append(",");
    if e.is_active {
        out.append("true");
    } else {
        out.append("false");
    }
    proof {
        assert(out@ =~= csv_row(e@)->Some_0);
        lemma_utc_text_free(added@, ',');
        lemma_utc_text_free(added@, '\n');
        if synced@.len() > 0 {
            lemma_utc_text_free(synced@, ',');
            lemma_utc_text_free(synced@, '\n');
        } else {
            assert(synced@ =~= Seq::<char>::empty());
            lemma_empty_free(',');
            lemma_empty_free('\n');
        }
        if value@.len() > 0 {
            let a = e.stats.unwrap().total_value;
            lemma_decimal_text_free(a.mantissa, a.scale, ',');
            lemma_decimal_text_free(a.mantissa, a.scale, '\n');
        } else {
            assert(value@ =~= Seq::<char>::empty());
            lemma_empty_free(',');
            lemma_empty_free('\n');
        }
        assert(out@ == csv_row_with(e@, added@, synced@, value@));
        let w = (added@, synced@, value@);
        assert(out@ == csv_row_with(e@, w.0, w.1, w.2));
    }
    Some(out)
}

/// The text of a CSV file with these lines, each ended by a line break.
pub open spec fn csv_text(lines: Seq<Seq<char>>) -> Seq<char> {
    joined_with(lines, seq!['\n']) + seq!['\n']
}

/// Every entry has a line in the CSV export.
pub open spec fn csv_exportable(es: Seq<EntryView>) -> bool {
    forall|i: int| 0 <= i < es.len() ==> (#[trigger] csv_row(es[i])) is Some
}

/// The lines of the CSV export of the entries, after the header.
pub open spec fn csv_rows(es: Seq<EntryView>) -> Seq<Seq<char>> {
    Seq::new(es.len(), |i: int| csv_row(es[i])->0)
}

/// The text of the CSV export of `entries`: the header and each entry's
/// line, each ended by a line break; `None` where an entry's time cannot be
/// written.
pub fn export_csv_text(entries: &Vec<AddressEntry>) -> (r: Option<String>)
    ensures
        r is Some <==> csv_exportable(entries_view(entries@)),
        r matches Some(t) ==> t@ == csv_text(seq![csv_header()] + csv_rows(entries_view(entries@))),
        r is Some ==> forall|i: int|
            0 <= i < entries@.len() ==> csv_line_of(
                entries_view(entries@)[i],
                #[trigger] csv_rows(entries_view(entries@))[i],
            ),
{
    let ghost es = entries_view(entries@);
    let mut lines: Vec<String> = Vec::new();
    lines.push(export_csv_header());
    let mut i: usize = 0;
    while i < entries.len()
        invariant
            i <= entries.len(),
            es == entries_view(entries@),
            strings_view(lines@) == seq![csv_header()] + csv_rows(es).take(i as int),
            forall|k: int| 0 <= k < i ==> (#[trigger] csv_row(es[k])) is Some,
            forall|k: int| 0 <= k < i ==> csv_line_of(es[k], #[trigger] csv_rows(es)[k]),
        decreases entries.len() - i,
    {
        match export_csv_row(&entries[i]) {
            Some(row) => {
                proof {
                    assert(es[i as int] == entries@[i as int]@);
                }
                let ghost before = strings_view(lines@);
                lines.push(row);
                proof {
                    assert(strings_view(lines@) =~= before.push(row@));
                    assert(csv_rows(es)[i as int] == row@);
                    assert(csv_rows(es).take(i + 1) =~= csv_rows(es).take(i as int).push(row@));
                }
            },
            None => {
                proof {
                    assert(es[i as int] == entries@[i as int]@);
                    assert(csv_row(es[i as int]) is None);
                }
                return None;
            },
        }
        i = i + 1;
    }
    proof {
        assert(csv_rows(es).take(i as int) =~= csv_rows(es));
    }
    let mut t = join_strings(&lines, "\n");
    t.append("\n");
    proof {
        reveal_strlit("\n");
        assert("\n"@ =~= seq!['\n']);
    }
    Some(t)
}

/// The entries that the text of a CSV file describes, line by line after
/// its header line; each is stamped with the clock when its line is read.
pub fn import_csv_text(text: &str) -> (r: Vec<AddressEntry>)
    ensures
        exists|stamps: Seq<i64>|
            stamps.len() == text_lines(text@).len() && entries_view(r@) == #[trigger] csv_imported(
                text_lines(text@),
                stamps,
                text_lines(text@).len() as int,
            ),
{
    let lines = lines_of(text);
    let r = import_csv_lines(&lines);
    proof {
        assert(strings_view(lines@).len() == lines@.len());
        let st = choose|stamps: Seq<i64>|
            stamps.len() == lines@.len() && entries_view(r@) == #[trigger] csv_imported(
                strings_view(lines@),
                stamps,
                lines@.len() as int,
            );
        assert(csv_imported(text_lines(text@), st, text_lines(text@).len() as int) == entries_view(
            r@,
        ));
    }
    r
}

/// How many backups come before backup `i` among the first `n`, newest
/// first: those modified later, and those modified at the same time that are
/// listed before it.
pub open spec fn newer_backups(times: Seq<i128>, i: int, n: int) -> nat
    decreases n,
{
    if n <= 0 {
        0
    } else {
        newer_backups(times, i, n - 1) + if times[n - 1] > times[i] || (times[n - 1] == times[i]
            && n - 1 < i) {
            1nat
        } else {
            0nat
        }
    }
}

/// The position of backup `i` when the backups are listed newest first,
/// those modified at the same time in the order they were found.
pub open spec fn backup_rank(times: Seq<i128>, i: int) -> nat {
    newer_backups(times, i, times.len() as int)
}

/// The indices, in increasing order, of the first `n` backups whose place
/// newest first is `keep` or later.
pub open spec fn stale_backups(times: Seq<i128>, keep: nat, n: int) -> Seq<usize>
    decreases n,
{
    if n <= 0 {
        Seq::empty()
    } else if backup_rank(times, n - 1) >= keep {
        stale_backups(times, keep, n - 1).push((n - 1) as usize)
    } else {
        stale_backups(times, keep, n - 1)
    }
}

proof fn lemma_newer_backups_bound(times: Seq<i128>, i: int, n: int)
    requires
        0 <= i < n,
    ensures
        newer_backups(times, i, n) < n,
    decreases n,
{
    if n - 1 > i {
        lemma_newer_backups_bound(times, i, n - 1);
    } else {
        lemma_newer_backups_at_most(times, i, n - 1);
    }
}

proof fn lemma_newer_backups_at_most(times: Seq<i128>, i: int, n: int)
    ensures
        newer_backups(times, i, n) <= if n <= 0 {
            0
        } else {
            n
        },
    decreases n,
{
    if n > 0 {
        lemma_newer_backups_at_most(times, i, n - 1);
    }
}

proof fn lemma_none_stale(times: Seq<i128>, keep: nat, n: int)
    requires
        n <= times.len() <= keep,
    ensures
        stale_backups(times, keep, n).len() == 0,
    decreases n,
{
    if n > 0 {
        lemma_none_stale(times, keep, n - 1);
        lemma_newer_backups_bound(times, n - 1, times.len() as int);
    }
}

fn backup_rank_exec(times: &Vec<i128>, i: usize) -> (r: usize)
    requires
        i < times.len(),
    ensures
        r == backup_rank(times@, i as int),
{
    let mut count: usize = 0;
    let mut j: usize = 0;
    while j < times.len()
        invariant
            i < times.len(),
            j <= times.len(),
            count == newer_backups(times@, i as int, j as int),
            count <= j,
        decreases times.len() - j,
    {
        if times[j] > times[i] || (times[j] == times[i] && j < i) {
            count = count + 1;
        }
        j = j + 1;
    }
    count
}

/// Which of the backups, given by their modification times in the order
/// they were found, are removed when only the `keep` newest stay: every one
/// whose place newest first is `keep` or later, those modified at the same
/// time placed in the order they were found.
pub fn old_backups(times: &Vec<i128>, keep: usize) -> (r: Vec<usize>)
    ensures
        r@ == stale_backups(times@, keep as nat, times@.len() as int),
        times.len() <= keep ==> r@.len() == 0,
{
    let mut r: Vec<usize> = Vec::new();
    let mut i: usize = 0;
    while i < times.len()
        invariant
            i <= times.len(),
            r@ == stale_backups(times@, keep as nat, i as int),
        decreases times.len() - i,
    {
        if backup_rank_exec(times, i) >= keep {
            r.push(i);
        }
        i = i + 1;
    }
    proof {
        if times.len() <= keep {
            lemma_none_stale(times@, keep as nat, times@.len() as int);
        }
    }
    r
}

} // verus!
