//! Orderings used to sort address book entries.

use vstd::prelude::*;
use crate::address_book::types::Amount;
use crate::text::chars_of;

verus! {

/// `10^n`.
pub open spec fn pow10(n: nat) -> int
    decreases n,
{
    if n == 0 {
        1
    } else {
        10 * pow10((n - 1) as nat)
    }
}

/// `a <= b` as decimal values `mantissa / 10^scale`.
pub open spec fn amount_le(a: Amount, b: Amount) -> bool {
    a.mantissa * pow10(b.scale as nat) <= b.mantissa * pow10(a.scale as nat)
}

pub proof fn lemma_pow10_pos(n: nat)
    ensures
        pow10(n) >= 1,
    decreases n,
{
    if n > 0 {
        lemma_pow10_pos((n - 1) as nat);
    }
}

pub proof fn lemma_pow10_mono(a: nat, b: nat)
    requires
        a <= b,
    ensures
        pow10(a) <= pow10(b),
    decreases b - a,
{
    if a < b {
        lemma_pow10_mono(a, (b - 1) as nat);
        lemma_pow10_pos((b - 1) as nat);
    }
}

pub proof fn lemma_pow10_add(a: nat, b: nat)
    ensures
        pow10(a + b) == pow10(a) * pow10(b),
    decreases b,
{
    if b > 0 {
        lemma_pow10_add(a, (b - 1) as nat);
        let x = pow10(a);
        let y = pow10((b - 1) as nat);
        assert(pow10(a + b) == 10 * pow10((a + b - 1) as nat));
        assert(((a + b - 1) as nat) == a + ((b - 1) as nat));
        assert(10 * (x * y) == x * (10 * y)) by (nonlinear_arith);
    }
}

/// `m * 10^d` in the `i128` range, or `None` when it leaves that range.
fn scale_up(m: i128, d: u32) -> (r: Option<i128>)
    ensures
        r matches Some(x) ==> x == m * pow10(d as nat),
        r is None ==> (m > 0 && m * pow10(d as nat) > i128::MAX) || (m < 0 && m * pow10(
            d as nat,
        ) < i128::MIN),
{
    if m == 0 {
        proof {
            assert(0 * pow10(d as nat) == 0);
        }
        return Some(0);
    }
    let mut x: i128 = m;
    let mut t: u32 = 0;
    while t < d
        invariant
            t <= d,
            m != 0,
            x == m * pow10(t as nat),
        decreases d - t,
    {
        match x.checked_mul(10) {
            Some(y) => {
                proof {
                    assert(pow10((t + 1) as nat) == 10 * pow10(t as nat));
                    assert(m * (10 * pow10(t as nat)) == (m * pow10(t as nat)) * 10)
                        by (nonlinear_arith);
                }
                x = y;
                t = t + 1;
            },
            None => {
                proof {
                    let p1 = pow10((t + 1) as nat);
                    let pd = pow10(d as nat);
                    assert(p1 == 10 * pow10(t as nat));
                    assert(m * p1 == x * 10) by (nonlinear_arith)
                        requires
                            p1 == 10 * pow10(t as nat),
                            x == m * pow10(t as nat),
                    ;
                    lemma_pow10_mono((t + 1) as nat, d as nat);
                    lemma_pow10_pos((t + 1) as nat);
                    if m > 0 {
                        assert(m * p1 <= m * pd) by (nonlinear_arith)
                            requires
                                m > 0,
                                p1 <= pd,
                        ;
                        assert(x > 0) by (nonlinear_arith)
                            requires
                                x == m * pow10(t as nat),
                                m > 0,
                                pow10(t as nat) >= 1,
                        {
                            lemma_pow10_pos(t as nat);
                        }
                    } else {
                        assert(m * p1 >= m * pd) by (nonlinear_arith)
                            requires
                                m < 0,
                                p1 <= pd,
                        ;
                        assert(x < 0) by (nonlinear_arith)
                            requires
                                x == m * pow10(t as nat),
                                m < 0,
                                pow10(t as nat) >= 1,
                        {
                            lemma_pow10_pos(t as nat);
                        }
                    }
                }
                return None;
            },
        }
    }
    Some(x)
}

proof fn lemma_cross(am: int, bm: int, sa: nat, sb: nat)
    requires
        sa <= sb,
    ensures
        (am * pow10(sb) <= bm * pow10(sa)) == (am * pow10((sb - sa) as nat) <= bm),
{
    let d = (sb - sa) as nat;
    lemma_pow10_add(d, sa);
    assert(d + sa == sb);
    lemma_pow10_pos(sa);
    let p = pow10(sa);
    let q = pow10(d);
    assert((am * (q * p) <= bm * p) == (am * q <= bm)) by (nonlinear_arith)
        requires
            p >= 1,
    ;
}

/// Compares two amounts by value: negative, zero or positive as `a` is below,
/// equal to or above `b`.
pub fn amount_order(a: Amount, b: Amount) -> (r: i8)
    ensures
        (r <= 0) == amount_le(a, b),
        (r >= 0) == amount_le(b, a),
{
    if a.scale <= b.scale {
        let d = b.scale - a.scale;
        proof {
            lemma_cross(a.mantissa as int, b.mantissa as int, a.scale as nat, b.scale as nat);
            lemma_cross_rev(b.mantissa as int, a.mantissa as int, a.scale as nat, b.scale as nat);
        }
        match scale_up(a.mantissa, d) {
            Some(x) => {
                if x < b.mantissa {
                    -1
                } else if x == b.mantissa {
                    0
                } else {
                    1
                }
            },
            None => {
                if a.mantissa > 0 {
                    1
                } else {
                    -1
                }
            },
        }
    } else {
        let d = a.scale - b.scale;
        proof {
            lemma_cross(b.mantissa as int, a.mantissa as int, b.scale as nat, a.scale as nat);
            lemma_cross_rev(a.mantissa as int, b.mantissa as int, b.scale as nat, a.scale as nat);
        }
        match scale_up(b.mantissa, d) {
            Some(y) => {
                if a.mantissa < y {
                    -1
                } else if a.mantissa == y {
                    0
                } else {
                    1
                }
            },
            None => {
                if b.mantissa > 0 {
                    -1
                } else {
                    1
                }
            },
        }
    }
}

proof fn lemma_cross_rev(bm: int, am: int, sa: nat, sb: nat)
    requires
        sa <= sb,
    ensures
        (bm * pow10(sa) <= am * pow10(sb)) == (bm <= am * pow10((sb - sa) as nat)),
{
    let d = (sb - sa) as nat;
    lemma_pow10_add(d, sa);
    assert(d + sa == sb);
    lemma_pow10_pos(sa);
    let p = pow10(sa);
    let q = pow10(d);
    assert((bm * p <= am * (q * p)) == (bm <= am * q)) by (nonlinear_arith)
        requires
            p >= 1,
    ;
}

/// `amount_le` is transitive.
pub proof fn lemma_amount_le_trans(a: Amount, b: Amount, c: Amount)
    requires
        amount_le(a, b),
        amount_le(b, c),
    ensures
        amount_le(a, c),
{
    let pa = pow10(a.scale as nat);
    let pb = pow10(b.scale as nat);
    let pc = pow10(c.scale as nat);
    lemma_pow10_pos(a.scale as nat);
    lemma_pow10_pos(b.scale as nat);
    lemma_pow10_pos(c.scale as nat);
    let am = a.mantissa as int;
    let bm = b.mantissa as int;
    let cm = c.mantissa as int;
    assert(am * pc <= cm * pa) by (nonlinear_arith)
        requires
            am * pb <= bm * pa,
            bm * pc <= cm * pb,
            pa >= 1,
            pb >= 1,
            pc >= 1,
    {
        assert(am * pb * pc <= bm * pa * pc);
        assert(bm * pc * pa <= cm * pb * pa);
        assert(am * pc * pb <= cm * pa * pb);
    }
}

/// Lexicographic order of character sequences by code point, which is the
/// order of `String` (UTF-8 keeps the order of code points).
pub open spec fn seq_le(a: Seq<char>, b: Seq<char>) -> bool
    decreases a.len(),
{
    if a.len() == 0 {
        true
    } else if b.len() == 0 {
        false
    } else if (a[0] as u32) < (b[0] as u32) {
        true
    } else if (a[0] as u32) > (b[0] as u32) {
        false
    } else {
        seq_le(a.drop_first(), b.drop_first())
    }
}

/// `seq_le` is total.
pub proof fn lemma_seq_le_total(a: Seq<char>, b: Seq<char>)
    ensures
        seq_le(a, b) || seq_le(b, a),
    decreases a.len(),
{
    if a.len() > 0 && b.len() > 0 && a[0] as u32 == b[0] as u32 {
        lemma_seq_le_total(a.drop_first(), b.drop_first());
    }
}

/// `seq_le` is transitive.
pub proof fn lemma_seq_le_trans(a: Seq<char>, b: Seq<char>, c: Seq<char>)
    requires
        seq_le(a, b),
        seq_le(b, c),
    ensures
        seq_le(a, c),
    decreases a.len(),
{
    if a.len() > 0 && b.len() > 0 && c.len() > 0 && a[0] as u32 == b[0] as u32 && b[0] as u32
        == c[0] as u32 {
        lemma_seq_le_trans(a.drop_first(), b.drop_first(), c.drop_first());
    }
}

/// `seq_le` is antisymmetric.
pub proof fn lemma_seq_le_antisym(a: Seq<char>, b: Seq<char>)
    requires
        seq_le(a, b),
        seq_le(b, a),
    ensures
        a == b,
    decreases a.len(),
{
    if a.len() > 0 && b.len() > 0 {
        lemma_seq_le_antisym(a.drop_first(), b.drop_first());
        assert(a =~= seq![a[0]] + a.drop_first());
        assert(b =~= seq![b[0]] + b.drop_first());
        assert(a[0] as u32 == b[0] as u32);
        vstd::utf8::char_u32_cast(a[0], a[0] as u32);
        vstd::utf8::char_u32_cast(b[0], b[0] as u32);
        assert(a[0] == b[0]);
        assert(a =~= b);
    } else {
        assert(a.len() == 0 && b.len() == 0);
        assert(a =~= b);
    }
}

/// Tests `seq_le(a, b)` on two strings.
pub fn str_le(a: &str, b: &str) -> (r: bool)
    ensures
        r == seq_le(a@, b@),
{
    let x = chars_of(a);
    let y = chars_of(b);
    let mut i: usize = 0;
    proof {
        assert(x@.skip(0) =~= x@);
        assert(y@.skip(0) =~= y@);
    }
    while i < x.len() && i < y.len() && x[i] as u32 == y[i] as u32
        invariant
            i <= x.len(),
            i <= y.len(),
            x@ == a@,
            y@ == b@,
            seq_le(a@, b@) == seq_le(x@.skip(i as int), y@.skip(i as int)),
        decreases x.len() - i,
    {
        proof {
            assert(x@.skip(i as int).drop_first() =~= x@.skip(i + 1));
            assert(y@.skip(i as int).drop_first() =~= y@.skip(i + 1));
        }
        i = i + 1;
    }
    if i == x.len() {
        true
    } else if i == y.len() {
        false
    } else {
        (x[i] as u32) < (y[i] as u32)
    }
}

} // verus!
