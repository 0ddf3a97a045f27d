//! Decimal numbers in the form `str::parse::<f32>` reads: digits with an
//! optional point and an optional exponent. Their values are kept exact, as
//! a run of digits scaled by a power of ten.
use vstd::prelude::*;
use crate::text::{all_digits, digits_value, find_from, is_digit};
use crate::split::find_in;

verus! {

pub open spec fn pow10(k: nat) -> nat
    decreases k,
{
    if k == 0 {
        1
    } else {
        10 * pow10((k - 1) as nat)
    }
}

/// The digit at position `i` of `s` as a number, or 0 outside it.
pub open spec fn digit_at(s: Seq<char>, i: int) -> nat {
    if 0 <= i < s.len() {
        ((s[i] as u32) - ('0' as u32)) as nat
    } else {
        0
    }
}

pub open spec fn any_nonzero(s: Seq<char>) -> bool {
    exists|i: int| 0 <= i < s.len() && s[i] != '0'
}

/// An exponent: an optional sign and at least one digit.
pub open spec fn signed_digits(x: Seq<char>) -> Option<int> {
    let neg = x.len() > 0 && x[0] == '-';
    let d = if x.len() > 0 && (x[0] == '-' || x[0] == '+') {
        x.drop_first()
    } else {
        x
    };
    if d.len() > 0 && all_digits(d) {
        Some(if neg {
            -(digits_value(d) as int)
        } else {
            digits_value(d) as int
        })
    } else {
        None
    }
}

/// A number in the form `str::parse::<f32>` reads, without its sign:
/// digits with at most one point (at least one digit in all), then
/// optionally `e`, an optional sign and digits. Given as the mantissa's
/// digits, without the point, and the power of ten that scales them.
pub open spec fn number_parts(s: Seq<char>) -> Option<(Seq<char>, int)> {
    let (mant, exp) = match find_from(s, 'e', 0) {
        Some(k) => (s.subrange(0, k), Some(s.subrange(k + 1, s.len() as int))),
        None => (s, None),
    };
    let (ip, fp) = match find_from(mant, '.', 0) {
        Some(k) => (mant.subrange(0, k), mant.subrange(k + 1, mant.len() as int)),
        None => (mant, Seq::empty()),
    };
    let e = match exp {
        Some(x) => signed_digits(x),
        None => Some(0int),
    };
    if all_digits(ip) && all_digits(fp) && ip.len() + fp.len() > 0 && e is Some {
        Some((ip + fp, e->0 - fp.len()))
    } else {
        None
    }
}

/// The whole part of `digits_value(d) · 10^x`.
pub open spec fn whole_scaled(d: Seq<char>, x: int) -> nat {
    if x >= 0 {
        digits_value(d) * pow10(x as nat)
    } else if d.len() + x >= 0 {
        digits_value(d.take(d.len() + x))
    } else {
        0
    }
}

/// `digits_value(d) · 10^x · 100`, rounded half up.
pub open spec fn percent_scaled(d: Seq<char>, x: int) -> nat {
    whole_scaled(d, x + 2) + if x + 2 < 0 && digit_at(d, d.len() + x + 2) >= 5 {
        1nat
    } else {
        0nat
    }
}

/// 2^128 − 2^103: from here up, `f32` parsing gives infinity.
pub open spec fn f32_limit() -> nat {
    340282356779733661637539395458142568448
}

/// `digits_value(d) · 10^x` is at least `f32_limit()`.
pub open spec fn f32_infinite(d: Seq<char>, x: int) -> bool {
    if x >= 0 {
        digits_value(d) * pow10(x as nat) >= f32_limit()
    } else {
        digits_value(d) >= f32_limit() * pow10((-x) as nat)
    }
}

/// The digits of 5^150.
pub open spec fn five_150() -> Seq<char> {
    seq![
        '7', '0', '0', '6', '4', '9', '2', '3', '2', '1', '6', '2', '4', '0', '8', '5', '3', '5', '4', '6',
        '1', '8', '6', '4', '7', '9', '1', '6', '4', '4', '9', '5', '8', '0', '6', '5', '6', '4', '0', '1',
        '3', '0', '9', '7', '0', '9', '3', '8', '2', '5', '7', '8', '8', '5', '8', '7', '8', '5', '3', '4',
        '1', '4', '1', '9', '4', '4', '8', '9', '5', '5', '4', '1', '3', '4', '2', '9', '3', '0', '3', '0',
        '0', '7', '4', '3', '3', '1', '9', '0', '9', '4', '1', '8', '1', '0', '6', '0', '7', '9', '1', '0',
        '1', '5', '6', '2', '5',
    ]
}

/// `digits_value(d) · 10^x` is at most 2^−150 (as `d · 10^150 ≤ 5^150 ·
/// 10^−x`): `f32` parsing gives zero.
pub open spec fn f32_zero(d: Seq<char>, x: int) -> bool {
    x < 0 && digits_value(d) * pow10(150) <= digits_value(five_150()) * pow10((-x) as nat)
}

proof fn lemma_five_150()
    ensures
        all_digits(five_150()),
        five_150().len() == 105,
        five_150()[0] == '7',
{
    let f = five_150();
    assert forall|i: int| 0 <= i < f.len() implies is_digit(#[trigger] f[i]) by {}
}

pub proof fn lemma_pow10_add(a: nat, b: nat)
    ensures
        pow10(a + b) == pow10(a) * pow10(b),
        pow10(a) >= 1,
    decreases a,
{
    if a > 0 {
        lemma_pow10_add((a - 1) as nat, b);
        assert(pow10(a + b) == 10 * pow10((a + b - 1) as nat));
        assert(((a - 1) as nat + b) == (a + b - 1) as nat);
        assert(pow10(a) == 10 * pow10((a - 1) as nat));
        assert(10 * (pow10((a - 1) as nat) * pow10(b)) == (10 * pow10((a - 1) as nat)) * pow10(b)) by (nonlinear_arith);
    } else {
        assert(pow10(0) == 1);
        assert(1 * pow10(b) == pow10(b));
    }
}

pub proof fn lemma_pow10_mono(a: nat, b: nat)
    requires
        a <= b,
    ensures
        pow10(a) <= pow10(b),
{
    lemma_pow10_add(a, (b - a) as nat);
    lemma_pow10_add((b - a) as nat, 0);
    assert(pow10(a) * pow10((b - a) as nat) >= pow10(a)) by (nonlinear_arith)
        requires
            pow10((b - a) as nat) >= 1,
    ;
}

/// A run of digits is its first `k` digits shifted, plus the rest, which is
/// below the shift.
pub proof fn lemma_split_value(d: Seq<char>, k: int)
    requires
        all_digits(d),
        0 <= k <= d.len(),
    ensures
        digits_value(d) == digits_value(d.take(k)) * pow10((d.len() - k) as nat) + digits_value(d.skip(k)),
        digits_value(d.skip(k)) < pow10((d.len() - k) as nat),
    decreases d.len(),
{
    if k == d.len() {
        assert(d.take(k) =~= d);
        assert(d.skip(k) =~= Seq::<char>::empty());
        assert(pow10(0) == 1);
        assert(digits_value(d) * 1 == digits_value(d));
    } else {
        let e = d.drop_last();
        assert forall|i: int| 0 <= i < e.len() implies is_digit(#[trigger] e[i]) by {
            assert(e[i] == d[i]);
        }
        lemma_split_value(e, k);
        assert(e.take(k) =~= d.take(k));
        assert(d.skip(k).drop_last() =~= e.skip(k));
        assert(d.skip(k).last() == d.last());
        assert(is_digit(d[d.len() - 1]));
        let c = ((d.last() as u32) - ('0' as u32)) as nat;
        assert(c <= 9);
        let p = pow10((e.len() - k) as nat);
        assert((d.len() - k) as nat == ((e.len() - k) as nat + 1) as nat);
        assert(pow10((d.len() - k) as nat) == 10 * pow10(((d.len() - k) as nat - 1) as nat));
        assert(pow10((d.len() - k) as nat) == 10 * p);
        let a = digits_value(d.take(k));
        let r = digits_value(e.skip(k));
        assert(digits_value(d.skip(k)) == r * 10 + c);
        assert(digits_value(d) == digits_value(e) * 10 + c);
        assert(digits_value(e) == a * p + r);
        assert((a * p + r) * 10 + c == a * (10 * p) + (r * 10 + c)) by (nonlinear_arith);
        assert(r * 10 + c < 10 * p) by (nonlinear_arith)
            requires
                r < p,
                c <= 9,
        ;
    }
}

/// A run of `n` digits is below 10^n.
pub proof fn lemma_value_bound(d: Seq<char>)
    requires
        all_digits(d),
    ensures
        digits_value(d) < pow10(d.len()),
{
    lemma_split_value(d, 0);
    assert(d.skip(0) =~= d);
}

/// `whole_scaled` is the whole part: `d · 10^x` lies in `[w, w + 1)`.
pub proof fn lemma_whole_scaled(d: Seq<char>, x: int)
    requires
        all_digits(d),
        x < 0,
    ensures
        whole_scaled(d, x) * pow10((-x) as nat) <= digits_value(d),
        digits_value(d) < (whole_scaled(d, x) + 1) * pow10((-x) as nat),
{
    let t = (-x) as nat;
    if d.len() + x >= 0 {
        let k = d.len() + x;
        lemma_split_value(d, k);
        let w = digits_value(d.take(k));
        let r = digits_value(d.skip(k));
        assert((d.len() - k) as nat == t);
        assert(whole_scaled(d, x) == w);
        assert(w * pow10(t) + r < (w + 1) * pow10(t)) by (nonlinear_arith)
            requires
                r < pow10(t),
        ;
        assert(w * pow10(t) <= w * pow10(t) + r);
    } else {
        lemma_value_bound(d);
        lemma_pow10_mono(d.len(), t);
        assert(whole_scaled(d, x) == 0);
        assert(1 * pow10(t) == pow10(t));
        assert(0 * pow10(t) == 0);
    }
}

/// `min(v, u128::MAX)`.
pub open spec fn sat(v: nat) -> u128 {
    if v > u128::MAX {
        u128::MAX
    } else {
        v as u128
    }
}

/// `min(digits_value(v[a..b]), u128::MAX)`, for a run of digits.
pub fn sat_digits(v: &Vec<char>, a: usize, b: usize) -> (r: u128)
    requires
        a <= b <= v.len(),
        all_digits(v@.subrange(a as int, b as int)),
    ensures
        r == sat(digits_value(v@.subrange(a as int, b as int))),
{
    let mut value: u128 = 0;
    let mut i = a;
    while i < b
        invariant
            a <= i <= b <= v.len(),
            all_digits(v@.subrange(a as int, b as int)),
            value == sat(digits_value(v@.subrange(a as int, i as int))),
        decreases b - i,
    {
        let c = v[i];
        proof {
            assert(v@.subrange(a as int, i + 1).drop_last() =~= v@.subrange(a as int, i as int));
            assert(c == v@.subrange(a as int, b as int)[i - a]);
        }
        let digit: u128 = ((c as u32) - ('0' as u32)) as u128;
        let ghost dv = digits_value(v@.subrange(a as int, i as int));
        proof {
            assert(digits_value(v@.subrange(a as int, i + 1)) == dv * 10 + digit);
        }
        if value == u128::MAX {
            proof {
                assert(dv * 10 + digit >= dv) by (nonlinear_arith)
                    requires
                        digit >= 0,
                ;
            }
        } else {
            value = match value.checked_mul(10) {
                Some(m) => match m.checked_add(digit) {
                    Some(s) => s,
                    None => u128::MAX,
                },
                None => u128::MAX,
            };
        }
        i = i + 1;
    }
    value
}

/// `min(whole_scaled(d, x), u128::MAX)`.
pub fn sat_whole(d: &Vec<char>, x: i128) -> (r: u128)
    requires
        all_digits(d@),
        x > i128::MIN,
    ensures
        r == sat(whole_scaled(d@, x as int)),
{
    let n = d.len();
    proof {
        assert(d@.subrange(0, n as int) =~= d@);
    }
    if x >= 0 {
        let mut w = sat_digits(d, 0, n);
        let ghost dv = digits_value(d@);
        assert(pow10(0) == 1);
        assert(dv * pow10(0) == dv);
        let mut i: i128 = 0;
        while i < x && w > 0 && w < u128::MAX
            invariant
                0 <= i <= x,
                dv == digits_value(d@),
                w == sat(dv * pow10(i as nat)),
            decreases x - i,
        {
            proof {
                assert(pow10((i + 1) as nat) == 10 * pow10(i as nat));
                assert(dv * pow10((i + 1) as nat) == (dv * pow10(i as nat)) * 10) by (nonlinear_arith)
                    requires
                        pow10((i + 1) as nat) == 10 * pow10(i as nat),
                ;
            }
            w = match w.checked_mul(10) {
                Some(m) => m,
                None => u128::MAX,
            };
            i = i + 1;
        }
        proof {
            lemma_pow10_add(i as nat, (x - i) as nat);
            let p = pow10((x - i) as nat);
            lemma_pow10_add((x - i) as nat, 0);
            if w == 0 {
                assert(dv * pow10(i as nat) == 0);
                assert(dv == 0) by (nonlinear_arith)
                    requires
                        dv * pow10(i as nat) == 0,
                        pow10(i as nat) >= 1,
                ;
                assert(dv * pow10(x as nat) == 0) by (nonlinear_arith)
                    requires
                        dv == 0,
                ;
            } else if w == u128::MAX {
                assert(dv * pow10(x as nat) == (dv * pow10(i as nat)) * p) by (nonlinear_arith)
                    requires
                        pow10(x as nat) == pow10(i as nat) * p,
                ;
                assert((dv * pow10(i as nat)) * p >= dv * pow10(i as nat)) by (nonlinear_arith)
                    requires
                        p >= 1,
                ;
            }
        }
        w
    } else {
        let t: i128 = -x;
        if t as u128 <= n as u128 {
            let k = n - t as usize;
            proof {
                assert(d@.take(n + x) =~= d@.subrange(0, k as int));
                assert forall|j: int| 0 <= j < k implies is_digit(#[trigger] d@.subrange(0, k as int)[j]) by {
                    assert(d@.subrange(0, k as int)[j] == d@[j]);
                }
            }
            sat_digits(d, 0, k)
        } else {
            0
        }
    }
}

/// Whether `digits_value(d) · 10^x` reaches the `f32` limit.
pub fn is_f32_infinite(d: &Vec<char>, x: i128) -> (r: bool)
    requires
        all_digits(d@),
        x > i128::MIN,
    ensures
        r == f32_infinite(d@, x as int),
{
    let w = sat_whole(d, x);
    proof {
        let lim = f32_limit();
        let dv = digits_value(d@);
        if x < 0 {
            let t = (-x) as nat;
            lemma_whole_scaled(d@, x as int);
            let ws = whole_scaled(d@, x as int);
            let p = pow10(t);
            if ws >= lim {
                assert(ws * p >= lim * p) by (nonlinear_arith)
                    requires
                        ws >= lim,
                ;
            } else {
                assert((ws + 1) * p <= lim * p) by (nonlinear_arith)
                    requires
                        ws + 1 <= lim,
                ;
            }
        }
    }
    w >= 340282356779733661637539395458142568448u128
}

/// `s` followed by zeros up to length `m`.
pub open spec fn padded(s: Seq<char>, m: int) -> Seq<char> {
    Seq::new(m as nat, |j: int| if j < s.len() { s[j] } else { '0' })
}

proof fn lemma_zeros_value(s: Seq<char>)
    requires
        forall|k: int| 0 <= k < s.len() ==> s[k] == '0',
    ensures
        digits_value(s) == 0,
    decreases s.len(),
{
    if s.len() > 0 {
        let e = s.drop_last();
        assert forall|k: int| 0 <= k < e.len() implies e[k] == '0' by {
            assert(e[k] == s[k]);
        }
        lemma_zeros_value(e);
        assert(s.last() == s[s.len() - 1]);
    }
}

/// Padding with zeros multiplies by a power of ten.
proof fn lemma_padded(s: Seq<char>, m: int)
    requires
        all_digits(s),
        s.len() <= m,
    ensures
        all_digits(padded(s, m)),
        padded(s, m).len() == m,
        digits_value(padded(s, m)) == digits_value(s) * pow10((m - s.len()) as nat),
{
    let a = padded(s, m);
    assert forall|j: int| 0 <= j < a.len() implies is_digit(#[trigger] a[j]) by {}
    lemma_split_value(a, s.len() as int);
    assert(a.take(s.len() as int) =~= s);
    let rest = a.skip(s.len() as int);
    assert forall|k: int| 0 <= k < rest.len() implies rest[k] == '0' by {
        assert(rest[k] == a[s.len() + k]);
    }
    lemma_zeros_value(rest);
}

/// A run with a nonzero first digit is at least 10^(len − 1); its first
/// digit `f` makes it at least `f · 10^(len − 1)` and below `(f + 1) ·
/// 10^(len − 1)`.
proof fn lemma_lead(s: Seq<char>)
    requires
        all_digits(s),
        s.len() >= 1,
    ensures
        digits_value(s) >= digit_at(s, 0) * pow10((s.len() - 1) as nat),
        digits_value(s) < (digit_at(s, 0) + 1) * pow10((s.len() - 1) as nat),
{
    lemma_split_value(s, 1);
    let h = s.take(1);
    assert(h.drop_last() =~= Seq::<char>::empty());
    assert(h.last() == s[0]);
    assert(digits_value(h.drop_last()) == 0);
    assert(digits_value(h) == digit_at(s, 0));
    let p = pow10((s.len() - 1) as nat);
    let r = digits_value(s.skip(1));
    assert(digit_at(s, 0) * p + r < (digit_at(s, 0) + 1) * p) by (nonlinear_arith)
        requires
            r < p,
    ;
}

/// Of two runs of equal length that agree before position `j`, the one
/// with the smaller digit at `j` is the smaller number.
proof fn lemma_lex_less(a: Seq<char>, b: Seq<char>, j: int)
    requires
        all_digits(a),
        all_digits(b),
        a.len() == b.len(),
        0 <= j < a.len(),
        a.take(j) == b.take(j),
        a[j] < b[j],
    ensures
        digits_value(a) < digits_value(b),
{
    lemma_split_value(a, j + 1);
    lemma_split_value(b, j + 1);
    assert(a.take(j + 1).drop_last() =~= a.take(j));
    assert(b.take(j + 1).drop_last() =~= b.take(j));
    assert(a.take(j + 1).last() == a[j]);
    assert(b.take(j + 1).last() == b[j]);
    let ha = digits_value(a.take(j + 1));
    let hb = digits_value(b.take(j + 1));
    assert(ha + 1 <= hb);
    let p = pow10((a.len() - j - 1) as nat);
    let ra = digits_value(a.skip(j + 1));
    let rb = digits_value(b.skip(j + 1));
    assert(ha * p + ra < hb * p + rb) by (nonlinear_arith)
        requires
            ha + 1 <= hb,
            ra < p,
            rb >= 0,
    ;
}

/// Whether `digits_value(d) · 10^x` is at most 2^−150.
pub fn is_f32_zero(d: &Vec<char>, x: i128) -> (r: bool)
    requires
        all_digits(d@),
        x > i128::MIN,
    ensures
        r == f32_zero(d@, x as int),
{
    if x >= 0 {
        return false;
    }
    let n = d.len();
    let mut z: usize = 0;
    while z < n && d[z] == '0'
        invariant
            z <= n == d.len(),
            forall|k: int| 0 <= k < z ==> d@[k] == '0',
        decreases n - z,
    {
        z = z + 1;
    }
    let ghost dv = digits_value(d@);
    let ghost f = digits_value(five_150());
    let ghost t = (-x) as nat;
    proof {
        lemma_five_150();
        lemma_split_value(d@, z as int);
        let pre = d@.take(z as int);
        assert forall|k: int| 0 <= k < pre.len() implies pre[k] == '0' by {}
        lemma_zeros_value(pre);
        assert(dv == digits_value(d@.skip(z as int))) by (nonlinear_arith)
            requires
                dv == digits_value(pre) * pow10((n - z) as nat) + digits_value(d@.skip(z as int)),
                digits_value(pre) == 0,
        ;
        lemma_lead(five_150());
        assert(digit_at(five_150(), 0) == 7);
    }
    if z == n {
        proof {
            assert(d@.skip(z as int) =~= Seq::<char>::empty());
            assert(dv * pow10(150) == 0) by (nonlinear_arith)
                requires
                    dv == 0,
            ;
        }
        return true;
    }
    let l = n - z;
    let ghost s = d@.skip(z as int);
    proof {
        assert forall|k: int| 0 <= k < s.len() implies is_digit(#[trigger] s[k]) by {
            assert(s[k] == d@[z + k]);
        }
        lemma_lead(s);
        assert(s[0] == d@[z as int]);
        assert(digit_at(s, 0) >= 1);
        lemma_value_bound(s);
        assert(s.len() == l);
        assert(dv >= pow10((l - 1) as nat)) by (nonlinear_arith)
            requires
                dv >= digit_at(s, 0) * pow10((l - 1) as nat),
                digit_at(s, 0) >= 1,
        ;
        lemma_pow10_add(150, 0);
    }
    let tt: i128 = -x;
    if tt >= l as i128 + 46 {
        proof {
            let p104 = pow10(104);
            let pl = pow10(l as nat);
            let pt = pow10(t);
            lemma_pow10_add(l as nat, 150);
            lemma_pow10_add(l as nat + 46, 104);
            lemma_pow10_mono(l as nat + 46, t);
            lemma_pow10_add(t, 104);
            assert(pow10(l as nat + 150) == pow10(l as nat + 46) * p104);
            assert(dv * pow10(150) < pl * pow10(150)) by (nonlinear_arith)
                requires
                    dv < pl,
                    pow10(150) >= 1,
            ;
            assert(pow10(l as nat + 46) * p104 <= pt * p104) by (nonlinear_arith)
                requires
                    pow10(l as nat + 46) <= pt,
            ;
            assert(pt * p104 <= f * pt) by (nonlinear_arith)
                requires
                    f >= 7 * p104,
                    pt >= 0,
            ;
        }
        return true;
    }
    if tt <= l as i128 + 44 {
        proof {
            let p104 = pow10(104);
            let pt = pow10(t);
            lemma_pow10_add((l - 1) as nat, 150);
            lemma_pow10_add(t, 104);
            lemma_pow10_mono(t + 104, (l as nat + 148) as nat);
            lemma_pow10_add((l + 148) as nat, 1);
            assert(pow10(1) == 10) by {
                assert(pow10(0) == 1);
            }
            assert(((l - 1) as nat + 150) as nat == (l as nat + 149) as nat);
            assert(dv * pow10(150) >= pow10((l - 1) as nat) * pow10(150)) by (nonlinear_arith)
                requires
                    dv >= pow10((l - 1) as nat),
            ;
            assert(f * pt < 8 * (p104 * pt)) by (nonlinear_arith)
                requires
                    f < 8 * p104,
                    pt >= 1,
            ;
            assert(8 * pow10((l as nat + 148) as nat) < pow10((l as nat + 148) as nat) * 10) by (nonlinear_arith)
                requires
                    pow10((l as nat + 148) as nat) >= 1,
            ;
        }
        return false;
    }
    let c: Vec<char> = vec![
        '7', '0', '0', '6', '4', '9', '2', '3', '2', '1', '6', '2', '4', '0', '8', '5', '3', '5', '4', '6',
        '1', '8', '6', '4', '7', '9', '1', '6', '4', '4', '9', '5', '8', '0', '6', '5', '6', '4', '0', '1',
        '3', '0', '9', '7', '0', '9', '3', '8', '2', '5', '7', '8', '8', '5', '8', '7', '8', '5', '3', '4',
        '1', '4', '1', '9', '4', '4', '8', '9', '5', '5', '4', '1', '3', '4', '2', '9', '3', '0', '3', '0',
        '0', '7', '4', '3', '3', '1', '9', '0', '9', '4', '1', '8', '1', '0', '6', '0', '7', '9', '1', '0',
        '1', '5', '6', '2', '5',
    ];
    assert(c@ =~= five_150());
    let m: usize = if l > 105 {
        l
    } else {
        105
    };
    let ghost a = padded(s, m as int);
    let ghost b = padded(five_150(), m as int);
    proof {
        lemma_padded(s, m as int);
        lemma_padded(five_150(), m as int);
        let q = (105 + l - m) as nat;
        lemma_pow10_add((m - l) as nat, q);
        lemma_pow10_add((m - 105) as nat, q);
        lemma_pow10_add(105, 45);
        lemma_pow10_add(l as nat, 45);
        lemma_pow10_add(q, 0);
        lemma_pow10_add(45, 0);
        assert(t == l + 45);
        assert(((m - l) as nat + q) as nat == 105);
        assert(((m - 105) as nat + q) as nat == l as nat);
        let aa = digits_value(a);
        let bb = digits_value(b);
        let pa = pow10((m - l) as nat);
        let pb = pow10((m - 105) as nat);
        let pq = pow10(q);
        let p45 = pow10(45);
        assert(aa == dv * pa);
        assert(bb == f * pb);
        assert(pa * pq == pow10(105));
        assert(pb * pq == pow10(l as nat));
        assert(pow10(150) == pow10(105) * p45);
        assert(pow10(t) == pow10(l as nat) * p45);
        assert((aa <= bb) == (dv * (pa * pq) * p45 <= f * (pb * pq) * p45)) by (nonlinear_arith)
            requires
                aa == dv * pa,
                bb == f * pb,
                pq >= 1,
                p45 >= 1,
        ;
        assert(dv * (pa * pq) * p45 == dv * pow10(150)) by (nonlinear_arith)
            requires
                pa * pq == pow10(105),
                pow10(150) == pow10(105) * p45,
        ;
        assert(f * (pb * pq) * p45 == f * pow10(t)) by (nonlinear_arith)
            requires
                pb * pq == pow10(l as nat),
                pow10(t) == pow10(l as nat) * p45,
        ;
        assert(f32_zero(d@, x as int) == (aa <= bb));
    }
    let mut j: usize = 0;
    while j < m
        invariant
            z + l == n == d.len(),
            s == d@.skip(z as int),
            c@ == five_150(),
            a == padded(s, m as int),
            b == padded(five_150(), m as int),
            m >= l,
            m >= 105,
            j <= m,
            a.take(j as int) == b.take(j as int),
            all_digits(a),
            all_digits(b),
            a.len() == m,
            b.len() == m,
            f32_zero(d@, x as int) == (digits_value(a) <= digits_value(b)),
        decreases m - j,
    {
        let ch_a = if j < l {
            d[z + j]
        } else {
            '0'
        };
        let ch_b = if j < 105 {
            c[j]
        } else {
            '0'
        };
        proof {
            if j < l {
                assert(s[j as int] == d@[z + j]);
            }
            assert(a[j as int] == ch_a);
            assert(b[j as int] == ch_b);
        }
        if ch_a < ch_b {
            proof {
                lemma_lex_less(a, b, j as int);
            }
            return true;
        }
        if ch_a > ch_b {
            proof {
                lemma_lex_less(b, a, j as int);
            }
            return false;
        }
        proof {
            assert(a.take(j + 1) =~= a.take(j as int).push(a[j as int]));
            assert(b.take(j + 1) =~= b.take(j as int).push(b[j as int]));
        }
        j = j + 1;
    }
    proof {
        assert(a =~= a.take(m as int));
        assert(b =~= b.take(m as int));
    }
    true
}

/// Whether `v[a..b]` is all digits.
pub fn digits_only(v: &Vec<char>, a: usize, b: usize) -> (r: bool)
    requires
        a <= b <= v.len(),
    ensures
        r == all_digits(v@.subrange(a as int, b as int)),
{
    let mut i = a;
    while i < b
        invariant
            a <= i <= b <= v.len(),
            forall|j: int| a <= j < i ==> is_digit(v@[j]),
        decreases b - i,
    {
        if !('0' <= v[i] && v[i] <= '9') {
            assert(!is_digit(v@.subrange(a as int, b as int)[i - a]));
            return false;
        }
        i = i + 1;
    }
    assert forall|j: int| 0 <= j < b - a implies is_digit(#[trigger] v@.subrange(a as int, b as int)[j]) by {
        assert(v@.subrange(a as int, b as int)[j] == v@[a + j]);
    }
    true
}

/// Whether `v` holds a character other than `0`.
pub fn has_nonzero(v: &Vec<char>) -> (r: bool)
    ensures
        r == any_nonzero(v@),
{
    let mut i: usize = 0;
    while i < v.len()
        invariant
            i <= v.len(),
            forall|j: int| 0 <= j < i ==> v@[j] == '0',
        decreases v.len() - i,
    {
        if v[i] != '0' {
            return true;
        }
        i = i + 1;
    }
    false
}

/// The percentage of a number that `str::parse::<f32>` reads as positive,
/// finite and not zero: an optional `+`, then a number (see
/// `number_parts`) whose value is above 2^−150 and below the `f32` limit;
/// the value times 100, rounded half up, at most `usize::MAX`.
pub open spec fn number_percent_of(s: Seq<char>) -> Option<usize> {
    let u = if s.len() > 0 && s[0] == '+' {
        s.drop_first()
    } else {
        s
    };
    match number_parts(u) {
        Some((d, x)) => percent_result(d, x),
        None => None,
    }
}

/// The percentage of `digits_value(d) · 10^x` when it is positive and an
/// `f32` holds it as neither zero nor infinity.
pub open spec fn percent_result(d: Seq<char>, x: int) -> Option<usize> {
    if any_nonzero(d) && !f32_zero(d, x) && !f32_infinite(d, x) {
        Some(if percent_scaled(d, x) <= usize::MAX {
            percent_scaled(d, x) as usize
        } else {
            usize::MAX
        })
    } else {
        None
    }
}

proof fn lemma_nonzero_value(d: Seq<char>)
    requires
        all_digits(d),
        any_nonzero(d),
    ensures
        digits_value(d) >= 1,
{
    let i = choose|i: int| 0 <= i < d.len() && d[i] != '0';
    lemma_split_value(d, i + 1);
    assert(d.take(i + 1).drop_last() =~= d.take(i));
    assert(d.take(i + 1).last() == d[i]);
    assert(is_digit(d[i]));
    lemma_pow10_add((d.len() - i - 1) as nat, 0);
    assert(digits_value(d.take(i + 1)) >= 1);
    assert(digits_value(d.take(i + 1)) * pow10((d.len() - i - 1) as nat) >= 1) by (nonlinear_arith)
        requires
            digits_value(d.take(i + 1)) >= 1,
            pow10((d.len() - i - 1) as nat) >= 1,
    ;
}

proof fn lemma_pow10_39()
    ensures
        pow10(39) > f32_limit(),
{
    reveal_with_fuel(pow10, 40);
}

/// A nonzero number scaled up by 10^39 or more is past the `f32` limit;
/// one scaled down by 10^(len + 150) or more is below 2^−150.
proof fn lemma_far(d: Seq<char>, x: int)
    requires
        all_digits(d),
        any_nonzero(d),
    ensures
        x >= 39 ==> f32_infinite(d, x),
        x <= -(d.len() + 150) ==> f32_zero(d, x),
{
    lemma_nonzero_value(d);
    let dv = digits_value(d);
    if x >= 39 {
        lemma_pow10_39();
        lemma_pow10_mono(39, x as nat);
        assert(dv * pow10(x as nat) >= pow10(x as nat)) by (nonlinear_arith)
            requires
                dv >= 1,
        ;
    }
    if x <= -(d.len() + 150) {
        let t = (-x) as nat;
        lemma_value_bound(d);
        lemma_pow10_add(d.len(), 150);
        lemma_pow10_mono(d.len() + 150, t);
        lemma_five_150();
        lemma_lead(five_150());
        lemma_pow10_add(104, 0);
        let f = digits_value(five_150());
        assert(digit_at(five_150(), 0) == 7);
        assert(f >= 1) by (nonlinear_arith)
            requires
                f >= 7 * pow10(104),
                pow10(104) >= 1,
        ;
        assert(dv * pow10(150) <= pow10(d.len()) * pow10(150)) by (nonlinear_arith)
            requires
                dv < pow10(d.len()),
        ;
        assert(pow10(t) <= f * pow10(t)) by (nonlinear_arith)
            requires
                f >= 1,
        ;
    }
}

/// The exact percentage (see `percent_result`), for an exponent within
/// 2^100 or so.
fn percent_exact(d: &Vec<char>, x: i128) -> (r: Option<usize>)
    requires
        all_digits(d@),
        -0x100_0000_0000_0000_0000_0000_0000 <= x <= 0x100_0000_0000_0000_0000_0000_0000,
    ensures
        r == percent_result(d@, x as int),
{
    if !has_nonzero(d) {
        return None;
    }
    if is_f32_zero(d, x) {
        return None;
    }
    if is_f32_infinite(d, x) {
        return None;
    }
    let whole = sat_whole(d, x + 2);
    let n = d.len();
    let idx: i128 = n as i128 + x + 2;
    let up: u128 = if x + 2 < 0 && idx >= 0 && d[idx as usize] >= '5' {
        1
    } else {
        0
    };
    proof {
        if x + 2 < 0 && 0 <= idx {
            assert(idx < n);
            assert(is_digit(d@[idx as int]));
        }
        assert(up == (if x + 2 < 0 && digit_at(d@, n + x + 2) >= 5 {
            1nat
        } else {
            0nat
        }));
    }
    let total: u128 = match whole.checked_add(up) {
        Some(t) => t,
        None => u128::MAX,
    };
    if total > usize::MAX as u128 {
        Some(usize::MAX)
    } else {
        Some(total as usize)
    }
}

/// The percentage of `digits_value(d) · 10^(±e − f)`, where `mag` holds
/// the exponent's size `e` up to `u128::MAX`.
fn percent_scaled_by(d: &Vec<char>, neg: bool, mag: u128, f: usize) -> (r: Option<usize>)
    requires
        all_digits(d@),
    ensures
        forall|e: nat|
            mag == sat(e) ==> r == percent_result(
                d@,
                (if neg {
                    -(e as int)
                } else {
                    e as int
                }) - f,
            ),
{
    let cap: u128 = 0x10_0000_0000_0000_0000_0000_0000;
    if mag > cap {
        if !has_nonzero(d) {
            return None;
        }
        let n = d.len();
        proof {
            assert forall|e: nat| mag == sat(e) implies None::<usize> == percent_result(
                d@,
                (if neg {
                    -(e as int)
                } else {
                    e as int
                }) - f,
            ) by {
                let xr = (if neg {
                    -(e as int)
                } else {
                    e as int
                }) - f;
                assert(e > cap);
                assert(d@.len() == n);
                assert(f <= usize::MAX);
                if neg {
                    assert(xr <= -(d@.len() + 150));
                } else {
                    assert(xr >= 39);
                }
                lemma_far(d@, xr);
            }
        }
        return None;
    }
    let em = mag as i128;
    let e: i128 = if neg {
        -em
    } else {
        em
    };
    percent_exact(d, e - f as i128)
}

/// The percentage of the number in `v` (see `number_percent_of`).
#[verifier::rlimit(100)]
pub fn number_percent(v: &Vec<char>) -> (r: Option<usize>)
    ensures
        r == number_percent_of(v@),
{
    let len = v.len();
    let a: usize = if len > 0 && v[0] == '+' {
        1
    } else {
        0
    };
    let ghost u = v@.subrange(a as int, len as int);
    proof {
        if len > 0 && v@[0] == '+' {
            assert(u =~= v@.drop_first());
        } else {
            assert(u =~= v@);
        }
    }
    let (me, has_exp) = match find_in(v, a, len, 'e') {
        Some(k) => (k, true),
        None => (len, false),
    };
    let ghost mant = v@.subrange(a as int, me as int);
    proof {
        if has_exp {
            assert(u.subrange(0, me - a) =~= mant);
            assert(u.subrange(me - a + 1, u.len() as int) =~= v@.subrange(me + 1, len as int));
        } else {
            assert(mant =~= u);
        }
    }
    let (ie, fs) = match find_in(v, a, me, '.') {
        Some(k) => (k, k + 1),
        None => (me, me),
    };
    let ghost ip = v@.subrange(a as int, ie as int);
    let ghost fp = v@.subrange(fs as int, me as int);
    proof {
        if ie < me {
            assert(mant.subrange(0, ie - a) =~= ip);
            assert(mant.subrange(ie - a + 1, mant.len() as int) =~= fp);
        } else {
            assert(fp =~= Seq::<char>::empty());
            assert(ip =~= mant);
        }
    }
    if !digits_only(v, a, ie) || !digits_only(v, fs, me) || (ie - a) + (me - fs) == 0 {
        return None;
    }
    let mut neg = false;
    let mut mag: u128 = 0;
    let ghost er: nat = 0;
    if has_exp {
        let es = me + 1;
        let ghost xs = v@.subrange(es as int, len as int);
        let mut ds = es;
        if es < len && (v[es] == '-' || v[es] == '+') {
            neg = v[es] == '-';
            ds = es + 1;
        }
        proof {
            if es < len && (v@[es as int] == '-' || v@[es as int] == '+') {
                assert(xs.drop_first() =~= v@.subrange(ds as int, len as int));
            } else {
                assert(xs =~= v@.subrange(ds as int, len as int));
            }
        }
        if ds >= len || !digits_only(v, ds, len) {
            return None;
        }
        mag = sat_digits(v, ds, len);
        proof {
            er = digits_value(v@.subrange(ds as int, len as int));
        }
    }
    let ghost ex: int = if neg {
        -(er as int)
    } else {
        er as int
    };
    let mut d = sub_vec_chars(v, a, ie);
    let mut k = fs;
    while k < me
        invariant
            a <= ie <= fs <= k <= me <= len == v.len(),
            d@ == ip + v@.subrange(fs as int, k as int),
        decreases me - k,
    {
        d.push(v[k]);
        proof {
            assert(v@.subrange(fs as int, k + 1) =~= v@.subrange(fs as int, k as int).push(v@[k as int]));
        }
        k = k + 1;
    }
    proof {
        assert(d@ == ip + fp);
        assert(number_parts(u) == Some((ip + fp, ex - (me - fs))));
        assert forall|j: int| 0 <= j < d@.len() implies is_digit(#[trigger] d@[j]) by {
            if j < ip.len() {
                assert(d@[j] == ip[j]);
            } else {
                assert(d@[j] == fp[j - ip.len()]);
            }
        }
        assert(mag == sat(er));
    }
    percent_scaled_by(&d, neg, mag, me - fs)
}

/// A copy of the characters `v[start..end]`.
fn sub_vec_chars(v: &Vec<char>, start: usize, end: usize) -> (r: Vec<char>)
    requires
        start <= end <= v.len(),
    ensures
        r@ == v@.subrange(start as int, end as int),
{
    crate::text::sub_vec(v, start, end)
}

} // verus!
