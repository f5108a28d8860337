use crate::error::ValidationError;
use crate::units::MILLI_MAX;
use vstd::arithmetic::div_mod::{
    lemma_div_basics, lemma_div_denominator, lemma_fundamental_div_mod_converse,
};
use vstd::prelude::*;

verus! {

// A length argument is decimal-number syntax: an optional sign, digits with
// an optional decimal point, and an optional exponent. Its value is
// resolved to a whole count of thousandths of the chosen unit (rounding
// toward zero), which is the precision the geometry works at.

pub open spec fn is_digit(c: char) -> bool {
    48 <= c as u32 <= 57
}

/// The numeric value of a decimal digit.
pub open spec fn digit_val(c: char) -> nat {
    if is_digit(c) {
        (c as u32 - 48) as nat
    } else {
        0
    }
}

pub open spec fn all_digits(s: Seq<char>) -> bool {
    forall|i: int| 0 <= i < s.len() ==> is_digit(#[trigger] s[i])
}

/// The value of a digit string, most significant digit first.
pub open spec fn digits_val(s: Seq<char>) -> nat
    decreases s.len(),
{
    if s.len() == 0 {
        0
    } else {
        digits_val(s.drop_last()) * 10 + digit_val(s.last())
    }
}

/// 10^k.
pub open spec fn pow10(k: nat) -> nat
    decreases k,
{
    if k == 0 {
        1
    } else {
        10 * pow10((k - 1) as nat)
    }
}

pub open spec fn is_exp_char(c: char) -> bool {
    c == 'e' || c == 'E'
}

pub open spec fn is_sign_char(c: char) -> bool {
    c == '+' || c == '-'
}

/// Index of the first exponent marker, or the length when there is none.
pub open spec fn exp_pos(s: Seq<char>) -> int
    decreases s.len(),
{
    if s.len() == 0 {
        0
    } else if is_exp_char(s[0]) {
        0
    } else {
        1 + exp_pos(s.skip(1))
    }
}

/// Index of the first decimal point, or the length when there is none.
pub open spec fn dot_pos(s: Seq<char>) -> int
    decreases s.len(),
{
    if s.len() == 0 {
        0
    } else if s[0] == '.' {
        0
    } else {
        1 + dot_pos(s.skip(1))
    }
}

/// The string with one leading sign removed.
pub open spec fn unsigned(s: Seq<char>) -> Seq<char> {
    if s.len() > 0 && is_sign_char(s[0]) {
        s.skip(1)
    } else {
        s
    }
}

pub open spec fn has_neg_sign(s: Seq<char>) -> bool {
    s.len() > 0 && s[0] == '-'
}

/// Everything before the first exponent marker.
pub open spec fn mantissa_part(s: Seq<char>) -> Seq<char> {
    s.take(exp_pos(s))
}

/// The first exponent marker and everything after it (possibly empty).
pub open spec fn exp_part(s: Seq<char>) -> Seq<char> {
    s.skip(exp_pos(s))
}

/// The digits before the decimal point of an unsigned mantissa.
pub open spec fn int_digits(m: Seq<char>) -> Seq<char> {
    m.take(dot_pos(m))
}

/// The digits after the decimal point of an unsigned mantissa.
pub open spec fn frac_digits(m: Seq<char>) -> Seq<char> {
    if dot_pos(m) < m.len() {
        m.skip(dot_pos(m) + 1)
    } else {
        Seq::empty()
    }
}

pub open spec fn valid_mantissa(m: Seq<char>) -> bool {
    &&& all_digits(int_digits(m))
    &&& all_digits(frac_digits(m))
    &&& int_digits(m).len() + frac_digits(m).len() >= 1
}

pub open spec fn valid_exp(ep: Seq<char>) -> bool {
    ||| ep.len() == 0
    ||| {
        &&& is_exp_char(ep[0])
        &&& unsigned(ep.skip(1)).len() >= 1
        &&& all_digits(unsigned(ep.skip(1)))
    }
}

/// The signed value of the exponent part (zero when absent).
pub open spec fn exp_value(ep: Seq<char>) -> int {
    if ep.len() == 0 {
        0
    } else if has_neg_sign(ep.skip(1)) {
        -(digits_val(unsigned(ep.skip(1))) as int)
    } else {
        digits_val(unsigned(ep.skip(1))) as int
    }
}

/// Whether the string is decimal-number syntax: `[sign] digits [. digits]
/// [(e|E) [sign] digits]` with at least one mantissa digit and, when the
/// marker is present, at least one exponent digit.
pub open spec fn valid_number(s: Seq<char>) -> bool {
    valid_mantissa(unsigned(mantissa_part(s))) && valid_exp(exp_part(s))
}

/// Whether the string denotes a quantity below zero: a minus sign with a
/// mantissa that is not all zero (the exponent cannot change the sign).
pub open spec fn number_is_negative(s: Seq<char>) -> bool {
    let m = unsigned(mantissa_part(s));
    has_neg_sign(mantissa_part(s)) && digits_val(int_digits(m) + frac_digits(m)) > 0
}

/// The magnitude of a valid number in thousandths of a unit, truncated
/// toward zero: with digit string d, p digits before the point and
/// exponent e, this is floor(value(d) * 10^(p - |d| + e) * 1000).
pub open spec fn number_milli(s: Seq<char>) -> nat {
    let m = unsigned(mantissa_part(s));
    let d = int_digits(m) + frac_digits(m);
    let shift = int_digits(m).len() + exp_value(exp_part(s)) + 3;
    if shift <= 0 {
        0
    } else if shift >= d.len() {
        digits_val(d) * pow10((shift - d.len()) as nat)
    } else {
        digits_val(d) / pow10((d.len() - shift) as nat)
    }
}

proof fn lemma_exp_pos_at(s: Seq<char>, i: int)
    requires
        0 <= i <= s.len(),
        forall|j: int| 0 <= j < i ==> !is_exp_char(#[trigger] s[j]),
        i == s.len() || is_exp_char(s[i]),
    ensures
        exp_pos(s) == i,
    decreases i,
{
    if i == 0 {
    } else {
        lemma_exp_pos_at(s.skip(1), i - 1);
    }
}

proof fn lemma_exp_pos_props(s: Seq<char>)
    ensures
        0 <= exp_pos(s) <= s.len(),
        exp_pos(s) < s.len() ==> is_exp_char(s[exp_pos(s)]),
    decreases s.len(),
{
    if s.len() > 0 && !is_exp_char(s[0]) {
        lemma_exp_pos_props(s.skip(1));
    }
}

proof fn lemma_dot_pos_at(s: Seq<char>, i: int)
    requires
        0 <= i <= s.len(),
        forall|j: int| 0 <= j < i ==> s[j] != '.',
        i == s.len() || s[i] == '.',
    ensures
        dot_pos(s) == i,
    decreases i,
{
    if i == 0 {
    } else {
        lemma_dot_pos_at(s.skip(1), i - 1);
    }
}

proof fn lemma_dot_pos_ge(s: Seq<char>, k: int)
    requires
        0 <= k <= s.len(),
        forall|j: int| 0 <= j < k ==> s[j] != '.',
    ensures
        dot_pos(s) >= k,
    decreases k,
{
    if k > 0 {
        assert(s[0] != '.');
        assert(dot_pos(s) == 1 + dot_pos(s.skip(1)));
        assert forall|j: int| 0 <= j < k - 1 implies s.skip(1)[j] != '.' by {
            assert(s.skip(1)[j] == s[j + 1]);
        }
        lemma_dot_pos_ge(s.skip(1), k - 1);
    } else {
        lemma_dot_pos_le_len(s);
    }
}

proof fn lemma_dot_pos_le_len(s: Seq<char>)
    ensures
        0 <= dot_pos(s) <= s.len(),
    decreases s.len(),
{
    if s.len() > 0 && s[0] != '.' {
        lemma_dot_pos_le_len(s.skip(1));
    }
}

proof fn lemma_digits_val_push(t: Seq<char>, c: char)
    ensures
        digits_val(t.push(c)) == digits_val(t) * 10 + digit_val(c),
{
    assert(t.push(c).drop_last() =~= t);
    assert(t.push(c).last() == c);
}

proof fn lemma_pow10_pos(k: nat)
    ensures
        pow10(k) >= 1,
    decreases k,
{
    if k > 0 {
        lemma_pow10_pos((k - 1) as nat);
    }
}

proof fn lemma_pow10_mono(a: nat, b: nat)
    requires
        a <= b,
    ensures
        pow10(a) <= pow10(b),
    decreases b,
{
    if a < b && b > 0 {
        lemma_pow10_mono(a, (b - 1) as nat);
        lemma_pow10_pos((b - 1) as nat);
    }
}

proof fn lemma_pow10_ten()
    ensures
        pow10(10) == 10_000_000_000,
{
    assert(pow10(0) == 1);
    assert(pow10(1) == 10);
    assert(pow10(2) == 100);
    assert(pow10(3) == 1000);
    assert(pow10(4) == 10000);
    assert(pow10(5) == 100000);
    assert(pow10(6) == 1000000);
    assert(pow10(7) == 10000000);
    assert(pow10(8) == 100000000);
    assert(pow10(9) == 1000000000);
    assert(pow10(10) == 10_000_000_000);
}

/// Dropping the last `len - k` digits of a digit string divides its value
/// by the matching power of ten, rounding toward zero.
proof fn lemma_digits_div(d: Seq<char>, k: nat)
    requires
        k <= d.len(),
    ensures
        digits_val(d) / pow10((d.len() - k) as nat) == digits_val(d.take(k as int)),
    decreases d.len() - k,
{
    if k == d.len() {
        assert(d.take(k as int) =~= d);
        lemma_div_basics(digits_val(d) as int);
        assert(digits_val(d) / pow10(0) == digits_val(d));
    } else {
        let m = (d.len() - k) as nat;
        let dl = d.drop_last();
        lemma_digits_div(dl, k);
        assert(dl.take(k as int) =~= d.take(k as int));
        // digits_val(d) == digits_val(dl) * 10 + digit_val(d.last()), digit < 10
        assert(digit_val(d.last()) < 10);
        lemma_fundamental_div_mod_converse(
            digits_val(d) as int,
            10,
            digits_val(dl) as int,
            digit_val(d.last()) as int,
        );
        assert(digits_val(d) / 10 == digits_val(dl));
        lemma_pow10_pos((m - 1) as nat);
        lemma_div_denominator(digits_val(d) as int, 10, pow10((m - 1) as nat) as int);
        assert(10 * pow10((m - 1) as nat) == pow10(m));
        assert(digits_val(d) as int / pow10(m) as int == (digits_val(d) as int / 10) / pow10(
            (m - 1) as nat,
        ) as int);
    }
}

/// The saturation bound of the accumulated value in thousandths: anything
/// above `MILLI_MAX` is over the limit, so the accumulator never needs to
/// grow past this.
pub const MILLI_CAP: u64 = 2_000_000_000;

/// The saturation bound of the accumulated exponent. It exceeds any
/// possible digit count of the input, so a saturated exponent always
/// shifts every digit out of range.
pub const EXP_CAP: u128 = 20_000_000_000_000_000_000;

spec fn milli_capped(v: nat) -> nat {
    if v > MILLI_CAP {
        MILLI_CAP as nat
    } else {
        v
    }
}

spec fn exp_capped(v: nat) -> nat {
    if v > EXP_CAP {
        EXP_CAP as nat
    } else {
        v
    }
}

fn digit_at(s: &str, i: usize) -> (b: bool)
    requires
        i < s@.len(),
    ensures
        b == is_digit(s@[i as int]),
{
    let u = s.get_char(i) as u32;
    48 <= u && u <= 57
}

fn exp_char_at(s: &str, i: usize) -> (b: bool)
    requires
        i < s@.len(),
    ensures
        b == is_exp_char(s@[i as int]),
{
    let c = s.get_char(i);
    c == 'e' || c == 'E'
}

/// One parsed mantissa: its digits, how many of them precede the decimal
/// point, its sign, and where the exponent part begins.
struct ScannedMantissa {
    digits: Vec<char>,
    int_len: usize,
    neg: bool,
    has_nonzero: bool,
    exp_start: usize,
}

impl ScannedMantissa {
    spec fn describes(self, s: Seq<char>) -> bool {
        let m = unsigned(mantissa_part(s));
        &&& self.exp_start == exp_pos(s)
        &&& self.exp_start <= s.len()
        &&& self.digits@ == int_digits(m) + frac_digits(m)
        &&& self.int_len == int_digits(m).len()
        &&& self.int_len <= self.digits@.len()
        &&& self.neg == has_neg_sign(mantissa_part(s))
        &&& self.has_nonzero == (digits_val(self.digits@) > 0)
        &&& all_digits(self.digits@)
        &&& valid_mantissa(m)
        &&& self.digits@.len() >= 1
    }
}

/// Scans sign, integer digits, and fraction digits up to the first
/// exponent marker.
#[verifier::rlimit(60)]
fn scan_mantissa(s: &str) -> (r: Option<ScannedMantissa>)
    ensures
        match r {
            Some(sm) => sm.describes(s@),
            None => !valid_mantissa(unsigned(mantissa_part(s@))),
        },
{
    let n = s.unicode_len();

    // Find the first exponent marker; the mantissa is everything before it.
    let mut epos: usize = 0;
    while epos < n && !exp_char_at(s, epos)
        invariant
            n == s@.len(),
            0 <= epos <= n,
            forall|j: int| 0 <= j < epos ==> !is_exp_char(#[trigger] s@[j]),
        decreases n - epos,
    {
        epos = epos + 1;
    }
    proof {
        lemma_exp_pos_at(s@, epos as int);
        assert(mantissa_part(s@) =~= s@.subrange(0, epos as int));
    }

    // Mantissa sign.
    let mut i: usize = 0;
    let mut neg = false;
    if epos > 0 {
        let c = s.get_char(0);
        if c == '+' {
            i = 1;
        } else if c == '-' {
            neg = true;
            i = 1;
        }
    }
    let ghost m = unsigned(mantissa_part(s@));
    proof {
        assert(m =~= s@.subrange(i as int, epos as int));
        assert(neg == has_neg_sign(mantissa_part(s@)));
    }

    // Digits before the decimal point.
    let mut digits: Vec<char> = Vec::new();
    let mut has_nonzero = false;
    let mut j = i;
    while j < epos && digit_at(s, j)
        invariant
            n == s@.len(),
            0 <= i <= j <= epos <= n,
            m == s@.subrange(i as int, epos as int),
            digits@ == s@.subrange(i as int, j as int),
            all_digits(digits@),
            has_nonzero == (digits_val(digits@) > 0),
        decreases epos - j,
    {
        let c = s.get_char(j);
        proof {
            lemma_digits_val_push(digits@, c);
            assert(s@.subrange(i as int, j + 1 as int) =~= s@.subrange(i as int, j as int).push(
                s@[j as int],
            ));
        }
        if c != '0' {
            has_nonzero = true;
        }
        digits.push(c);
        j = j + 1;
    }
    let p = digits.len();
    let ghost int_part = s@.subrange(i as int, j as int);
    proof {
        // The scanned prefix has no dot, so it lies before the dot of m.
        assert(forall|t: int| 0 <= t < p ==> m[t] == int_part[t] && is_digit(#[trigger] m[t]));
        lemma_dot_pos_ge(m, p as int);
    }

    // Optional decimal point and the digits after it.
    if j < epos {
        let c = s.get_char(j);
        if c == '.' {
            proof {
                lemma_dot_pos_at(m, p as int);
                assert(int_digits(m) =~= int_part);
            }
            j = j + 1;
            let ghost fstart = j as int;
            while j < epos && digit_at(s, j)
                invariant
                    n == s@.len(),
                    0 <= i < fstart <= j <= epos <= n,
                    m == s@.subrange(i as int, epos as int),
                    dot_pos(m) == p,
                    int_digits(m) == s@.subrange(i as int, fstart - 1),
                    digits@ == s@.subrange(i as int, fstart - 1) + s@.subrange(fstart, j as int),
                    p == s@.subrange(i as int, fstart - 1).len(),
                    all_digits(digits@),
                    has_nonzero == (digits_val(digits@) > 0),
                decreases epos - j,
            {
                let c2 = s.get_char(j);
                proof {
                    lemma_digits_val_push(digits@, c2);
                    assert(s@.subrange(fstart, j + 1 as int) =~= s@.subrange(fstart, j as int).push(
                        s@[j as int],
                    ));
                    assert(digits@.push(s@[j as int]) =~= s@.subrange(i as int, fstart - 1)
                        + s@.subrange(fstart, j + 1 as int));
                }
                if c2 != '0' {
                    has_nonzero = true;
                }
                digits.push(c2);
                j = j + 1;
            }
            if j < epos {
                // A character in the fraction that is no digit.
                proof {
                    assert(frac_digits(m) == m.skip(p + 1));
                    assert(frac_digits(m)[j - fstart] == m[j - i] && m[j - i] == s@[j as int]);
                    assert(!is_digit(frac_digits(m)[j - fstart]));
                    assert(!valid_mantissa(m));
                }
                return None;
            }
            proof {
                assert(frac_digits(m) =~= s@.subrange(fstart, epos as int));
                assert(digits@ =~= int_digits(m) + frac_digits(m));
            }
        } else {
            // A character in the integer part that is neither digit nor dot.
            proof {
                assert(m[j - i] == s@[j as int]);
                assert(m[j - i] != '.');
                lemma_dot_pos_ge(m, j - i + 1);
                lemma_dot_pos_le_len(m);
                assert(int_digits(m)[j - i] == m[j - i]);
                assert(!is_digit(int_digits(m)[j - i]));
                assert(!valid_mantissa(m));
            }
            return None;
        }
    } else {
        proof {
            lemma_dot_pos_le_len(m);
            lemma_dot_pos_ge(m, p as int);
            assert(dot_pos(m) == p);
            assert(int_digits(m) =~= m);
            assert(frac_digits(m) =~= Seq::<char>::empty());
            assert(digits@ =~= int_digits(m) + frac_digits(m));
        }
    }
    if digits.len() == 0 {
        proof {
            assert(!valid_mantissa(m));
        }
        return None;
    }
    proof {
        let idg = int_digits(m);
        let fdg = frac_digits(m);
        assert forall|t: int| 0 <= t < idg.len() implies is_digit(idg[t]) by {
            assert(idg[t] == digits@[t]);
        }
        assert forall|t: int| 0 <= t < fdg.len() implies is_digit(fdg[t]) by {
            assert(fdg[t] == digits@[idg.len() + t]);
        }
        assert(valid_mantissa(m));
    }
    Some(ScannedMantissa { digits, int_len: p, neg, has_nonzero, exp_start: epos })
}

/// Scans the exponent part: the marker, an optional sign, and at least one
/// digit. The digit value is accumulated with saturation at `EXP_CAP`.
#[verifier::rlimit(60)]
fn scan_exponent(s: &str, epos: usize) -> (r: Option<(bool, u128)>)
    requires
        epos as int == exp_pos(s@),
        epos <= s@.len(),
    ensures
        match r {
            Some(t) => {
                let ep = exp_part(s@);
                let av: nat = if ep.len() > 0 {
                    digits_val(unsigned(ep.skip(1)))
                } else {
                    0
                };
                &&& valid_exp(ep)
                &&& t.0 == (ep.len() > 0 && has_neg_sign(ep.skip(1)))
                &&& t.1 == exp_capped(av)
                &&& exp_value(ep) == if t.0 {
                    -(av as int)
                } else {
                    av as int
                }
            },
            None => !valid_exp(exp_part(s@)),
        },
{
    let n = s.unicode_len();
    let ghost ep = exp_part(s@);
    if epos == n {
        return Some((false, 0));
    }
    proof {
        lemma_exp_pos_props(s@);
        assert(ep[0] == s@[epos as int]);
        assert(is_exp_char(ep[0]));
    }
    let mut eneg = false;
    let mut esat: u128 = 0;
    let mut k = epos + 1;
    if k < n {
        let c = s.get_char(k);
        if c == '+' {
            k = k + 1;
        } else if c == '-' {
            eneg = true;
            k = k + 1;
        }
    }
    let ghost estart = k as int;
    proof {
        assert(ep.skip(1) =~= s@.subrange(epos + 1, n as int));
        assert(unsigned(ep.skip(1)) =~= s@.subrange(estart, n as int));
        assert(eneg == has_neg_sign(ep.skip(1)));
    }
    if k == n {
        proof {
            assert(unsigned(ep.skip(1)).len() == 0);
            assert(!valid_exp(ep));
        }
        return None;
    }
    while k < n
        invariant
            n == s@.len(),
            0 < estart <= k <= n,
            estart < n,
            ep == exp_part(s@),
            ep.len() > 0,
            is_exp_char(ep[0]),
            eneg == has_neg_sign(ep.skip(1)),
            unsigned(ep.skip(1)) == s@.subrange(estart, n as int),
            all_digits(s@.subrange(estart, k as int)),
            esat == exp_capped(digits_val(s@.subrange(estart, k as int))),
        decreases n - k,
    {
        let c = s.get_char(k);
        let u = c as u32;
        if !(48 <= u && u <= 57) {
            proof {
                assert(unsigned(ep.skip(1))[k - estart] == s@[k as int]);
                assert(!all_digits(unsigned(ep.skip(1))));
                assert(!valid_exp(ep));
            }
            return None;
        }
        proof {
            lemma_digits_val_push(s@.subrange(estart, k as int), c);
            assert(s@.subrange(estart, k + 1 as int) =~= s@.subrange(estart, k as int).push(
                s@[k as int],
            ));
        }
        let v = u - 48;
        esat = esat * 10 + v as u128;
        if esat > EXP_CAP {
            esat = EXP_CAP;
        }
        k = k + 1;
    }
    proof {
        assert(s@.subrange(estart, n as int) =~= unsigned(ep.skip(1)));
    }
    Some((eneg, esat))
}

/// Accumulates the value of the first `take` digits, saturating above
/// `MILLI_CAP`.
fn accum_digits(digits: &Vec<char>, take: usize) -> (acc: u64)
    requires
        take <= digits@.len(),
        all_digits(digits@),
    ensures
        acc == milli_capped(digits_val(digits@.take(take as int))),
{
    let mut acc: u64 = 0;
    let mut t: usize = 0;
    while t < take
        invariant
            0 <= t <= take <= digits@.len(),
            all_digits(digits@),
            acc == milli_capped(digits_val(digits@.take(t as int))),
        decreases take - t,
    {
        let c = digits[t];
        proof {
            lemma_digits_val_push(digits@.take(t as int), c);
            assert(digits@.take(t + 1 as int) =~= digits@.take(t as int).push(digits@[t as int]));
        }
        let v = (c as u32) - 48;
        acc = acc * 10 + v as u64;
        if acc > MILLI_CAP {
            acc = MILLI_CAP;
        }
        t = t + 1;
    }
    acc
}

/// Multiplies a capped value by 10^e, keeping the saturation.
fn times_pow10_capped(acc0: u64, e: u32, Ghost(v): Ghost<nat>) -> (acc: u64)
    requires
        e <= 9,
        acc0 == milli_capped(v),
    ensures
        acc == milli_capped(v * pow10(e as nat)),
{
    let mut acc = acc0;
    let mut q: u32 = 0;
    proof {
        assert(v * pow10(0) == v) by (nonlinear_arith)
            requires
                pow10(0) == 1,
        ;
    }
    while q < e
        invariant
            0 <= q <= e <= 9,
            acc == milli_capped(v * pow10(q as nat)),
        decreases e - q,
    {
        proof {
            lemma_pow10_pos(q as nat);
            assert(v * pow10(q as nat + 1) == (v * pow10(q as nat)) * 10) by (nonlinear_arith)
                requires
                    pow10(q as nat + 1) == 10 * pow10(q as nat),
            ;
            assert(v * pow10(q as nat + 1) >= v * pow10(q as nat)) by (nonlinear_arith)
                requires
                    v >= 0,
                    pow10(q as nat + 1) >= pow10(q as nat),
            ;
            lemma_pow10_mono(q as nat, q as nat + 1);
        }
        acc = acc * 10;
        if acc > MILLI_CAP {
            acc = MILLI_CAP;
        }
        q = q + 1;
    }
    acc
}

/// Parses a length argument and validates its range: the result is the
/// value in thousandths of a unit, truncated toward zero. Negative values
/// and values above 1,000,000 units are rejected, as is anything that is
/// not decimal-number syntax.
#[verifier::rlimit(60)]
pub fn parse_length(s: &str) -> (r: Result<u64, ValidationError>)
    ensures
        match r {
            Ok(v) => {
                &&& valid_number(s@)
                &&& !number_is_negative(s@)
                &&& v == number_milli(s@)
                &&& v <= MILLI_MAX
            },
            Err(e) => {
                ||| (e == ValidationError::NotANumber && !valid_number(s@))
                ||| (e == ValidationError::NegativeNumber && valid_number(s@)
                    && number_is_negative(s@))
                ||| (e == ValidationError::NumberTooBig && valid_number(s@)
                    && !number_is_negative(s@) && number_milli(s@) > MILLI_MAX)
            },
        },
{
    let sm = match scan_mantissa(s) {
        Some(sm) => sm,
        None => {
            return Err(ValidationError::NotANumber);
        },
    };
    let (eneg, esat) = match scan_exponent(s, sm.exp_start) {
        Some(t) => t,
        None => {
            return Err(ValidationError::NotANumber);
        },
    };
    let ghost m = unsigned(mantissa_part(s@));
    let ghost d = int_digits(m) + frac_digits(m);
    let ghost ep = exp_part(s@);
    let ghost eval: nat = if ep.len() > 0 {
        digits_val(unsigned(ep.skip(1)))
    } else {
        0
    };
    proof {
        assert(valid_number(s@));
    }

    // Negative values are rejected; "-0" and the like denote zero.
    if sm.neg && sm.has_nonzero {
        proof {
            assert(number_is_negative(s@));
        }
        return Err(ValidationError::NegativeNumber);
    }
    proof {
        assert(!number_is_negative(s@));
    }

    let p = sm.int_len;
    let nd = sm.digits.len();

    // The decimal point of value*1000 sits `shift` digits into d (counting
    // from the left); digits beyond it are truncated.
    let ghost shift = int_digits(m).len() + exp_value(exp_part(s@)) + 3;
    let take: usize;
    let extra: u128;
    if eneg {
        if esat >= p as u128 + 3 {
            proof {
                assert(eval >= esat);
                assert(shift <= 0);
                assert(number_milli(s@) == 0);
            }
            return Ok(0);
        }
        // esat < p + 3 < EXP_CAP, so esat is exact.
        proof {
            assert(p as u128 + 3 < EXP_CAP);
            assert(esat == eval);
            assert(shift == p + 3 - eval);
            assert(0 < shift <= p + 3);
        }
        let sh: u128 = p as u128 + 3 - esat;
        if sh >= nd as u128 {
            take = nd;
            extra = sh - nd as u128;
        } else {
            take = sh as usize;
            extra = 0;
        }
        proof {
            assert(take == if shift >= nd {
                nd as int
            } else {
                shift
            });
            assert(extra == if shift >= nd {
                shift - nd
            } else {
                0
            });
        }
    } else {
        // Positive exponent (or none): shift = p + 3 + eval.
        let sh: u128 = p as u128 + 3 + esat;
        if sh >= nd as u128 {
            take = nd;
            extra = sh - nd as u128;
        } else {
            take = sh as usize;
            extra = 0;
        }
        proof {
            assert(exp_value(ep) == eval as int);
            if eval > EXP_CAP {
                // Saturated: the true shift is even larger.
                assert(esat == EXP_CAP);
                assert(shift >= p + 3 + EXP_CAP);
                assert(take == nd);
                assert(shift - nd >= 10);
                assert(extra >= 10);
            } else {
                assert(esat == eval);
                assert(shift == p + 3 + eval);
                assert(take == if shift >= nd {
                    nd as int
                } else {
                    shift
                });
                assert(extra == if shift >= nd {
                    shift - nd
                } else {
                    0
                });
            }
        }
    }
    // From here on: either take/extra mirror shift exactly, or the
    // exponent saturated and both the true and the computed overhang are
    // at least ten digits.
    let ghost exact = (take == if shift >= nd {
        nd as int
    } else {
        shift
    }) && (extra == if shift >= nd {
        shift - nd
    } else {
        0
    });
    proof {
        assert(exact || (take == nd && extra >= 10 && shift - nd >= 10));
        assert(shift > 0);
    }

    let acc0 = accum_digits(&sm.digits, take);
    let acc: u64;
    if take == nd {
        proof {
            assert(sm.digits@.take(nd as int) =~= sm.digits@);
            assert(acc0 == milli_capped(digits_val(d)));
            assert(shift >= nd);
            assert(number_milli(s@) == digits_val(d) * pow10((shift - nd) as nat));
        }
        if acc0 == 0 {
            proof {
                assert(digits_val(d) == 0);
                assert(number_milli(s@) == 0) by (nonlinear_arith)
                    requires
                        number_milli(s@) == digits_val(d) * pow10((shift - nd) as nat),
                        digits_val(d) == 0,
                ;
            }
            return Ok(0);
        }
        if extra >= 10 {
            proof {
                assert(digits_val(d) > 0);
                assert(shift - nd >= 10);
                lemma_pow10_mono(10, (shift - nd) as nat);
                lemma_pow10_ten();
                assert(digits_val(d) * pow10((shift - nd) as nat) >= pow10((shift - nd) as nat))
                    by (nonlinear_arith)
                    requires
                        digits_val(d) >= 1,
                        pow10((shift - nd) as nat) >= 0,
                ;
                assert(number_milli(s@) > MILLI_MAX);
            }
            return Err(ValidationError::NumberTooBig);
        }
        proof {
            assert(exact);
            assert(extra == shift - nd);
        }
        acc = times_pow10_capped(acc0, extra as u32, Ghost(digits_val(d)));
        proof {
            assert(acc == milli_capped(number_milli(s@)));
        }
    } else {
        // take == shift < nd: truncate the fraction.
        proof {
            assert(exact);
            assert(take == shift);
            lemma_digits_div(d, take as nat);
            assert(number_milli(s@) == digits_val(d.take(take as int)));
        }
        acc = acc0;
        proof {
            assert(acc == milli_capped(number_milli(s@)));
        }
    }
    if acc > 1_000_000_000 {
        proof {
            assert(number_milli(s@) > MILLI_MAX);
        }
        return Err(ValidationError::NumberTooBig);
    }
    Ok(acc)
}


} // verus!
