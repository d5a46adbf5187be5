//! Exact evaluation of decimal numerals.
//!
//! A pricing document carries dollar rates as JSON numbers. This module reads
//! such a numeral (`-?digits[.digits][(e|E)[+|-]digits]`) and scales it by a
//! power of ten, producing an exact integer when the numeral denotes one and
//! `None` otherwise. Rates are held in picodollars (a trillionth of a dollar),
//! so every rate written with at most twelve decimal places is represented
//! exactly.

use vstd::prelude::*;

verus! {

use vstd::arithmetic::mul::lemma_mul_inequality;
use vstd::arithmetic::power::{pow, lemma_pow_adds, lemma_pow_increases, lemma_pow_positive};

/// Is `c` a decimal digit?
pub open spec fn is_digit(c: char) -> bool {
    48 <= c as u32 && c as u32 <= 57
}

/// Numeric value of the digit `c`.
pub open spec fn digit_val(c: char) -> nat {
    (c as u32 - 48) as nat
}

/// Characters with equal code points are equal.
pub proof fn lemma_char_inj(a: char, b: char)
    ensures
        a as u32 == b as u32 ==> a == b,
{
}

/// A digit is `'0'` exactly when its value is zero.
pub proof fn lemma_digit_char(c: char)
    requires
        is_digit(c),
    ensures
        digit_val(c) <= 9,
        (c == '0') <==> (digit_val(c) == 0),
{
    lemma_char_inj(c, '0');
}

/// Is every character of `s` a decimal digit?
pub open spec fn all_digits(s: Seq<char>) -> bool {
    forall|i: int| 0 <= i < s.len() ==> is_digit(#[trigger] s[i])
}

/// Is every character of `s` the digit zero?
pub open spec fn all_zeros(s: Seq<char>) -> bool {
    forall|i: int| 0 <= i < s.len() ==> #[trigger] s[i] == '0'
}

/// Value of a digit string read in base ten.
pub open spec fn dv(s: Seq<char>) -> nat
    decreases s.len(),
{
    if s.len() == 0 {
        0
    } else {
        dv(s.drop_last()) * 10 + digit_val(s.last())
    }
}

/// A digit string of length `n` denotes a value below `10^n`.
pub proof fn lemma_dv_upper(s: Seq<char>)
    requires
        all_digits(s),
    ensures
        dv(s) < pow(10, s.len() as nat),
    decreases s.len(),
{
    reveal(pow);
    if s.len() == 0 {
    } else {
        lemma_dv_upper(s.drop_last());
        assert(digit_val(s.last()) <= 9);
        assert(pow(10, s.len() as nat) == 10 * pow(10, (s.len() - 1) as nat));
    }
}

/// A digit string without a leading zero denotes at least `10^(n-1)`.
pub proof fn lemma_dv_lower(s: Seq<char>)
    requires
        all_digits(s),
        s.len() > 0,
        s[0] != '0',
    ensures
        dv(s) >= pow(10, (s.len() - 1) as nat),
    decreases s.len(),
{
    reveal(pow);
    if s.len() == 1 {
        lemma_digit_char(s[0]);
        assert(s.drop_last().len() == 0);
        assert(dv(s.drop_last()) == 0);
        assert(digit_val(s[0]) >= 1);
    } else {
        let d = s.drop_last();
        lemma_dv_lower(d);
        assert(pow(10, (s.len() - 1) as nat) == 10 * pow(10, (s.len() - 2) as nat));
    }
}

/// A digit string denotes zero exactly when all its digits are zero.
pub proof fn lemma_dv_zero_iff(s: Seq<char>)
    requires
        all_digits(s),
    ensures
        dv(s) == 0 <==> all_zeros(s),
    decreases s.len(),
{
    if s.len() == 0 {
    } else {
        let d = s.drop_last();
        lemma_dv_zero_iff(d);
        if dv(s) == 0 {
            assert(digit_val(s.last()) == 0);
            assert(is_digit(s.last()));
            lemma_digit_char(s.last());
            assert forall|i: int| 0 <= i < s.len() implies #[trigger] s[i] == '0' by {
                if i < s.len() - 1 {
                    assert(d[i] == '0');
                }
            }
        } else {
            if all_zeros(s) {
                assert(all_zeros(d)) by {
                    assert(forall|i: int| 0 <= i < d.len() ==> d[i] == #[trigger] s[i]);
                }
                assert(s.last() == '0');
                lemma_digit_char(s.last());
                assert(false);
            }
        }
    }
}

/// Dropping leading zero digits leaves the value unchanged.
pub proof fn lemma_dv_skip_zeros(s: Seq<char>, k: int)
    requires
        all_digits(s),
        0 <= k <= s.len(),
        forall|i: int| 0 <= i < k ==> #[trigger] s[i] == '0',
    ensures
        dv(s.skip(k)) == dv(s),
    decreases s.len(),
{
    if k == s.len() {
        assert(all_zeros(s));
        lemma_dv_zero_iff(s);
        assert(s.skip(k) =~= Seq::<char>::empty());
    } else if s.len() > 0 {
        let d = s.drop_last();
        lemma_dv_skip_zeros(d, k);
        assert(s.skip(k).drop_last() =~= d.skip(k));
        assert(s.skip(k).last() == s.last());
    }
}

/// The decomposition of a numeral: sign, integer digits, fraction digits and
/// exponent, plus whether the numeral is well formed at all.
pub ghost struct NumeralParts {
    pub ok: bool,
    pub neg: bool,
    pub ip: Seq<char>,
    pub fp: Seq<char>,
    pub exp: int,
}

/// Is `c` an exponent marker?
pub open spec fn is_expmark(c: char) -> bool {
    c == 'e' || c == 'E'
}

/// Index of the first exponent marker in `s`, or `s.len()` if there is none.
pub open spec fn exp_split(s: Seq<char>) -> int
    decreases s.len(),
{
    if s.len() == 0 {
        0
    } else if is_expmark(s[0]) {
        0
    } else {
        1 + exp_split(s.skip(1))
    }
}

pub proof fn lemma_exp_split(s: Seq<char>)
    ensures
        0 <= exp_split(s) <= s.len(),
        exp_split(s) < s.len() ==> is_expmark(s[exp_split(s)]),
        forall|i: int| 0 <= i < exp_split(s) ==> !is_expmark(#[trigger] s[i]),
    decreases s.len(),
{
    if s.len() == 0 {
    } else if is_expmark(s[0]) {
    } else {
        lemma_exp_split(s.skip(1));
        if exp_split(s) < s.len() {
            assert(s[exp_split(s)] == s.skip(1)[exp_split(s) - 1]);
        }
        assert forall|i: int| 0 <= i < exp_split(s) implies !is_expmark(#[trigger] s[i]) by {
            if i > 0 {
                assert(s[i] == s.skip(1)[i - 1]);
            }
        }
    }
}

/// Index of the first dot in `s`, or `s.len()` if there is none.
pub open spec fn dot_split(s: Seq<char>) -> int
    decreases s.len(),
{
    if s.len() == 0 {
        0
    } else if s[0] == '.' {
        0
    } else {
        1 + dot_split(s.skip(1))
    }
}

pub proof fn lemma_dot_split(s: Seq<char>)
    ensures
        0 <= dot_split(s) <= s.len(),
        dot_split(s) < s.len() ==> s[dot_split(s)] == '.',
        forall|i: int| 0 <= i < dot_split(s) ==> (#[trigger] s[i]) != '.',
    decreases s.len(),
{
    if s.len() == 0 {
    } else if s[0] == '.' {
    } else {
        lemma_dot_split(s.skip(1));
        if dot_split(s) < s.len() {
            assert(s[dot_split(s)] == s.skip(1)[dot_split(s) - 1]);
        }
        assert forall|i: int| 0 <= i < dot_split(s) implies (#[trigger] s[i]) != '.' by {
            if i > 0 {
                assert(s[i] == s.skip(1)[i - 1]);
            }
        }
    }
}

/// Value of an exponent part (everything after the `e`), if well formed.
pub open spec fn spec_exp(s: Seq<char>) -> Option<int> {
    let signed = s.len() > 0 && (s[0] == '+' || s[0] == '-');
    let ds = if signed {
        s.skip(1)
    } else {
        s
    };
    if ds.len() > 0 && all_digits(ds) {
        if signed && s[0] == '-' {
            Some(-(dv(ds) as int))
        } else {
            Some(dv(ds) as int)
        }
    } else {
        None
    }
}

/// Decompose the numeral `t` into sign, digit parts and exponent.
pub open spec fn split_numeral(t: Seq<char>) -> NumeralParts {
    let me = exp_split(t);
    let has_e = me < t.len();
    let exp = if has_e {
        spec_exp(t.skip(me + 1))
    } else {
        Some(0int)
    };
    let mant = t.take(me);
    let neg = mant.len() > 0 && mant[0] == '-';
    let um = if neg {
        mant.skip(1)
    } else {
        mant
    };
    let md = dot_split(um);
    let has_dot = md < um.len();
    let ip = um.take(md);
    let fp = if has_dot {
        um.skip(md + 1)
    } else {
        Seq::<char>::empty()
    };
    NumeralParts {
        ok: ip.len() > 0 && all_digits(ip) && (!has_dot || (fp.len() > 0 && all_digits(fp)))
            && exp is Some,
        neg,
        ip,
        fp,
        exp: if exp is Some {
            exp->0
        } else {
            0
        },
    }
}

/// Magnitude of `ip.fp * 10^shift` when that is an integer, as sign and value.
///
/// `p` is the position of the decimal point inside the digit string `ip + fp`
/// after shifting; digits to its right must all be zero.
pub open spec fn point_mag(d: Seq<char>, p: int) -> Option<nat> {
    if p <= 0 {
        if dv(d) == 0 {
            Some(0 as nat)
        } else {
            None
        }
    } else if p >= d.len() {
        Some((dv(d) * pow(10, (p - d.len()) as nat)) as nat)
    } else {
        if dv(d.skip(p)) == 0 {
            Some(dv(d.take(p)))
        } else {
            None
        }
    }
}

/// Signed form of `point_mag`: a minus sign is dropped on zero.
pub open spec fn point_value(neg: bool, d: Seq<char>, p: int) -> Option<(bool, nat)> {
    match point_mag(d, p) {
        Some(v) => Some((neg && v != 0, v)),
        None => None,
    }
}

pub open spec fn scaled_value(neg: bool, ip: Seq<char>, fp: Seq<char>, shift: int) -> Option<
    (bool, nat),
> {
    point_value(neg, ip + fp, ip.len() + shift)
}

/// The numeral `t`, scaled by `10^scale`, as a sign and an exact magnitude;
/// `None` if `t` is malformed or the scaled value is not an integer.
pub open spec fn numeral_scaled(t: Seq<char>, scale: int) -> Option<(bool, nat)> {
    let parts = split_numeral(t);
    if parts.ok {
        scaled_value(parts.neg, parts.ip, parts.fp, parts.exp + scale)
    } else {
        None
    }
}

/// The numeral `t` as a picodollar amount: its value times `10^12`, when that
/// is a nonnegative integer below `2^64`.
pub open spec fn pico_of(t: Seq<char>) -> Option<u64> {
    match numeral_scaled(t, 12) {
        Some((neg, v)) => if !neg && v <= u64::MAX {
            Some(v as u64)
        } else {
            None
        },
        None => None,
    }
}

/// The numeral `t` as a signed integer, when its value is an integer that
/// fits in `i64`.
pub open spec fn int_of(t: Seq<char>) -> Option<i64> {
    match numeral_scaled(t, 0) {
        Some((neg, v)) => if neg {
            if v <= 0x8000_0000_0000_0000 {
                Some((-(v as int)) as i64)
            } else {
                None
            }
        } else {
            if v <= i64::MAX {
                Some(v as i64)
            } else {
                None
            }
        },
        None => None,
    }
}

/// Saturation bound for digit accumulation: `10^20`, which exceeds `u64::MAX`.
pub const SAT: u128 = 100_000_000_000_000_000_000;

/// Concrete values of small powers of ten.
pub proof fn lemma_pow10_values()
    ensures
        pow(10, 0) == 1,
        pow(10, 12) == 0x0E8D4A51000,
        pow(10, 19) == 10_000_000_000_000_000_000,
        pow(10, 20) == SAT as int,
        pow(10, 21) == 10 * SAT as int,
        pow(10, 21) > u64::MAX as int,
{
    reveal_with_fuel(pow, 25);
}

/// The characters of `s`, as a vector.
fn chars_of(s: &str) -> (r: Vec<char>)
    ensures
        r@ == s@,
{
    let n = s.unicode_len();
    let mut r: Vec<char> = Vec::new();
    let mut i: usize = 0;
    while i < n
        invariant
            n == s@.len(),
            i <= n,
            r@ =~= s@.take(i as int),
        decreases n - i,
    {
        r.push(s.get_char(i));
        i = i + 1;
    }
    proof {
        assert(r@ =~= s@);
    }
    r
}

/// Index of the first exponent marker at or after `lo`, or `hi` if none.
fn find_expmark(cs: &Vec<char>, lo: usize, hi: usize) -> (r: usize)
    requires
        lo <= hi <= cs.len(),
    ensures
        lo <= r <= hi,
        r - lo == exp_split(cs@.subrange(lo as int, hi as int)),
{
    let ghost sub = cs@.subrange(lo as int, hi as int);
    proof {
        lemma_exp_split(sub);
    }
    let mut i: usize = lo;
    while i < hi
        invariant
            lo <= i <= hi <= cs.len(),
            sub == cs@.subrange(lo as int, hi as int),
            forall|j: int| lo <= j < i ==> !is_expmark(#[trigger] cs@[j]),
        decreases hi - i,
    {
        let c = cs[i];
        if c == 'e' || c == 'E' {
            proof {
                lemma_exp_split(sub);
                assert(sub[i - lo] == cs@[i as int]);
                assert forall|j: int| 0 <= j < i - lo implies !is_expmark(#[trigger] sub[j]) by {
                    assert(sub[j] == cs@[lo + j]);
                }
                if exp_split(sub) < i - lo {
                    assert(!is_expmark(sub[exp_split(sub)]));
                    assert(false);
                }
                if exp_split(sub) > i - lo {
                    assert(!is_expmark(sub[i - lo]));
                    assert(false);
                }
                assert(exp_split(sub) == i - lo);
            }
            return i;
        }
        i = i + 1;
    }
    proof {
        lemma_exp_split(sub);
        assert forall|j: int| 0 <= j < sub.len() implies !is_expmark(#[trigger] sub[j]) by {
            assert(sub[j] == cs@[lo + j]);
        }
        if exp_split(sub) < sub.len() {
            assert(!is_expmark(sub[exp_split(sub)]));
            assert(false);
        }
        assert(exp_split(sub) == sub.len());
    }
    hi
}

/// Index of the first dot at or after `lo`, or `hi` if none.
fn find_dot(cs: &Vec<char>, lo: usize, hi: usize) -> (r: usize)
    requires
        lo <= hi <= cs.len(),
    ensures
        lo <= r <= hi,
        r - lo == dot_split(cs@.subrange(lo as int, hi as int)),
{
    let ghost sub = cs@.subrange(lo as int, hi as int);
    proof {
        lemma_dot_split(sub);
    }
    let mut i: usize = lo;
    while i < hi
        invariant
            lo <= i <= hi <= cs.len(),
            sub == cs@.subrange(lo as int, hi as int),
            forall|j: int| lo <= j < i ==> (#[trigger] cs@[j]) != '.',
        decreases hi - i,
    {
        let c = cs[i];
        if c == '.' {
            proof {
                lemma_dot_split(sub);
                assert(sub[i - lo] == cs@[i as int]);
                assert forall|j: int| 0 <= j < i - lo implies (#[trigger] sub[j]) != '.' by {
                    assert(sub[j] == cs@[lo + j]);
                }
                if dot_split(sub) < i - lo {
                    assert(sub[dot_split(sub)] != '.');
                    assert(false);
                }
                if dot_split(sub) > i - lo {
                    assert(sub[i - lo] != '.');
                    assert(false);
                }
                assert(dot_split(sub) == i - lo);
            }
            return i;
        }
        i = i + 1;
    }
    proof {
        lemma_dot_split(sub);
        assert forall|j: int| 0 <= j < sub.len() implies (#[trigger] sub[j]) != '.' by {
            assert(sub[j] == cs@[lo + j]);
        }
        if dot_split(sub) < sub.len() {
            assert(sub[dot_split(sub)] != '.');
            assert(false);
        }
        assert(dot_split(sub) == sub.len());
    }
    hi
}

/// Is the range `[lo, hi)` nonempty and made of digits only?
fn check_digits(cs: &Vec<char>, lo: usize, hi: usize) -> (r: bool)
    requires
        lo <= hi <= cs.len(),
    ensures
        r == (hi > lo && all_digits(cs@.subrange(lo as int, hi as int))),
{
    let ghost sub = cs@.subrange(lo as int, hi as int);
    if hi == lo {
        return false;
    }
    let mut i: usize = lo;
    while i < hi
        invariant
            lo <= i <= hi <= cs.len(),
            sub == cs@.subrange(lo as int, hi as int),
            forall|j: int| lo <= j < i ==> is_digit(#[trigger] cs@[j]),
        decreases hi - i,
    {
        let u = cs[i] as u32;
        if u < 48 || u > 57 {
            proof {
                assert(sub[i - lo] == cs@[i as int]);
            }
            return false;
        }
        i = i + 1;
    }
    proof {
        assert forall|j: int| 0 <= j < sub.len() implies is_digit(#[trigger] sub[j]) by {
            assert(sub[j] == cs@[lo + j]);
        }
    }
    true
}

/// Are all characters in `[lo, hi)` the digit zero?
fn range_all_zeros(cs: &Vec<char>, lo: usize, hi: usize) -> (r: bool)
    requires
        lo <= hi <= cs.len(),
    ensures
        r == all_zeros(cs@.subrange(lo as int, hi as int)),
{
    let ghost sub = cs@.subrange(lo as int, hi as int);
    let mut i: usize = lo;
    while i < hi
        invariant
            lo <= i <= hi <= cs.len(),
            sub == cs@.subrange(lo as int, hi as int),
            forall|j: int| lo <= j < i ==> (#[trigger] cs@[j]) == '0',
        decreases hi - i,
    {
        let c = cs[i];
        if c != '0' {
            proof {
                assert(sub[i - lo] == cs@[i as int]);
            }
            return false;
        }
        i = i + 1;
    }
    proof {
        assert forall|j: int| 0 <= j < sub.len() implies (#[trigger] sub[j]) == '0' by {
            assert(sub[j] == cs@[lo + j]);
        }
    }
    true
}

/// Number of leading zero digits in `[lo, hi)`.
fn count_leading_zeros(cs: &Vec<char>, lo: usize, hi: usize) -> (r: usize)
    requires
        lo <= hi <= cs.len(),
    ensures
        lo <= r <= hi,
        forall|j: int| lo <= j < r ==> (#[trigger] cs@[j]) == '0',
        r < hi ==> cs@[r as int] != '0',
{
    let mut i: usize = lo;
    while i < hi
        invariant
            lo <= i <= hi <= cs.len(),
            forall|j: int| lo <= j < i ==> (#[trigger] cs@[j]) == '0',
        decreases hi - i,
    {
        let c = cs[i];
        if c != '0' {
            return i;
        }
        i = i + 1;
    }
    hi
}

/// Value of the digit range `[lo, hi)`, saturated at `SAT`.
fn dv_range(cs: &Vec<char>, lo: usize, hi: usize) -> (v: u128)
    requires
        lo <= hi <= cs.len(),
        all_digits(cs@.subrange(lo as int, hi as int)),
    ensures
        v <= SAT,
        v < SAT ==> v == dv(cs@.subrange(lo as int, hi as int)),
        v == SAT ==> dv(cs@.subrange(lo as int, hi as int)) >= SAT,
{
    let ghost sub = cs@.subrange(lo as int, hi as int);
    let mut v: u128 = 0;
    let mut i: usize = lo;
    while i < hi
        invariant
            lo <= i <= hi <= cs.len(),
            sub == cs@.subrange(lo as int, hi as int),
            all_digits(sub),
            v <= SAT,
            v < SAT ==> v == dv(cs@.subrange(lo as int, i as int)),
            v == SAT ==> dv(cs@.subrange(lo as int, i as int)) >= SAT,
        decreases hi - i,
    {
        let ghost pre = cs@.subrange(lo as int, i as int);
        let ghost post = cs@.subrange(lo as int, i + 1);
        proof {
            assert(post.drop_last() =~= pre);
            assert(post.last() == cs@[i as int]);
            assert(sub[i - lo] == cs@[i as int]);
            assert(is_digit(cs@[i as int]));
            assert(dv(post) == dv(pre) * 10 + digit_val(cs@[i as int]));
        }
        let u = cs[i] as u32;
        let d = (u - 48) as u128;
        proof {
            assert(d == digit_val(cs@[i as int]));
        }
        if v < SAT {
            let w = v * 10 + d;
            if w >= SAT {
                proof {
                    assert(dv(post) == v * 10 + d);
                }
                v = SAT;
            } else {
                v = w;
            }
        } else {
            proof {
                assert(dv(pre) >= SAT);
                assert(dv(post) >= dv(pre) * 10) by {
                    lemma_mul_inequality(1, 10, dv(pre) as int);
                }
                assert(dv(pre) * 10 >= dv(pre)) by {
                    lemma_mul_inequality(1, 10, dv(pre) as int);
                }
            }
        }
        i = i + 1;
    }
    proof {
        assert(cs@.subrange(lo as int, i as int) =~= sub);
    }
    v
}

/// `10^e`, for `e` at most 20.
fn tenpow(e: usize) -> (r: u128)
    requires
        e <= 20,
    ensures
        r == pow(10, e as nat),
{
    proof {
        lemma_pow10_values();
    }
    let mut r: u128 = 1;
    let mut i: usize = 0;
    proof {
        reveal(pow);
    }
    while i < e
        invariant
            i <= e <= 20,
            r == pow(10, i as nat),
        decreases e - i,
    {
        proof {
            lemma_pow10_values();
            lemma_pow_increases(10, i as nat, 19);
            assert(pow(10, (i + 1) as nat) == 10 * pow(10, i as nat)) by {
                reveal(pow);
            }
        }
        r = r * 10;
        i = i + 1;
    }
    r
}

/// Evaluate the numeral `cs` scaled by `10^scale`: the sign and magnitude of
/// `numeral_scaled`, when the magnitude fits in `u64`.
#[verifier::rlimit(100)]
fn eval_scaled(cs: &Vec<char>, scale: u32) -> (r: Option<(bool, u64)>)
    requires
        scale <= 12,
    ensures
        match numeral_scaled(cs@, scale as int) {
            Some(sp) => if sp.1 <= u64::MAX {
                r == Some((sp.0, sp.1 as u64))
            } else {
                r is None
            },
            None => r is None,
        },
{
    let ghost t = cs@;
    let n = cs.len();
    let me = find_expmark(cs, 0, n);
    proof {
        assert(t.subrange(0, n as int) =~= t);
        assert(me == exp_split(t));
    }
    let ghost parts = split_numeral(t);
    let has_e = me < n;

    // Exponent part.
    let mut eneg: bool = false;
    let mut ev: u128 = 0;
    if has_e {
        let ghost se = t.skip(me + 1);
        let j = me + 1;
        let signed = j < n && (cs[j] == '+' || cs[j] == '-');
        proof {
            if j < n {
                assert(se[0] == t[j as int]);
            }
            assert(signed == (se.len() > 0 && (se[0] == '+' || se[0] == '-')));
        }
        eneg = signed && cs[j] == '-';
        let dstart = if signed {
            j + 1
        } else {
            j
        };
        let ghost ds = if signed {
            se.skip(1)
        } else {
            se
        };
        proof {
            assert(ds =~= t.subrange(dstart as int, n as int));
        }
        if !check_digits(cs, dstart, n) {
            proof {
                assert(spec_exp(se) is None);
                assert(!parts.ok);
            }
            return None;
        }
        ev = dv_range(cs, dstart, n);
        proof {
            assert(spec_exp(se) == Some(if eneg { -(dv(ds) as int) } else { dv(ds) as int }));
        }
    }
    // Mantissa.
    let neg = 0 < me && cs[0] == '-';
    proof {
        let mant = t.take(me as int);
        if me > 0 {
            assert(mant[0] == t[0]);
        }
        assert(neg == parts.neg);
    }
    let s0: usize = if neg {
        1
    } else {
        0
    };
    let ghost um = if parts.neg {
        t.take(me as int).skip(1)
    } else {
        t.take(me as int)
    };
    proof {
        assert(um =~= t.subrange(s0 as int, me as int));
    }
    let md = find_dot(cs, s0, me);
    let has_dot = md < me;
    let ghost ip = um.take(md - s0);
    let ghost fp = if has_dot {
        um.skip(md - s0 + 1)
    } else {
        Seq::<char>::empty()
    };
    proof {
        assert(ip == parts.ip);
        assert(fp == parts.fp);
        assert(ip =~= t.subrange(s0 as int, md as int));
        if has_dot {
            assert(fp =~= t.subrange(md + 1, me as int));
        }
    }
    if !check_digits(cs, s0, md) {
        proof {
            assert(!parts.ok);
        }
        return None;
    }
    if has_dot && !check_digits(cs, md + 1, me) {
        proof {
            assert(!parts.ok);
        }
        return None;
    }
    proof {
        assert(parts.ok);
        assert(numeral_scaled(t, scale as int) == scaled_value(
            parts.neg,
            parts.ip,
            parts.fp,
            parts.exp + scale,
        ));
    }

    // The digit string `ip + fp`.
    let mut dvec: Vec<char> = Vec::new();
    let mut i: usize = s0;
    while i < md
        invariant
            s0 <= i <= md <= cs.len(),
            ip == cs@.subrange(s0 as int, md as int),
            dvec@ =~= cs@.subrange(s0 as int, i as int),
        decreases md - i,
    {
        dvec.push(cs[i]);
        i = i + 1;
    }
    proof {
        assert(dvec@ =~= ip);
    }
    if has_dot {
        let mut k: usize = md + 1;
        while k < me
            invariant
                md + 1 <= k <= me <= cs.len(),
                fp == cs@.subrange(md + 1, me as int),
                ip == cs@.subrange(s0 as int, md as int),
                dvec@ =~= ip + cs@.subrange(md + 1, k as int),
            decreases me - k,
        {
            dvec.push(cs[k]);
            k = k + 1;
        }
    }
    let ghost d = parts.ip + parts.fp;
    proof {
        assert(dvec@ =~= d);
        assert(all_digits(d)) by {
            assert forall|q: int| 0 <= q < d.len() implies is_digit(#[trigger] d[q]) by {
                if q < ip.len() {
                    assert(d[q] == ip[q]);
                } else {
                    assert(d[q] == fp[q - ip.len()]);
                }
            }
        }
    }
    let dn = dvec.len();
    let ghost pt = parts.ip.len() + parts.exp + scale;
    proof {
        assert(numeral_scaled(t, scale as int) == point_value(parts.neg, d, pt));
    }

    // Clamp the point position to a machine integer that preserves the branch
    // `point_value` takes and, below twenty-one places past the digits, the
    // exact offset.
    let p_i: i128;
    if has_e && ev == SAT {
        proof {
            if eneg {
                assert(parts.exp <= -(SAT as int));
                assert(pt <= 0);
            } else {
                assert(parts.exp >= SAT as int);
                assert(pt - d.len() >= 21);
            }
        }
        p_i = if eneg {
            -1
        } else {
            dn as i128 + 21
        };
    } else {
        let exp_i: i128 = if eneg {
            -(ev as i128)
        } else {
            ev as i128
        };
        proof {
            assert(exp_i == parts.exp);
        }
        p_i = (md - s0) as i128 + exp_i + scale as i128;
        proof {
            assert(p_i == pt);
        }
    }
    eval_point(&dvec, neg, p_i, Ghost(pt))
}

/// Decide `point_value` for the digit string `dvec` and point position `pt`,
/// with `pt` clamped into `p_i` in a branch-preserving way.
fn eval_point(dvec: &Vec<char>, neg: bool, p_i: i128, Ghost(pt): Ghost<int>) -> (r: Option<
    (bool, u64),
>)
    requires
        all_digits(dvec@),
        (pt <= 0) == (p_i <= 0),
        (0 < pt < dvec@.len()) ==> p_i == pt,
        (pt >= dvec@.len()) == (p_i >= dvec@.len()),
        pt >= dvec@.len() ==> (p_i - dvec@.len() == pt - dvec@.len() || (p_i - dvec@.len() >= 21
            && pt - dvec@.len() >= 21)),
    ensures
        match point_value(neg, dvec@, pt) {
            Some(sp) => if sp.1 <= u64::MAX {
                r == Some((sp.0, sp.1 as u64))
            } else {
                r is None
            },
            None => r is None,
        },
{
    let ghost d = dvec@;
    let dn = dvec.len();
    if p_i <= 0 {
        let zz = range_all_zeros(dvec, 0, dn);
        proof {
            assert(dvec@.subrange(0, dn as int) =~= d);
            lemma_dv_zero_iff(d);
        }
        if zz {
            Some((false, 0))
        } else {
            None
        }
    } else if p_i >= dn as i128 {
        point_high(dvec, neg, p_i, Ghost(pt))
    } else {
        point_mid(dvec, neg, p_i as usize)
    }
}

/// `point_value` when the point lies at or past the end of the digits: the
/// digits are padded with `pt - len` zeros.
fn point_high(dvec: &Vec<char>, neg: bool, p_i: i128, Ghost(pt): Ghost<int>) -> (r: Option<
    (bool, u64),
>)
    requires
        all_digits(dvec@),
        pt >= dvec@.len(),
        p_i >= dvec@.len(),
        p_i - dvec@.len() == pt - dvec@.len() || (p_i - dvec@.len() >= 21 && pt - dvec@.len()
            >= 21),
    ensures
        match point_value(neg, dvec@, pt) {
            Some(sp) => if sp.1 <= u64::MAX {
                r == Some((sp.0, sp.1 as u64))
            } else {
                r is None
            },
            None => r is None,
        },
{
    let ghost d = dvec@;
    let ghost extra = (pt - d.len()) as nat;
    let dn = dvec.len();
    let z = count_leading_zeros(dvec, 0, dn);
    proof {
        assert(dvec@.subrange(0, dn as int) =~= d);
        lemma_dv_zero_iff(d);
    }
    if z == dn {
        proof {
            assert(all_zeros(d));
            assert(dv(d) == 0);
        }
        return Some((false, 0));
    }
    let ghost sig = d.skip(z as int);
    proof {
        assert(sig =~= dvec@.subrange(z as int, dn as int));
        lemma_dv_skip_zeros(d, z as int);
        assert(all_digits(sig)) by {
            assert(forall|q: int| 0 <= q < sig.len() ==> #[trigger] sig[q] == d[q + z]);
        }
        assert(sig[0] == d[z as int]);
        lemma_dv_lower(sig);
        lemma_dv_upper(sig);
    }
    let sig_len = dn - z;
    let extra_i = p_i - dn as i128;
    if extra_i > 20 || sig_len as i128 + extra_i > 20 {
        proof {
            assert(sig_len + extra >= 21);
            lemma_pow_adds(10, (sig_len - 1) as nat, extra);
            lemma_pow_positive(10, extra);
            lemma_mul_inequality(pow(10, (sig_len - 1) as nat), dv(d) as int, pow(10, extra));
            lemma_pow_increases(10, 20, (sig_len - 1 + extra) as nat);
            lemma_pow10_values();
            assert((dv(d) * pow(10, extra)) as int > u64::MAX as int);
        }
        return None;
    }
    let extra_e = extra_i as usize;
    proof {
        assert(extra_e == extra);
        assert(sig_len + extra <= 20);
        lemma_pow_increases(10, sig_len as nat, 20);
        lemma_pow10_values();
    }
    let v = dv_range(dvec, z, dn);
    proof {
        assert(dv(sig) < pow(10, sig_len as nat));
        assert(v == dv(sig));
    }
    let mult = tenpow(extra_e);
    proof {
        lemma_pow_adds(10, sig_len as nat, extra);
        lemma_pow_increases(10, (sig_len + extra) as nat, 20);
        lemma_pow10_values();
        lemma_pow_positive(10, extra);
        assert((v as int) * (mult as int) < pow(10, sig_len as nat) * pow(10, extra))
            by (nonlinear_arith)
            requires
                0 <= (v as int) < pow(10, sig_len as nat),
                (mult as int) == pow(10, extra),
                pow(10, extra) > 0,
        {
        }
        assert(pow(10, sig_len as nat) * pow(10, extra) <= SAT as int);
    }
    let m = v * mult;
    proof {
        assert(m == dv(d) * pow(10, extra));
    }
    if m <= u64::MAX as u128 {
        Some((neg && m != 0, m as u64))
    } else {
        None
    }
}

/// `point_value` when the point falls inside the digit string: the digits
/// after it must all be zero.
fn point_mid(dvec: &Vec<char>, neg: bool, p: usize) -> (r: Option<(bool, u64)>)
    requires
        all_digits(dvec@),
        0 < p < dvec@.len(),
    ensures
        match point_value(neg, dvec@, p as int) {
            Some(sp) => if sp.1 <= u64::MAX {
                r == Some((sp.0, sp.1 as u64))
            } else {
                r is None
            },
            None => r is None,
        },
{
    let ghost d = dvec@;
    let dn = dvec.len();
    proof {
        assert(d.skip(p as int) =~= dvec@.subrange(p as int, dn as int));
        assert(all_digits(d.skip(p as int))) by {
            assert(forall|q: int|
                0 <= q < d.skip(p as int).len() ==> #[trigger] d.skip(p as int)[q] == d[q + p]);
        }
        lemma_dv_zero_iff(d.skip(p as int));
    }
    if !range_all_zeros(dvec, p, dn) {
        return None;
    }
    let ghost head = d.take(p as int);
    proof {
        assert(head =~= dvec@.subrange(0, p as int));
        assert(all_digits(head)) by {
            assert(forall|q: int| 0 <= q < head.len() ==> #[trigger] head[q] == d[q]);
        }
    }
    let z = count_leading_zeros(dvec, 0, p);
    if z == p {
        proof {
            assert(all_zeros(head));
            lemma_dv_zero_iff(head);
        }
        return Some((false, 0));
    }
    let ghost sig = head.skip(z as int);
    proof {
        assert(sig =~= dvec@.subrange(z as int, p as int));
        lemma_dv_skip_zeros(head, z as int);
        assert(all_digits(sig)) by {
            assert(forall|q: int| 0 <= q < sig.len() ==> #[trigger] sig[q] == head[q + z]);
        }
        assert(sig[0] == head[z as int]);
        lemma_dv_lower(sig);
        lemma_dv_upper(sig);
    }
    let sig_len = p - z;
    if sig_len > 20 {
        proof {
            lemma_pow_increases(10, 20, (sig_len - 1) as nat);
            lemma_pow10_values();
        }
        return None;
    }
    proof {
        lemma_pow_increases(10, sig_len as nat, 20);
        lemma_pow10_values();
    }
    let v = dv_range(dvec, z, p);
    proof {
        assert(dv(sig) < pow(10, sig_len as nat));
        assert(v == dv(sig));
    }
    if v <= u64::MAX as u128 {
        Some((neg && v != 0, v as u64))
    } else {
        None
    }
}

/// The numeral `s` as picodollars: `pico_of(s@)`.
pub fn parse_pico(s: &str) -> (r: Option<u64>)
    ensures
        r == pico_of(s@),
{
    let cs = chars_of(s);
    match eval_scaled(&cs, 12) {
        Some(sv) => if sv.0 {
            None
        } else {
            Some(sv.1)
        },
        None => None,
    }
}

/// The numeral `s` as a signed integer: `int_of(s@)`.
pub fn parse_int64(s: &str) -> (r: Option<i64>)
    ensures
        r == int_of(s@),
{
    let cs = chars_of(s);
    match eval_scaled(&cs, 0) {
        Some(sv) => if sv.0 {
            if sv.1 <= 0x8000_0000_0000_0000 {
                Some((-(sv.1 as i128)) as i64)
            } else {
                None
            }
        } else {
            if sv.1 <= i64::MAX as u64 {
                Some(sv.1 as i64)
            } else {
                None
            }
        },
        None => None,
    }
}

} // verus!
