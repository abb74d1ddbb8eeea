use vstd::prelude::*;

verus! {

/// Prices and quantities are fixed-point numbers with this many units per whole one
/// (eight decimal places).
pub const SCALE: u64 = 100_000_000;

/// The decimal places of a fixed-point number.
pub const FRACTION_DIGITS: u64 = 8;

pub open spec fn is_digit(c: char) -> bool {
    '0' <= c && c <= '9'
}

pub open spec fn digit_value(c: char) -> nat {
    (c as int - '0' as int) as nat
}

pub open spec fn all_digits(s: Seq<char>) -> bool {
    forall|i: int| 0 <= i < s.len() ==> is_digit(#[trigger] s[i])
}

/// The number that a string of decimal digits writes.
pub open spec fn digits_value(s: Seq<char>) -> nat
    decreases s.len(),
{
    if s.len() == 0 {
        0
    } else {
        digits_value(s.drop_last()) * 10 + digit_value(s.last())
    }
}

pub open spec fn pow10(n: nat) -> nat
    decreases n,
{
    if n == 0 {
        1
    } else {
        10 * pow10((n - 1) as nat)
    }
}

/// How many digits stand in a row in `s` from index `i`.
pub open spec fn digit_run(s: Seq<char>, i: int) -> nat
    decreases s.len() - i,
{
    if 0 <= i < s.len() && is_digit(s[i]) {
        1 + digit_run(s, i + 1)
    } else {
        0
    }
}

// The layout of a number as floating-point parsing reads it: an optional sign, digits, an
// optional `.` and digits, and an optional exponent (`e` or `E`, an optional sign, digits).
// Each part is read as far as it goes; the functions below give where each part ends.
pub open spec fn sign_end(s: Seq<char>) -> int {
    if s.len() > 0 && (s[0] == '+' || s[0] == '-') {
        1
    } else {
        0
    }
}

pub open spec fn whole_end(s: Seq<char>) -> int {
    sign_end(s) + digit_run(s, sign_end(s))
}

pub open spec fn has_dot(s: Seq<char>) -> bool {
    whole_end(s) < s.len() && s[whole_end(s)] == '.'
}

pub open spec fn frac_start(s: Seq<char>) -> int {
    if has_dot(s) {
        whole_end(s) + 1
    } else {
        whole_end(s)
    }
}

pub open spec fn frac_end(s: Seq<char>) -> int {
    frac_start(s) + if has_dot(s) {
        digit_run(s, frac_start(s)) as int
    } else {
        0
    }
}

pub open spec fn has_exp(s: Seq<char>) -> bool {
    frac_end(s) < s.len() && (s[frac_end(s)] == 'e' || s[frac_end(s)] == 'E')
}

pub open spec fn exp_start(s: Seq<char>) -> int {
    if has_exp(s) {
        if frac_end(s) + 1 < s.len() && (s[frac_end(s) + 1] == '+' || s[frac_end(s) + 1] == '-') {
            frac_end(s) + 2
        } else {
            frac_end(s) + 1
        }
    } else {
        frac_end(s)
    }
}

pub open spec fn exp_end(s: Seq<char>) -> int {
    exp_start(s) + if has_exp(s) {
        digit_run(s, exp_start(s)) as int
    } else {
        0
    }
}

/// Whether `s` is a number in that layout: at least one digit before the exponent, at least
/// one digit in the exponent where there is one, and nothing after.
pub open spec fn well_formed(s: Seq<char>) -> bool {
    &&& (whole_end(s) - sign_end(s)) + (frac_end(s) - frac_start(s)) > 0
    &&& has_exp(s) ==> exp_end(s) > exp_start(s)
    &&& exp_end(s) == s.len()
}

pub open spec fn is_negative(s: Seq<char>) -> bool {
    sign_end(s) == 1 && s[0] == '-'
}

/// The digits of the number without its `.`.
pub open spec fn mantissa(s: Seq<char>) -> Seq<char> {
    s.subrange(sign_end(s), whole_end(s)) + s.subrange(frac_start(s), frac_end(s))
}

pub open spec fn exponent(s: Seq<char>) -> int {
    let e = digits_value(s.subrange(exp_start(s), exp_end(s)));
    if has_exp(s) && exp_start(s) == frac_end(s) + 2 && s[frac_end(s) + 1] == '-' {
        -e
    } else {
        e as int
    }
}

/// The power of ten by which the mantissa is taken to count units of `1 / SCALE`.
pub open spec fn shift(s: Seq<char>) -> int {
    FRACTION_DIGITS + exponent(s) - (frac_end(s) - frac_start(s))
}

/// `d * 10^k`, where that is a whole number.
pub open spec fn scaled(d: nat, k: int) -> Option<nat> {
    if k >= 0 {
        Some(d * pow10(k as nat))
    } else if d % pow10((-k) as nat) == 0 {
        Some(d / pow10((-k) as nat))
    } else {
        None
    }
}

/// The value, in units of `1 / SCALE`, of the number that `s` writes, where `s` is a number
/// as floating-point parsing reads it and its value is a whole number of units and not below
/// zero. Refused are: any other text (`inf` and `NaN` among them), negative values, and values
/// that are not a whole number of units (more than eight decimal places that are not zeros).
pub open spec fn decimal_value(s: Seq<char>) -> Option<nat> {
    if !well_formed(s) {
        None
    } else {
        match scaled(digits_value(mantissa(s)), shift(s)) {
            Some(u) => if is_negative(s) && u > 0 {
                None
            } else {
                Some(u)
            },
            None => None,
        }
    }
}

/// The fixed-point number that `s` writes, where it writes one that fits in `u64`.
pub open spec fn fixed_value(s: Seq<char>) -> Option<u64> {
    match decimal_value(s) {
        Some(v) => if v <= u64::MAX {
            Some(v as u64)
        } else {
            None
        },
        None => None,
    }
}

/// An amount of units as `u64`, where it fits.
pub open spec fn fitted(o: Option<nat>) -> Option<u64> {
    match o {
        Some(v) => if v <= u64::MAX {
            Some(v as u64)
        } else {
            None
        },
        None => None,
    }
}

proof fn lemma_digits_value_prefix(s: Seq<char>, j: int)
    requires
        0 <= j <= s.len(),
    ensures
        digits_value(s.take(j)) <= digits_value(s),
    decreases s.len(),
{
    if j < s.len() {
        lemma_digits_value_prefix(s.drop_last(), j);
        assert(s.drop_last().take(j) =~= s.take(j));
    } else {
        assert(s.take(j) =~= s);
    }
}

proof fn lemma_digits_value_push(s: Seq<char>, c: char)
    ensures
        digits_value(s.push(c)) == digits_value(s) * 10 + digit_value(c),
{
    assert(s.push(c).drop_last() =~= s);
}

proof fn lemma_pow10_pos(n: nat)
    ensures
        pow10(n) >= 1,
    decreases n,
{
    if n > 0 {
        lemma_pow10_pos((n - 1) as nat);
    }
}

proof fn lemma_pow10_add(a: nat, b: nat)
    ensures
        pow10(a + b) == pow10(a) * pow10(b),
    decreases a,
{
    if a > 0 {
        let a1 = (a - 1) as nat;
        lemma_pow10_add(a1, b);
        assert((a + b - 1) as nat == a1 + b);
        assert(pow10(a + b) == 10 * pow10(a1 + b));
        assert(pow10(a) == 10 * pow10(a1));
        let p = pow10(a1);
        let q = pow10(b);
        assert(10 * (p * q) == (10 * p) * q) by (nonlinear_arith);
    } else {
        assert(pow10(0) == 1);
        assert(a + b == b);
        assert(1 * pow10(b) == pow10(b));
    }
}

proof fn lemma_pow10_mono(a: nat, b: nat)
    requires
        a <= b,
    ensures
        pow10(a) <= pow10(b),
{
    lemma_pow10_add(a, (b - a) as nat);
    lemma_pow10_pos((b - a) as nat);
    let p = pow10(a);
    let q = pow10((b - a) as nat);
    assert(p <= p * q) by (nonlinear_arith)
        requires
            q >= 1,
    ;
}

proof fn lemma_pow10_twenty()
    ensures
        pow10(20) > u64::MAX,
{
    reveal_with_fuel(pow10, 21);
    assert(pow10(20) == 100000000000000000000);
}

proof fn lemma_digits_value_bound(t: Seq<char>)
    requires
        all_digits(t),
    ensures
        digits_value(t) < pow10(t.len()),
    decreases t.len(),
{
    if t.len() > 0 {
        let p = t.drop_last();
        assert(all_digits(p)) by {
            assert forall|i: int| 0 <= i < p.len() implies is_digit(#[trigger] p[i]) by {
                assert(p[i] == t[i]);
            }
        }
        lemma_digits_value_bound(p);
        assert(is_digit(t[t.len() - 1]));
        let a = digits_value(p);
        let c = digit_value(t.last());
        let q = pow10(p.len());
        assert(pow10(t.len()) == 10 * q);
        assert(a * 10 + c < 10 * q) by (nonlinear_arith)
            requires
                a < q,
                c <= 9,
        ;
    }
}

proof fn lemma_digits_value_zero(t: Seq<char>)
    requires
        all_digits(t),
    ensures
        (digits_value(t) == 0) == (forall|i: int| 0 <= i < t.len() ==> #[trigger] t[i] == '0'),
    decreases t.len(),
{
    if t.len() > 0 {
        let p = t.drop_last();
        assert(all_digits(p)) by {
            assert forall|i: int| 0 <= i < p.len() implies is_digit(#[trigger] p[i]) by {
                assert(p[i] == t[i]);
            }
        }
        lemma_digits_value_zero(p);
        assert(is_digit(t[t.len() - 1]));
        if forall|i: int| 0 <= i < t.len() ==> #[trigger] t[i] == '0' {
            assert forall|i: int| 0 <= i < p.len() implies #[trigger] p[i] == '0' by {
                assert(p[i] == t[i]);
            }
            assert(t[t.len() - 1] == '0');
        }
        if digits_value(t) == 0 {
            assert(digits_value(p) == 0);
            assert(digit_value(t.last()) == 0);
            assert forall|i: int| 0 <= i < t.len() implies #[trigger] t[i] == '0' by {
                if i < p.len() {
                    assert(p[i] == t[i]);
                }
            }
        }
    }
}

/// The value of a digit string is that of its first `p` digits, shifted, plus that of the
/// rest.
proof fn lemma_digits_value_split(s: Seq<char>, p: int)
    requires
        0 <= p <= s.len(),
    ensures
        digits_value(s) == digits_value(s.take(p)) * pow10((s.len() - p) as nat) + digits_value(
            s.skip(p),
        ),
    decreases s.len(),
{
    if p == s.len() {
        assert(s.take(p) =~= s);
        assert(s.skip(p) =~= Seq::<char>::empty());
        assert(digits_value(s.skip(p)) == 0);
        assert(pow10((s.len() - p) as nat) == 1);
        assert(digits_value(s) * 1 == digits_value(s));
    } else {
        let q = s.drop_last();
        lemma_digits_value_split(q, p);
        assert(q.take(p) =~= s.take(p));
        assert(s.skip(p).drop_last() =~= q.skip(p));
        assert(s.skip(p).last() == s.last());
        let a = digits_value(s.take(p));
        let b = digits_value(q.skip(p));
        let c = digit_value(s.last());
        let m = pow10((q.len() - p) as nat);
        assert(digits_value(s) == digits_value(q) * 10 + c);
        assert(s.skip(p).len() > 0);
        assert(digits_value(s.skip(p)) == digits_value(s.skip(p).drop_last()) * 10 + digit_value(
            s.skip(p).last(),
        ));
        assert(digits_value(s.skip(p)) == b * 10 + c);
        assert(((s.len() - p) as nat - 1) as nat == (q.len() - p) as nat);
        assert(pow10((s.len() - p) as nat) == 10 * m);
        assert(digits_value(q) == a * m + b);
        assert((a * m + b) * 10 + c == a * (10 * m) + (b * 10 + c)) by (nonlinear_arith);
    }
}

/// Where the mantissa is shifted so far that its value is surely too large, or surely below
/// one unit, only a zero mantissa gives a number.
proof fn lemma_shift_beyond(m: Seq<char>, k: int)
    requires
        all_digits(m),
        k >= 20 || -k >= m.len(),
    ensures
        fitted(scaled(digits_value(m), k)) == (if digits_value(m) == 0 {
            Some(0u64)
        } else {
            None
        }),
{
    let d = digits_value(m);
    if k >= 20 {
        lemma_pow10_mono(20, k as nat);
        lemma_pow10_twenty();
        let p = pow10(k as nat);
        if d > 0 {
            assert(d * p >= p) by (nonlinear_arith)
                requires
                    d >= 1,
            ;
        } else {
            assert(d * p == 0) by (nonlinear_arith)
                requires
                    d == 0,
            ;
        }
    } else {
        let j = (-k) as nat;
        lemma_digits_value_bound(m);
        lemma_pow10_mono(m.len(), j);
        vstd::arithmetic::div_mod::lemma_fundamental_div_mod_converse(
            d as int,
            pow10(j) as int,
            0,
            d as int,
        );
    }
}

pub fn is_digit_char(c: char) -> (r: bool)
    ensures
        r == is_digit(c),
{
    '0' <= c && c <= '9'
}

fn digit_of(c: char) -> (r: Option<u64>)
    ensures
        r is Some == is_digit(c),
        r matches Some(d) ==> d == digit_value(c) && d < 10,
{
    if '0' <= c && c <= '9' {
        Some((c as u32 - '0' as u32) as u64)
    } else {
        None
    }
}

/// Where the digits that stand in a row in `s` from `i` end.
fn digit_run_end(s: &str, n: usize, i: usize) -> (j: usize)
    requires
        n == s@.len(),
        i <= n,
    ensures
        j == i + digit_run(s@, i as int),
        j <= n,
        forall|k: int| i <= k < j ==> is_digit(#[trigger] s@[k]),
{
    let mut j = i;
    while j < n && is_digit_char(s.get_char(j))
        invariant
            n == s@.len(),
            i <= j <= n,
            digit_run(s@, i as int) == (j - i) + digit_run(s@, j as int),
            forall|k: int| i <= k < j ==> is_digit(#[trigger] s@[k]),
        decreases n - j,
    {
        j = j + 1;
    }
    j
}

/// The value of the first `p` digits of `m`, where it fits in `u64`.
fn prefix_value(m: &Vec<char>, p: usize) -> (r: Option<u64>)
    requires
        all_digits(m@),
        p <= m@.len(),
    ensures
        match r {
            Some(v) => v == digits_value(m@.take(p as int)),
            None => digits_value(m@.take(p as int)) > u64::MAX,
        },
{
    let mut acc: u64 = 0;
    let mut i: usize = 0;
    while i < p
        invariant
            all_digits(m@),
            p <= m@.len(),
            i <= p,
            acc == digits_value(m@.take(i as int)),
        decreases p - i,
    {
        let c = m[i];
        assert(is_digit(m@[i as int]));
        let d = match digit_of(c) {
            Some(d) => d,
            None => 0,
        };
        proof {
            assert(m@.take(i + 1) =~= m@.take(i as int).push(c));
            lemma_digits_value_push(m@.take(i as int), c);
        }
        if acc > (u64::MAX - d) / 10 {
            proof {
                assert(acc * 10 + d > u64::MAX) by (nonlinear_arith)
                    requires
                        acc > (u64::MAX - d) / 10,
                        d < 10,
                ;
                assert(m@.take(p as int).take(i + 1) =~= m@.take(i + 1));
                lemma_digits_value_prefix(m@.take(p as int), i + 1);
            }
            return None;
        }
        assert(acc * 10 + d <= u64::MAX) by (nonlinear_arith)
            requires
                acc <= (u64::MAX - d) / 10,
                d < 10,
        ;
        acc = acc * 10 + d;
        i = i + 1;
    }
    Some(acc)
}

/// Whether the digits of `m` from `lo` to its end are all zeros.
fn zeros_from(m: &Vec<char>, lo: usize) -> (r: bool)
    requires
        lo <= m@.len(),
    ensures
        r == (forall|i: int| lo <= i < m@.len() ==> #[trigger] m@[i] == '0'),
{
    let mut i = lo;
    while i < m.len()
        invariant
            lo <= i <= m@.len(),
            forall|k: int| lo <= k < i ==> #[trigger] m@[k] == '0',
        decreases m@.len() - i,
    {
        if m[i] != '0' {
            return false;
        }
        i = i + 1;
    }
    true
}

/// The digits `m` taken as `d * 10^k` units (see `scaled`), where that is a whole number that
/// fits in `u64`.
fn scale_digits(m: &Vec<char>, k: i128) -> (r: Option<u64>)
    requires
        all_digits(m@),
    ensures
        r == fitted(scaled(digits_value(m@), k as int)),
{
    let ghost d = digits_value(m@);
    let len = m.len();
    if k >= 0 {
        proof {
            assert(m@.take(len as int) =~= m@);
        }
        let acc0 = match prefix_value(m, len) {
            Some(v) => v,
            None => {
                proof {
                    lemma_pow10_pos(k as nat);
                    let p = pow10(k as nat);
                    assert(d * p >= d) by (nonlinear_arith)
                        requires
                            p >= 1,
                    ;
                }
                return None;
            },
        };
        assert(acc0 == d);
        assert(pow10(0) == 1);
        assert(d * pow10(0) == d);
        if acc0 == 0 {
            assert(d * pow10(k as nat) == 0);
            return Some(0);
        }
        let mut acc: u64 = acc0;
        let mut t: i128 = 0;
        while t < k
            invariant
                0 <= t <= k,
                d == digits_value(m@),
                d >= 1,
                acc as nat == d * pow10(t as nat),
            decreases k - t,
        {
            if acc > u64::MAX / 10 {
                proof {
                    lemma_pow10_add(t as nat, (k - t) as nat);
                    lemma_pow10_mono(1, (k - t) as nat);
                    let a = acc as nat;
                    let p = pow10(t as nat);
                    let q = pow10((k - t) as nat);
                    reveal_with_fuel(pow10, 2);
                    assert(pow10(1) == 10);
                    assert(d * (p * q) == a * q) by (nonlinear_arith)
                        requires
                            a == d * p,
                    ;
                    assert(a * q >= a * 10) by (nonlinear_arith)
                        requires
                            q >= 10,
                    ;
                    assert(t as nat + (k - t) as nat == k as nat);
                    assert(pow10(k as nat) == p * q);
                    assert(a * 10 > u64::MAX) by (nonlinear_arith)
                        requires
                            a > u64::MAX / 10,
                    ;
                    assert(d * pow10(k as nat) > u64::MAX);
                }
                return None;
            }
            proof {
                let p = pow10(t as nat);
                assert(pow10((t + 1) as nat) == 10 * p);
                assert(d * (10 * p) == (d * p) * 10) by (nonlinear_arith);
            }
            acc = acc * 10;
            t = t + 1;
        }
        Some(acc)
    } else if k <= -(len as i128) {
        proof {
            lemma_shift_beyond(m@, k as int);
            lemma_digits_value_zero(m@);
        }
        if zeros_from(m, 0) {
            Some(0)
        } else {
            None
        }
    } else {
        let j: usize = (-k) as usize;
        let p: usize = len - j;
        let ghost a = digits_value(m@.take(p as int));
        let ghost b = digits_value(m@.skip(p as int));
        proof {
            let rest = m@.skip(p as int);
            assert(all_digits(rest)) by {
                assert forall|i: int| 0 <= i < rest.len() implies is_digit(#[trigger] rest[i]) by {
                    assert(rest[i] == m@[p + i]);
                }
            }
            lemma_digits_value_split(m@, p as int);
            lemma_digits_value_bound(rest);
            lemma_digits_value_zero(rest);
            assert(rest.len() == j);
            vstd::arithmetic::div_mod::lemma_fundamental_div_mod_converse(
                d as int,
                pow10(j as nat) as int,
                a as int,
                b as int,
            );
            assert((b == 0) == (forall|i: int| p <= i < m@.len() ==> #[trigger] m@[i] == '0')) by {
                if b == 0 {
                    assert forall|i: int| p <= i < m@.len() implies #[trigger] m@[i] == '0' by {
                        assert(rest[i - p] == m@[i]);
                    }
                }
                if forall|i: int| p <= i < m@.len() ==> #[trigger] m@[i] == '0' {
                    assert forall|i: int| 0 <= i < rest.len() implies #[trigger] rest[i] == '0' by {
                        assert(rest[i] == m@[p + i]);
                    }
                }
            }
        }
        if !zeros_from(m, p) {
            return None;
        }
        prefix_value(m, p)
    }
}

/// The exponent written by the digits of `s` from `lo` to `hi`, or `None` where it passes
/// `cap`.
fn exponent_upto(s: &str, lo: usize, hi: usize, cap: u128) -> (r: Option<u128>)
    requires
        lo <= hi <= s@.len(),
        forall|k: int| lo <= k < hi ==> is_digit(#[trigger] s@[k]),
        cap <= 0x1_0000_0000_0000_0000_0000_0000,
    ensures
        match r {
            Some(e) => e == digits_value(s@.subrange(lo as int, hi as int)) && e <= cap,
            None => digits_value(s@.subrange(lo as int, hi as int)) > cap,
        },
{
    let mut e: u128 = 0;
    let mut i = lo;
    while i < hi
        invariant
            lo <= i <= hi <= s@.len(),
            forall|k: int| lo <= k < hi ==> is_digit(#[trigger] s@[k]),
            cap <= 0x1_0000_0000_0000_0000_0000_0000,
            e == digits_value(s@.subrange(lo as int, i as int)),
            e <= cap,
        decreases hi - i,
    {
        let c = s.get_char(i);
        assert(is_digit(s@[i as int]));
        let d: u128 = match digit_of(c) {
            Some(d) => d as u128,
            None => 0,
        };
        proof {
            assert(s@.subrange(lo as int, i + 1) =~= s@.subrange(lo as int, i as int).push(c));
            lemma_digits_value_push(s@.subrange(lo as int, i as int), c);
        }
        let next = e * 10 + d;
        if next > cap {
            proof {
                let whole = s@.subrange(lo as int, hi as int);
                assert(whole.take(i + 1 - lo) =~= s@.subrange(lo as int, i + 1));
                lemma_digits_value_prefix(whole, i + 1 - lo);
            }
            return None;
        }
        e = next;
        i = i + 1;
    }
    Some(e)
}

/// Where the parts of a number end (see `sign_end` and the functions after it).
struct Layout {
    sign_end: usize,
    negative: bool,
    whole_end: usize,
    frac_start: usize,
    frac_end: usize,
    has_exp: bool,
    exp_negative: bool,
    exp_start: usize,
    exp_end: usize,
}

fn layout_of(s: &str) -> (l: Layout)
    ensures
        l.sign_end == sign_end(s@),
        l.negative == is_negative(s@),
        l.whole_end == whole_end(s@),
        l.frac_start == frac_start(s@),
        l.frac_end == frac_end(s@),
        l.has_exp == has_exp(s@),
        l.exp_negative == (has_exp(s@) && exp_start(s@) == frac_end(s@) + 2 && s@[frac_end(s@) + 1]
            == '-'),
        l.exp_start == exp_start(s@),
        l.exp_end == exp_end(s@),
        l.sign_end <= l.whole_end <= l.frac_start <= l.frac_end <= l.exp_start <= l.exp_end <= s@.len(),
        forall|k: int| l.sign_end <= k < l.whole_end ==> is_digit(#[trigger] s@[k]),
        forall|k: int| l.frac_start <= k < l.frac_end ==> is_digit(#[trigger] s@[k]),
        forall|k: int| l.exp_start <= k < l.exp_end ==> is_digit(#[trigger] s@[k]),
{
    let n = s.unicode_len();
    let a: usize = if n > 0 && (s.get_char(0) == '+' || s.get_char(0) == '-') {
        1
    } else {
        0
    };
    let neg = a == 1 && s.get_char(0) == '-';
    let we = digit_run_end(s, n, a);
    let dot = we < n && s.get_char(we) == '.';
    let fs = if dot {
        we + 1
    } else {
        we
    };
    let fe = if dot {
        digit_run_end(s, n, fs)
    } else {
        fs
    };
    let ex = fe < n && (s.get_char(fe) == 'e' || s.get_char(fe) == 'E');
    let mut es = fe;
    let mut eneg = false;
    if ex {
        es = fe + 1;
        if fe + 1 < n {
            let c = s.get_char(fe + 1);
            if c == '+' || c == '-' {
                es = fe + 2;
                eneg = c == '-';
            }
        }
    }
    let ee = if ex {
        digit_run_end(s, n, es)
    } else {
        es
    };
    Layout {
        sign_end: a,
        negative: neg,
        whole_end: we,
        frac_start: fs,
        frac_end: fe,
        has_exp: ex,
        exp_negative: eneg,
        exp_start: es,
        exp_end: ee,
    }
}

/// The digits of `s` from `a` to `we` and from `fs` to `fe`.
fn mantissa_digits(s: &str, a: usize, we: usize, fs: usize, fe: usize) -> (m: Vec<char>)
    requires
        a <= we <= fs <= fe <= s@.len(),
        forall|k: int| a <= k < we ==> is_digit(#[trigger] s@[k]),
        forall|k: int| fs <= k < fe ==> is_digit(#[trigger] s@[k]),
    ensures
        m@ == s@.subrange(a as int, we as int) + s@.subrange(fs as int, fe as int),
        all_digits(m@),
        m@.len() <= s@.len(),
{
    let ghost sv = s@;
    let mut m: Vec<char> = Vec::new();
    let mut i = a;
    while i < we
        invariant
            sv == s@,
            a <= i <= we <= sv.len(),
            m@ == sv.subrange(a as int, i as int),
        decreases we - i,
    {
        m.push(s.get_char(i));
        proof {
            assert(m@ =~= sv.subrange(a as int, i + 1));
        }
        i = i + 1;
    }
    let mut i = fs;
    while i < fe
        invariant
            sv == s@,
            fs <= i <= fe <= sv.len(),
            a <= we <= fs,
            m@ == sv.subrange(a as int, we as int) + sv.subrange(fs as int, i as int),
        decreases fe - i,
    {
        m.push(s.get_char(i));
        proof {
            assert(m@ =~= sv.subrange(a as int, we as int) + sv.subrange(fs as int, i + 1));
        }
        i = i + 1;
    }
    proof {
        assert forall|k: int| 0 <= k < m@.len() implies is_digit(#[trigger] m@[k]) by {
            if k < we - a {
                assert(m@[k] == sv[a + k]);
            } else {
                assert(m@[k] == sv[fs + k - (we - a)]);
            }
        }
    }
    m
}

/// Reads a fixed-point number written as floating-point parsing reads numbers (see
/// `decimal_value`); None where the text writes none, or one that is negative, not a whole
/// number of units, or too large for `u64`.
pub fn parse_fixed(s: &str) -> (r: Option<u64>)
    ensures
        r == fixed_value(s@),
{
    let ghost sv = s@;
    let n = s.unicode_len();
    let l = layout_of(s);
    if (l.whole_end - l.sign_end) + (l.frac_end - l.frac_start) == 0 || (l.has_exp && l.exp_end
        == l.exp_start) || l.exp_end != n {
        return None;
    }
    assert(well_formed(sv));
    let m = mantissa_digits(s, l.sign_end, l.whole_end, l.frac_start, l.frac_end);
    assert(m@ == mantissa(sv));
    let cap: u128 = n as u128 + 40;
    let ghost k_true = shift(sv);
    let units = match exponent_upto(s, l.exp_start, l.exp_end, cap) {
        Some(e) => {
            let f = (l.frac_end - l.frac_start) as i128;
            let k: i128 = if l.exp_negative {
                8 - (e as i128) - f
            } else {
                8 + (e as i128) - f
            };
            assert(k == k_true);
            scale_digits(&m, k)
        },
        None => {
            proof {
                lemma_shift_beyond(m@, k_true);
                lemma_digits_value_zero(m@);
            }
            if zeros_from(&m, 0) {
                Some(0)
            } else {
                None
            }
        },
    };
    match units {
        Some(u) => if l.negative && u > 0 {
            None
        } else {
            Some(u)
        },
        None => None,
    }
}

} // verus!
