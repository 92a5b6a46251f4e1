//! Numbers as the condition engine and the numeric sort see them: an item's
//! text is either an integer literal or a finite decimal literal, and both
//! kinds compare by exact value after numeric promotion.
//!
//! A decimal is kept as an exact scaled integer `mant / 10^scale` with
//! `scale <= 18` and `mant` a signed 64-bit value. Literals outside that
//! range (more than about eighteen significant digits, or magnitudes beyond
//! the scaled-integer range) are treated as unparsable, as is anything that
//! is not finite (`inf`, `NaN`). The exponent part of a literal may carry at
//! most six digits.

use vstd::prelude::*;

verus! {

/// A parsed numeric value: the integer grammar, or the decimal grammar kept
/// as `mant / 10^scale`.
#[derive(Debug, Clone, Copy, PartialEq, Eq, Structural)]
pub enum Num {
    Integer(i64),
    Decimal { mant: i64, scale: u32 },
}

/// The largest supported scale: `10^18` still fits a 64-bit integer.
pub open spec fn max_scale() -> nat {
    18
}

/// `10^e` as a mathematical integer.
pub open spec fn pow10(e: nat) -> int
    decreases e,
{
    if e == 0 {
        1
    } else {
        10 * pow10((e - 1) as nat)
    }
}

pub proof fn lemma_pow10_pos(e: nat)
    ensures
        pow10(e) >= 1,
    decreases e,
{
    if e > 0 {
        lemma_pow10_pos((e - 1) as nat);
    }
}

pub proof fn lemma_pow10_add(a: nat, b: nat)
    ensures
        pow10(a + b) == pow10(a) * pow10(b),
    decreases a,
{
    if a == 0 {
    } else {
        lemma_pow10_add((a - 1) as nat, b);
        assert(pow10(a + b) == 10 * pow10((a + b - 1) as nat));
        assert(10 * (pow10((a - 1) as nat) * pow10(b)) == (10 * pow10((a - 1) as nat)) * pow10(b))
            by (nonlinear_arith);
    }
}

pub proof fn lemma_pow10_18()
    ensures
        pow10(18) == 1000_000_000_000_000_000,
{
    reveal_with_fuel(pow10, 20);
}

pub proof fn lemma_pow10_monotone(a: nat, b: nat)
    requires
        a <= b,
    ensures
        pow10(a) <= pow10(b),
    decreases b,
{
    if a < b {
        lemma_pow10_monotone(a, (b - 1) as nat);
        lemma_pow10_pos((b - 1) as nat);
    }
}

/// `10^e` for the supported scales.
pub fn pow10_u64(e: u32) -> (r: u64)
    requires
        e <= max_scale(),
    ensures
        r as int == pow10(e as nat),
{
    let mut r: u64 = 1;
    let mut i: u32 = 0;
    while i < e
        invariant
            i <= e,
            e <= 18,
            r as int == pow10(i as nat),
        decreases e - i,
    {
        proof {
            lemma_pow10_monotone((i + 1) as nat, 18);
            lemma_pow10_18();
            lemma_pow10_pos(i as nat);
        }
        r = r * 10;
        i = i + 1;
    }
    r
}

/// The numerator of a value's exact rational form.
pub open spec fn mant_of(n: Num) -> int {
    match n {
        Num::Integer(i) => i as int,
        Num::Decimal { mant, .. } => mant as int,
    }
}

/// The power-of-ten denominator exponent of a value's exact rational form.
pub open spec fn scale_of(n: Num) -> nat {
    match n {
        Num::Integer(_) => 0,
        Num::Decimal { scale, .. } => scale as nat,
    }
}

/// Well-formed values keep their scale within the supported range.
pub open spec fn num_wf(n: Num) -> bool {
    scale_of(n) <= max_scale()
}

/// Exact order on values: `a <= b` as rationals, by cross multiplication.
pub open spec fn num_le_spec(a: Num, b: Num) -> bool {
    mant_of(a) * pow10(scale_of(b)) <= mant_of(b) * pow10(scale_of(a))
}

/// Exact equality of values as rationals.
pub open spec fn num_eq_spec(a: Num, b: Num) -> bool {
    mant_of(a) * pow10(scale_of(b)) == mant_of(b) * pow10(scale_of(a))
}

proof fn lemma_i128_product_bounds(m: int, p: int)
    requires
        -0x8000_0000_0000_0000 <= m <= 0x7fff_ffff_ffff_ffff,
        1 <= p <= 1000_000_000_000_000_000,
    ensures
        -0x8000_0000_0000_0000_0000_0000_0000_0000 < m * p
            < 0x8000_0000_0000_0000_0000_0000_0000_0000,
{
    assert(-0x8000_0000_0000_0000_0000_0000_0000_0000 < m * p
        < 0x8000_0000_0000_0000_0000_0000_0000_0000) by (nonlinear_arith)
        requires
            -0x8000_0000_0000_0000 <= m <= 0x7fff_ffff_ffff_ffff,
            1 <= p <= 1000_000_000_000_000_000,
    ;
}

proof fn lemma_pow10_scale_bound(s: nat)
    requires
        s <= max_scale(),
    ensures
        1 <= pow10(s) <= 1000_000_000_000_000_000,
{
    lemma_pow10_pos(s);
    lemma_pow10_monotone(s, 18);
    lemma_pow10_18();
}

/// The two cross products that order a pair of values.
fn cross_products(a: &Num, b: &Num) -> (r: (i128, i128))
    requires
        num_wf(*a),
        num_wf(*b),
    ensures
        r.0 as int == mant_of(*a) * pow10(scale_of(*b)),
        r.1 as int == mant_of(*b) * pow10(scale_of(*a)),
{
    let (ma, sa): (i64, u32) = match *a {
        Num::Integer(i) => (i, 0),
        Num::Decimal { mant, scale } => (mant, scale),
    };
    let (mb, sb): (i64, u32) = match *b {
        Num::Integer(i) => (i, 0),
        Num::Decimal { mant, scale } => (mant, scale),
    };
    let pa = pow10_u64(sa);
    let pb = pow10_u64(sb);
    proof {
        lemma_pow10_scale_bound(sa as nat);
        lemma_pow10_scale_bound(sb as nat);
        lemma_i128_product_bounds(ma as int, pb as int);
        lemma_i128_product_bounds(mb as int, pa as int);
    }
    let x: i128 = (ma as i128) * (pb as i128);
    let y: i128 = (mb as i128) * (pa as i128);
    (x, y)
}

impl Num {
    /// An integer value.
    pub fn from_int(i: i64) -> (r: Num)
        ensures
            r == Num::Integer(i),
    {
        Num::Integer(i)
    }

    /// A decimal value `mant / 10^scale`.
    pub fn from_decimal(mant: i64, scale: u32) -> (r: Num)
        requires
            scale <= max_scale(),
        ensures
            r == (Num::Decimal { mant, scale }),
            num_wf(r),
    {
        Num::Decimal { mant, scale }
    }

    /// Exact `self <= other` on values.
    pub fn le(&self, other: &Num) -> (r: bool)
        requires
            num_wf(*self),
            num_wf(*other),
        ensures
            r == num_le_spec(*self, *other),
    {
        let (x, y) = cross_products(self, other);
        x <= y
    }

    /// Exact value equality, with an integer promoted against a decimal.
    pub fn eq_value(&self, other: &Num) -> (r: bool)
        requires
            num_wf(*self),
            num_wf(*other),
        ensures
            r == num_eq_spec(*self, *other),
    {
        let (x, y) = cross_products(self, other);
        x == y
    }
}

/// The value order is total: one of the two directions always holds.
pub proof fn lemma_num_le_total(a: Num, b: Num)
    ensures
        num_le_spec(a, b) || num_le_spec(b, a),
{
}

/// The value order is transitive.
pub proof fn lemma_num_le_trans(a: Num, b: Num, c: Num)
    requires
        num_le_spec(a, b),
        num_le_spec(b, c),
    ensures
        num_le_spec(a, c),
{
    let ma = mant_of(a);
    let mb = mant_of(b);
    let mc = mant_of(c);
    let pa = pow10(scale_of(a));
    let pb = pow10(scale_of(b));
    let pc = pow10(scale_of(c));
    lemma_pow10_pos(scale_of(a));
    lemma_pow10_pos(scale_of(b));
    lemma_pow10_pos(scale_of(c));
    assert(ma * pc <= mc * pa) by (nonlinear_arith)
        requires
            ma * pb <= mb * pa,
            mb * pc <= mc * pb,
            pa >= 1,
            pb >= 1,
            pc >= 1,
    ;
}

// ------------------------------------------------------------------
// The literal grammar, at the specification level.
// ------------------------------------------------------------------
/// ASCII decimal digits.
pub open spec fn is_digit(c: char) -> bool {
    48 <= c as u32 <= 57
}

/// The numeric value of one digit character.
pub open spec fn digit_val(c: char) -> int {
    c as u32 - 48
}

/// Every character of `s` is a digit.
pub open spec fn all_digits(s: Seq<char>) -> bool {
    forall|i: int| 0 <= i < s.len() ==> is_digit(#[trigger] s[i])
}

/// The value of a digit string, most significant digit first; empty is zero.
pub open spec fn digits_val(s: Seq<char>) -> int
    decreases s.len(),
{
    if s.len() == 0 {
        0
    } else {
        digits_val(s.drop_last()) * 10 + digit_val(s.last())
    }
}

pub proof fn lemma_digits_val_nonneg(s: Seq<char>)
    requires
        all_digits(s),
    ensures
        digits_val(s) >= 0,
    decreases s.len(),
{
    if s.len() > 0 {
        assert(all_digits(s.drop_last())) by {
            assert(forall|i: int| 0 <= i < s.len() - 1 ==> is_digit(#[trigger] s.drop_last()[i]));
        }
        lemma_digits_val_nonneg(s.drop_last());
        assert(is_digit(s.last()));
    }
}

/// A longer digit prefix never has a smaller value.
pub proof fn lemma_digits_val_monotone(s: Seq<char>, k: int)
    requires
        all_digits(s),
        0 <= k <= s.len(),
    ensures
        digits_val(s.take(k)) <= digits_val(s),
    decreases s.len() - k,
{
    if k < s.len() {
        lemma_digits_val_monotone(s, k + 1);
        let t = s.take(k + 1);
        assert(t.drop_last() =~= s.take(k));
        assert(all_digits(s.take(k + 1))) by {
            assert(forall|i: int| 0 <= i < k + 1 ==> is_digit(#[trigger] s.take(k + 1)[i]));
        }
        lemma_digits_val_nonneg(t.drop_last());
        assert(is_digit(t.last()));
        assert(digits_val(t) == digits_val(t.drop_last()) * 10 + digit_val(t.last()));
        assert(digits_val(t.drop_last()) * 10 >= digits_val(t.drop_last())) by (nonlinear_arith)
            requires
                digits_val(t.drop_last()) >= 0,
        ;
    } else {
        assert(s.take(k) =~= s);
    }
}

/// The number of leading digit characters.
pub open spec fn digits_prefix_len(s: Seq<char>) -> int
    decreases s.len(),
{
    if s.len() == 0 || !is_digit(s[0]) {
        0
    } else {
        1 + digits_prefix_len(s.drop_first())
    }
}

pub proof fn lemma_digits_prefix_len_bounds(s: Seq<char>)
    ensures
        0 <= digits_prefix_len(s) <= s.len(),
        all_digits(s.take(digits_prefix_len(s))),
        digits_prefix_len(s) < s.len() ==> !is_digit(s[digits_prefix_len(s)]),
        forall|i: int| 0 <= i < digits_prefix_len(s) ==> is_digit(#[trigger] s[i]),
    decreases s.len(),
{
    if s.len() == 0 || !is_digit(s[0]) {
    } else {
        lemma_digits_prefix_len_bounds(s.drop_first());
        let p = digits_prefix_len(s);
        assert forall|i: int| 1 <= i < p implies is_digit(#[trigger] s[i]) by {
            assert(is_digit(s.drop_first()[i - 1]));
            assert(s.drop_first()[i - 1] == s[i]);
        }
        assert(forall|i: int| 0 <= i < p ==> is_digit(#[trigger] s[i]));
        assert(all_digits(s.take(p)));
        if p < s.len() {
            assert(s.drop_first()[p - 1] == s[p]);
        }
    }
}

/// Trailing zeros of a digit string carry no value; drop them.
pub open spec fn strip_trailing_zeros(s: Seq<char>) -> Seq<char>
    decreases s.len(),
{
    if s.len() > 0 && s.last() == '0' {
        strip_trailing_zeros(s.drop_last())
    } else {
        s
    }
}

/// The sign prefix and the rest of a literal.
pub open spec fn sign_split(s: Seq<char>) -> (bool, Seq<char>) {
    if s.len() > 0 && (s[0] == '+' || s[0] == '-') {
        (s[0] == '-', s.drop_first())
    } else {
        (false, s)
    }
}

/// The integer grammar: an optional sign and one or more digits.
pub open spec fn is_int_literal(s: Seq<char>) -> bool {
    let (_, d) = sign_split(s);
    d.len() > 0 && all_digits(d)
}

/// The signed value of an integer literal.
pub open spec fn int_literal_val(s: Seq<char>) -> int {
    let (neg, d) = sign_split(s);
    if neg {
        -digits_val(d)
    } else {
        digits_val(d)
    }
}

/// What the integer grammar yields: the value when it is in 64-bit range.
pub open spec fn parse_int_spec(s: Seq<char>) -> Option<i64> {
    if is_int_literal(s) && i64::MIN <= int_literal_val(s) <= i64::MAX {
        Some(int_literal_val(s) as i64)
    } else {
        None
    }
}

/// The decimal grammar split into sign, integer digits, fraction digits and
/// signed exponent. `None` when the text is not a decimal literal.
pub open spec fn dec_parts(s: Seq<char>) -> Option<(bool, Seq<char>, Seq<char>, int)> {
    let (neg, r0) = sign_split(s);
    let n1 = digits_prefix_len(r0);
    let d1 = r0.take(n1);
    let r1 = r0.skip(n1);
    if r1.len() > 0 && r1[0] == '.' {
        let r2 = r1.drop_first();
        let n2 = digits_prefix_len(r2);
        let d2 = r2.take(n2);
        let r3 = r2.skip(n2);
        if d1.len() + d2.len() == 0 {
            None
        } else {
            match exp_part(r3) {
                Some(e) => Some((neg, d1, d2, e)),
                None => None,
            }
        }
    } else {
        if d1.len() == 0 {
            None
        } else {
            match exp_part(r1) {
                Some(e) => Some((neg, d1, Seq::empty(), e)),
                None => None,
            }
        }
    }
}

/// The exponent tail: empty means zero; otherwise `e`/`E`, an optional sign
/// and one to six digits reaching the end of the text.
pub open spec fn exp_part(s: Seq<char>) -> Option<int> {
    if s.len() == 0 {
        Some(0)
    } else if s[0] == 'e' || s[0] == 'E' {
        let (neg, d) = sign_split(s.drop_first());
        if 1 <= d.len() <= 6 && all_digits(d) {
            if neg {
                Some(-digits_val(d))
            } else {
                Some(digits_val(d))
            }
        } else {
            None
        }
    } else {
        None
    }
}

/// Turns an unsigned mantissa, a fraction length and an exponent into the
/// normalized decimal value, or `None` where the exact range is left.
pub open spec fn dec_assemble(neg: bool, m0: int, frac_len: int, e: int) -> Option<Num> {
    let mv = if neg {
        -m0
    } else {
        m0
    };
    if m0 == 0 {
        Some(Num::Decimal { mant: 0, scale: 0 })
    } else {
        let eff = frac_len - e;
        if !(i64::MIN <= mv <= i64::MAX) {
            None
        } else if eff <= 0 {
            let m = mv * pow10((-eff) as nat);
            if i64::MIN <= m <= i64::MAX {
                Some(Num::Decimal { mant: m as i64, scale: 0 })
            } else {
                None
            }
        } else if eff <= max_scale() {
            Some(Num::Decimal { mant: mv as i64, scale: eff as u32 })
        } else {
            None
        }
    }
}

/// What the decimal grammar yields, as a well-formed `Num::Decimal`.
pub open spec fn parse_dec_spec(s: Seq<char>) -> Option<Num> {
    match dec_parts(s) {
        None => None,
        Some((neg, d1, d2, e)) => {
            let d2s = strip_trailing_zeros(d2);
            dec_assemble(
                neg,
                digits_val(d1) * pow10(d2s.len() as nat) + digits_val(d2s),
                d2s.len() as int,
                e,
            )
        },
    }
}

/// A text parses as a number when the integer grammar accepts it within
/// 64-bit range, or else when the decimal grammar accepts it within the
/// supported exact range.
pub open spec fn parse_num_spec(s: Seq<char>) -> Option<Num> {
    match parse_int_spec(s) {
        Some(i) => Some(Num::Integer(i)),
        None => parse_dec_spec(s),
    }
}

// ------------------------------------------------------------------
// The literal grammar, executed.
// ------------------------------------------------------------------
/// A run of digits is determined by being digits and stopping at a non-digit.
proof fn lemma_digits_prefix_len_from(s: Seq<char>, k: int)
    requires
        0 <= k <= s.len(),
        forall|i: int| 0 <= i < k ==> is_digit(#[trigger] s[i]),
        k < s.len() ==> !is_digit(s[k]),
    ensures
        digits_prefix_len(s) == k,
    decreases s.len(),
{
    if s.len() == 0 || !is_digit(s[0]) {
    } else {
        assert forall|i: int| 0 <= i < k - 1 implies is_digit(#[trigger] s.drop_first()[i]) by {
            assert(s.drop_first()[i] == s[i + 1]);
        }
        if k - 1 < s.drop_first().len() {
            assert(s.drop_first()[k - 1] == s[k]);
        }
        lemma_digits_prefix_len_from(s.drop_first(), k - 1);
    }
}

fn is_digit_exec(c: char) -> (r: bool)
    ensures
        r == is_digit(c),
{
    let u = c as u32;
    48 <= u && u <= 57
}

/// The end of the digit run that starts at `start`.
fn scan_digits(v: &Vec<char>, start: usize) -> (end: usize)
    requires
        start <= v@.len(),
    ensures
        start <= end <= v@.len(),
        end - start == digits_prefix_len(v@.skip(start as int)),
        forall|i: int| start <= i < end ==> is_digit(#[trigger] v@[i]),
        end < v@.len() ==> !is_digit(v@[end as int]),
{
    let n = v.len();
    let mut end = start;
    while end < n && is_digit_exec(v[end])
        invariant
            start <= end <= n,
            n == v@.len(),
            forall|i: int| start <= i < end ==> is_digit(#[trigger] v@[i]),
        decreases n - end,
    {
        end += 1;
    }
    proof {
        let s = v@.skip(start as int);
        assert forall|i: int| 0 <= i < end - start implies is_digit(#[trigger] s[i]) by {
            assert(s[i] == v@[start + i]);
        }
        if end - start < s.len() {
            assert(s[end - start] == v@[end as int]);
        }
        lemma_digits_prefix_len_from(s, end - start);
    }
    end
}

/// Accumulates `init * 10^(j-i) + value(v[i..j])`, stopping as soon as the
/// running value passes `cap`.
fn digits_acc(v: &Vec<char>, i: usize, j: usize, init: u128, cap: u128) -> (r: Option<u128>)
    requires
        i <= j <= v@.len(),
        forall|k: int| i <= k < j ==> is_digit(#[trigger] v@[k]),
        init <= cap,
        cap < 0x8000_0000_0000_0000_0000_0000_0000_0000u128 / 16,
    ensures
        ({
            let value = init * pow10((j - i) as nat) + digits_val(v@.subrange(i as int, j as int));
            match r {
                Some(x) => x as int == value && x <= cap,
                None => value > cap,
            }
        }),
{
    let ghost s = v@.subrange(i as int, j as int);
    proof {
        assert(all_digits(s));
    }
    let mut acc: u128 = init;
    let mut k: usize = i;
    while k < j
        invariant
            i <= k <= j <= v@.len(),
            s == v@.subrange(i as int, j as int),
            all_digits(s),
            forall|t: int| i <= t < j ==> is_digit(#[trigger] v@[t]),
            acc <= cap,
            cap < 0x8000_0000_0000_0000_0000_0000_0000_0000u128 / 16,
            acc as int == init * pow10((k - i) as nat) + digits_val(s.take(k - i)),
        decreases j - k,
    {
        let c = v[k];
        let d: u128 = (c as u32 - 48) as u128;
        proof {
            assert(is_digit(v@[k as int]));
            assert(d < 10);
        }
        let next: u128 = acc * 10 + d;
        proof {
            let m = k - i;
            let t = s.take(m + 1);
            assert(t.drop_last() =~= s.take(m));
            assert(t.last() == s[m] && s[m] == v@[k as int]);
            assert(digits_val(t) == digits_val(s.take(m)) * 10 + digit_val(s[m]));
            assert(next as int == init * (pow10(m as nat) * 10) + digits_val(t)) by (nonlinear_arith)
                requires
                    acc as int == init * pow10(m as nat) + digits_val(s.take(m)),
                    next as int == acc * 10 + d,
                    digits_val(t) == digits_val(s.take(m)) * 10 + digit_val(s[m]),
                    d == digit_val(s[m]),
            ;
            assert(pow10((m + 1) as nat) == pow10(m as nat) * 10) by {
                lemma_pow10_add(m as nat, 1);
                reveal_with_fuel(pow10, 2);
            }
        }
        if next > cap {
            proof {
                let m = k + 1 - i;
                lemma_digits_val_monotone(s, m);
                lemma_pow10_monotone(m as nat, (j - i) as nat);
                lemma_pow10_pos(m as nat);
                lemma_digits_val_nonneg(s);
                assert(init * pow10((j - i) as nat) >= init * pow10(m as nat)) by (nonlinear_arith)
                    requires
                        pow10((j - i) as nat) >= pow10(m as nat),
                        init >= 0,
                ;
                assert(init * pow10((j - i) as nat) + digits_val(s) > cap);
            }
            return None;
        }
        acc = next;
        k += 1;
    }
    proof {
        assert(s.take(j - i) =~= s);
    }
    Some(acc)
}

/// The integer grammar, run on a character vector.
pub fn parse_int_vec(v: &Vec<char>) -> (r: Option<i64>)
    ensures
        r == parse_int_spec(v@),
{
    let n = v.len();
    let (neg, b): (bool, usize) = if n > 0 && (v[0] == '+' || v[0] == '-') {
        (v[0] == '-', 1)
    } else {
        (false, 0)
    };
    let ghost pair = sign_split(v@);
    proof {
        assert(pair.0 == neg);
        assert(pair.1 =~= v@.skip(b as int));
    }
    if b == n {
        return None;
    }
    let end = scan_digits(v, b);
    if end != n {
        proof {
            let d = v@.skip(b as int);
            assert(d[end - b] == v@[end as int]);
            assert(!all_digits(d));
        }
        return None;
    }
    proof {
        let d = v@.skip(b as int);
        assert forall|i: int| 0 <= i < d.len() implies is_digit(#[trigger] d[i]) by {
            assert(d[i] == v@[b + i]);
        }
        assert(v@.subrange(b as int, n as int) =~= d);
    }
    match digits_acc(v, b, n, 0, 0x8000_0000_0000_0000u128) {
        None => {
            proof {
                let d = v@.skip(b as int);
                lemma_digits_val_nonneg(d);
            }
            None
        },
        Some(x) => {
            if neg {
                // magnitudes up to 2^63 negate into range
                Some((-(x as i128)) as i64)
            } else {
                if x <= 0x7fff_ffff_ffff_ffffu128 {
                    Some(x as i64)
                } else {
                    None
                }
            }
        },
    }
}

/// A digit string's value stays below `10^len`.
proof fn lemma_digits_val_le_pow10(s: Seq<char>)
    requires
        all_digits(s),
    ensures
        digits_val(s) < pow10(s.len() as nat),
    decreases s.len(),
{
    if s.len() == 0 {
    } else {
        assert(all_digits(s.drop_last())) by {
            assert(forall|i: int| 0 <= i < s.len() - 1 ==> is_digit(#[trigger] s.drop_last()[i]));
        }
        lemma_digits_val_le_pow10(s.drop_last());
        assert(is_digit(s.last()));
        assert(digits_val(s.drop_last()) * 10 + digit_val(s.last()) < pow10(s.len() as nat))
            by (nonlinear_arith)
            requires
                digits_val(s.drop_last()) < pow10((s.len() - 1) as nat),
                digit_val(s.last()) < 10,
                pow10(s.len() as nat) == 10 * pow10((s.len() - 1) as nat),
        ;
    }
}

/// Stripping trailing zeros keeps a digit string a digit string.
proof fn lemma_strip_all_digits(s: Seq<char>)
    requires
        all_digits(s),
    ensures
        all_digits(strip_trailing_zeros(s)),
        strip_trailing_zeros(s).len() <= s.len(),
    decreases s.len(),
{
    if s.len() > 0 && s.last() == '0' {
        assert(all_digits(s.drop_last())) by {
            assert(forall|i: int| 0 <= i < s.len() - 1 ==> is_digit(#[trigger] s.drop_last()[i]));
        }
        lemma_strip_all_digits(s.drop_last());
    }
}

/// A mantissa past the unsigned 64-bit sign bound never assembles.
proof fn lemma_assemble_overflow(neg: bool, m0: int, frac_len: int, e: int)
    requires
        m0 > 0x8000_0000_0000_0000,
    ensures
        dec_assemble(neg, m0, frac_len, e) is None,
{
}

/// The arithmetic half of the decimal grammar, on already-scanned parts.
fn assemble_exec(neg: bool, m0: u128, frac_len: usize, e: i64) -> (r: Option<Num>)
    requires
        m0 <= 0x8000_0000_0000_0000u128,
        -1000000 <= e <= 1000000,
    ensures
        r == dec_assemble(neg, m0 as int, frac_len as int, e as int),
{
    if m0 == 0 {
        return Some(Num::Decimal { mant: 0, scale: 0 });
    }
    if !neg && m0 > 0x7fff_ffff_ffff_ffffu128 {
        return None;
    }
    let mv: i128 = if neg {
        -(m0 as i128)
    } else {
        m0 as i128
    };
    let eff: i128 = (frac_len as i128) - (e as i128);
    if eff <= 0 {
        let k = -eff;
        if k > 18 {
            proof {
                lemma_pow10_monotone(19, k as nat);
                reveal_with_fuel(pow10, 20);
                lemma_small_times_pow10(mv as int, k as nat);
            }
            return None;
        }
        let p = pow10_u64(k as u32);
        proof {
            lemma_pow10_scale_bound(k as nat);
            lemma_i128_product_bounds(mv as int, p as int);
        }
        let m = mv * (p as i128);
        if -0x8000_0000_0000_0000i128 <= m && m <= 0x7fff_ffff_ffff_ffffi128 {
            return Some(Num::Decimal { mant: m as i64, scale: 0 });
        } else {
            return None;
        }
    }
    if eff <= 18 {
        return Some(Num::Decimal { mant: mv as i64, scale: eff as u32 });
    }
    None
}

/// A nonzero mantissa times a large power of ten leaves the 64-bit range.
proof fn lemma_small_times_pow10(mv: int, k: nat)
    requires
        mv != 0,
        pow10(k) > 0x8000_0000_0000_0000,
    ensures
        mv * pow10(k) > 0x7fff_ffff_ffff_ffff || mv * pow10(k) < -0x8000_0000_0000_0000,
{
    lemma_pow10_pos(k);
    assert(mv * pow10(k) > 0x7fff_ffff_ffff_ffff || mv * pow10(k) < -0x8000_0000_0000_0000)
        by (nonlinear_arith)
        requires
            mv != 0,
            pow10(k) > 0x8000_0000_0000_0000,
    ;
}

/// The exponent tail, from `pos` to the end of the text.
fn parse_exp_tail(v: &Vec<char>, pos: usize) -> (r: Option<i64>)
    requires
        pos <= v@.len(),
    ensures
        exp_part(v@.skip(pos as int)) is None ==> r is None,
        exp_part(v@.skip(pos as int)) matches Some(e) ==> r matches Some(x) && x == e && -1000000
            <= e <= 1000000,
{
    let n = v.len();
    let ghost r3 = v@.skip(pos as int);
    if pos == n {
        return Some(0);
    }
    proof {
        assert(r3[0] == v@[pos as int]);
    }
    let c = v[pos];
    if !(c == 'e' || c == 'E') {
        return None;
    }
    let (eneg, eb): (bool, usize) = if pos + 1 < n && (v[pos + 1] == '+' || v[pos + 1] == '-') {
        (v[pos + 1] == '-', pos + 2)
    } else {
        (false, pos + 1)
    };
    proof {
        let tail = r3.drop_first();
        assert(tail =~= v@.skip(pos + 1));
        if pos + 1 < n {
            assert(tail[0] == v@[pos + 1]);
        }
        assert(sign_split(tail).0 == eneg);
        assert(sign_split(tail).1 =~= v@.skip(eb as int));
    }
    let ee = scan_digits(v, eb);
    proof {
        let d = v@.skip(eb as int);
        assert forall|i: int| 0 <= i < ee - eb implies is_digit(#[trigger] d[i]) by {
            assert(d[i] == v@[eb + i]);
        }
        if ee - eb < d.len() {
            assert(d[ee - eb] == v@[ee as int]);
        }
        lemma_digits_prefix_len_from(d, ee - eb);
    }
    if ee != n || ee == eb || ee - eb > 6 {
        proof {
            let d = v@.skip(eb as int);
            if ee < n {
                assert(d[ee - eb] == v@[ee as int]);
                assert(!all_digits(d));
            }
        }
        return None;
    }
    proof {
        let d = v@.skip(eb as int);
        assert forall|i: int| 0 <= i < d.len() implies is_digit(#[trigger] d[i]) by {
            assert(d[i] == v@[eb + i]);
        }
        assert(v@.subrange(eb as int, n as int) =~= d);
        lemma_digits_val_le_pow10(d);
        lemma_pow10_monotone(d.len() as nat, 6);
        reveal_with_fuel(pow10, 7);
        lemma_digits_val_nonneg(d);
    }
    let x = match digits_acc(v, eb, n, 0, 1000000u128) {
        Some(x) => x,
        None => {
            proof {
                assert(false);
            }
            0
        },
    };
    if eneg {
        Some(-(x as i64))
    } else {
        Some(x as i64)
    }
}

/// Drops trailing `'0'` characters from the range `[f_start, f_end)`.
fn strip_zeros_end(v: &Vec<char>, f_start: usize, f_end: usize) -> (fs_end: usize)
    requires
        f_start <= f_end <= v@.len(),
    ensures
        f_start <= fs_end <= f_end,
        strip_trailing_zeros(v@.subrange(f_start as int, f_end as int)) == v@.subrange(
            f_start as int,
            fs_end as int,
        ),
{
    let mut fs_end = f_end;
    while fs_end > f_start && v[fs_end - 1] == '0'
        invariant
            f_start <= fs_end <= f_end <= v@.len(),
            strip_trailing_zeros(v@.subrange(f_start as int, f_end as int))
                == strip_trailing_zeros(v@.subrange(f_start as int, fs_end as int)),
        decreases fs_end,
    {
        proof {
            let cur = v@.subrange(f_start as int, fs_end as int);
            assert(cur.last() == v@[fs_end - 1]);
            assert(cur.drop_last() =~= v@.subrange(f_start as int, fs_end - 1));
        }
        fs_end -= 1;
    }
    proof {
        let cur = v@.subrange(f_start as int, fs_end as int);
        if cur.len() > 0 {
            assert(cur.last() == v@[fs_end - 1]);
        }
        assert(strip_trailing_zeros(cur) == cur);
    }
    fs_end
}

/// The unsigned mantissa of a decimal literal: the integer digits followed
/// by the (already stripped) fraction digits.
fn mantissa_acc(v: &Vec<char>, b: usize, e1: usize, f0: usize, f1: usize) -> (r: Option<u128>)
    requires
        b <= e1 <= v@.len(),
        f0 <= f1 <= v@.len(),
        forall|i: int| b <= i < e1 ==> is_digit(#[trigger] v@[i]),
        forall|i: int| f0 <= i < f1 ==> is_digit(#[trigger] v@[i]),
    ensures
        ({
            let value = digits_val(v@.subrange(b as int, e1 as int)) * pow10((f1 - f0) as nat)
                + digits_val(v@.subrange(f0 as int, f1 as int));
            match r {
                Some(x) => x as int == value && x <= 0x8000_0000_0000_0000u128,
                None => value > 0x8000_0000_0000_0000,
            }
        }),
{
    let cap: u128 = 0x8000_0000_0000_0000u128;
    let ghost d1 = v@.subrange(b as int, e1 as int);
    let ghost d2 = v@.subrange(f0 as int, f1 as int);
    proof {
        assert(all_digits(d1));
        assert(all_digits(d2));
        lemma_digits_val_nonneg(d1);
        lemma_digits_val_nonneg(d2);
        lemma_pow10_pos((f1 - f0) as nat);
    }
    let a1 = match digits_acc(v, b, e1, 0, cap) {
        Some(x) => x,
        None => {
            proof {
                assert(digits_val(d1) * pow10((f1 - f0) as nat) >= digits_val(d1))
                    by (nonlinear_arith)
                    requires
                        pow10((f1 - f0) as nat) >= 1,
                        digits_val(d1) >= 0,
                ;
            }
            return None;
        },
    };
    digits_acc(v, f0, f1, a1, cap)
}

/// The decimal grammar, run on a character vector.
#[verifier::rlimit(100)]
#[verifier::spinoff_prover]
pub fn parse_dec_vec(v: &Vec<char>) -> (r: Option<Num>)
    ensures
        r == parse_dec_spec(v@),
{
    let n = v.len();
    let (neg, b): (bool, usize) = if n > 0 && (v[0] == '+' || v[0] == '-') {
        (v[0] == '-', 1)
    } else {
        (false, 0)
    };
    let ghost r0 = v@.skip(b as int);
    proof {
        assert(sign_split(v@).0 == neg);
        assert(sign_split(v@).1 =~= r0);
    }
    let e1 = scan_digits(v, b);
    proof {
        assert forall|i: int| 0 <= i < e1 - b implies is_digit(#[trigger] r0[i]) by {
            assert(r0[i] == v@[b + i]);
        }
        if e1 - b < r0.len() {
            assert(r0[e1 - b] == v@[e1 as int]);
        }
        lemma_digits_prefix_len_from(r0, e1 - b);
        assert(r0.take(e1 - b) =~= v@.subrange(b as int, e1 as int));
        assert(r0.skip(e1 - b) =~= v@.skip(e1 as int));
    }
    let has_point = e1 < n && v[e1] == '.';
    proof {
        if e1 < n {
            assert(v@.skip(e1 as int)[0] == v@[e1 as int]);
        }
    }
    let (f_start, f_end): (usize, usize) = if has_point {
        let fs = e1 + 1;
        let fe = scan_digits(v, fs);
        (fs, fe)
    } else {
        (e1, e1)
    };
    proof {
        if has_point {
            let r2 = v@.skip(e1 as int).drop_first();
            assert(r2 =~= v@.skip(f_start as int));
            assert forall|i: int| 0 <= i < f_end - f_start implies is_digit(#[trigger] r2[i]) by {
                assert(r2[i] == v@[f_start + i]);
            }
            if f_end - f_start < r2.len() {
                assert(r2[f_end - f_start] == v@[f_end as int]);
            }
            lemma_digits_prefix_len_from(r2, f_end - f_start);
            assert(r2.take(f_end - f_start) =~= v@.subrange(f_start as int, f_end as int));
            assert(r2.skip(f_end - f_start) =~= v@.skip(f_end as int));
        }
    }
    if e1 == b && f_end == f_start {
        return None;
    }
    if !has_point && e1 == b {
        return None;
    }
    let e = match parse_exp_tail(v, f_end) {
        Some(e) => e,
        None => {
            return None;
        },
    };
    let fs_end = strip_zeros_end(v, f_start, f_end);
    let ghost d2s = strip_trailing_zeros(v@.subrange(f_start as int, f_end as int));
    proof {
        assert forall|i: int| f_start <= i < fs_end implies is_digit(#[trigger] v@[i]) by {
            if has_point {
                assert(v@.skip(e1 as int).drop_first()[i - f_start] == v@[i]);
            }
        }
    }
    let m0 = match mantissa_acc(v, b, e1, f_start, fs_end) {
        Some(x) => x,
        None => {
            proof {
                lemma_assemble_overflow(
                    neg,
                    digits_val(v@.subrange(b as int, e1 as int)) * pow10(d2s.len() as nat)
                        + digits_val(d2s),
                    d2s.len() as int,
                    e as int,
                );
            }
            return None;
        },
    };
    assemble_exec(neg, m0, fs_end - f_start, e)
}

/// The sign and the index where an embedded integer's digits begin.
pub open spec fn int_prefix_parts(s: Seq<char>, i: int) -> (bool, int) {
    if i < s.len() && (s[i] == '+' || s[i] == '-') {
        (s[i] == '-', i + 1)
    } else {
        (false, i)
    }
}

/// A signed integer read from position `i` of a longer text: its value and
/// the index just past its digits. `None` without a digit, or out of range.
pub open spec fn int_prefix_spec(s: Seq<char>, i: int) -> Option<(i64, int)> {
    let (neg, b) = int_prefix_parts(s, i);
    let e = b + digits_prefix_len(s.skip(b));
    let mag = digits_val(s.subrange(b, e));
    let v = if neg {
        -mag
    } else {
        mag
    };
    if e == b {
        None
    } else if i64::MIN <= v <= i64::MAX {
        Some((v as i64, e))
    } else {
        None
    }
}

/// Reads a signed integer embedded at position `i`.
pub fn parse_int_prefix(v: &Vec<char>, i: usize) -> (r: Option<(i64, usize)>)
    requires
        i <= v@.len(),
    ensures
        match (r, int_prefix_spec(v@, i as int)) {
            (Some((x, j)), Some((sx, sj))) => x == sx && j as int == sj && i <= j <= v@.len(),
            (None, None) => true,
            _ => false,
        },
{
    let n = v.len();
    let (neg, b): (bool, usize) = if i < n && (v[i] == '+' || v[i] == '-') {
        (v[i] == '-', i + 1)
    } else {
        (false, i)
    };
    let e = scan_digits(v, b);
    proof {
        let s = v@.skip(b as int);
        assert forall|k: int| 0 <= k < e - b implies is_digit(#[trigger] s[k]) by {
            assert(s[k] == v@[b + k]);
        }
        if e - b < s.len() {
            assert(s[e - b] == v@[e as int]);
        }
        lemma_digits_prefix_len_from(s, e - b);
    }
    if e == b {
        return None;
    }
    match digits_acc(v, b, e, 0, 0x8000_0000_0000_0000u128) {
        None => {
            proof {
                lemma_digits_val_nonneg(v@.subrange(b as int, e as int));
            }
            None
        },
        Some(x) => {
            if neg {
                Some(((-(x as i128)) as i64, e))
            } else {
                if x <= 0x7fff_ffff_ffff_ffffu128 {
                    Some((x as i64, e))
                } else {
                    None
                }
            }
        },
    }
}

/// A whole word as an unsigned machine-size count: an optional plus sign
/// and digits, within range.
pub open spec fn parse_usize_spec(s: Seq<char>) -> Option<usize> {
    let b: int = if s.len() > 0 && s[0] == '+' {
        1
    } else {
        0
    };
    let e = b + digits_prefix_len(s.skip(b));
    if e == b || e < s.len() {
        None
    } else if digits_val(s.subrange(b, e)) <= usize::MAX {
        Some(digits_val(s.subrange(b, e)) as usize)
    } else {
        None
    }
}

/// Parses a whole word as an unsigned machine-size count.
pub fn parse_usize_vec(v: &Vec<char>) -> (r: Option<usize>)
    ensures
        r == parse_usize_spec(v@),
{
    let n = v.len();
    let b: usize = if n > 0 && v[0] == '+' {
        1
    } else {
        0
    };
    let e = scan_digits(v, b);
    proof {
        let s = v@.skip(b as int);
        assert forall|k: int| 0 <= k < e - b implies is_digit(#[trigger] s[k]) by {
            assert(s[k] == v@[b + k]);
        }
        if e - b < s.len() {
            assert(s[e - b] == v@[e as int]);
        }
        lemma_digits_prefix_len_from(s, e - b);
    }
    if e == b || e < n {
        return None;
    }
    match digits_acc(v, b, e, 0, usize::MAX as u128) {
        None => {
            proof {
                lemma_digits_val_nonneg(v@.subrange(b as int, e as int));
            }
            None
        },
        Some(x) => Some(x as usize),
    }
}

/// Parses an item's text as a number: the integer grammar first, then the
/// decimal grammar; `None` when neither accepts.
pub fn parse_num_vec(v: &Vec<char>) -> (r: Option<Num>)
    ensures
        r == parse_num_spec(v@),
        r matches Some(n) ==> num_wf(n),
{
    match parse_int_vec(v) {
        Some(i) => Some(Num::Integer(i)),
        None => parse_dec_vec(v),
    }
}

} // verus!
