use vstd::prelude::*;

verus! {

/// The largest number of fractional digits a number carries.
pub const MAX_SCALE: u32 = 18;

/// An exact decimal number: `mantissa / 10^scale`.
#[derive(Clone, Copy, Debug, PartialEq, Eq, Structural)]
pub struct Decimal {
    pub mantissa: i64,
    pub scale: u32,
}

/// `10^n`.
pub open spec fn pow10(n: nat) -> int
    decreases n,
{
    if n == 0 {
        1
    } else {
        10 * pow10((n - 1) as nat)
    }
}

pub open spec fn is_digit(c: char) -> bool {
    '0' <= c && c <= '9'
}

pub open spec fn digit_value(c: char) -> int {
    c as int - '0' as int
}

/// The digits of `s`, in order, with every other character left out.
pub open spec fn digit_chars(s: Seq<char>) -> Seq<char>
    decreases s.len(),
{
    if s.len() == 0 {
        s
    } else if is_digit(s.last()) {
        digit_chars(s.drop_last()).push(s.last())
    } else {
        digit_chars(s.drop_last())
    }
}

/// How many `.` characters `s` holds.
pub open spec fn count_dots(s: Seq<char>) -> nat
    decreases s.len(),
{
    if s.len() == 0 {
        0
    } else if s.last() == '.' {
        count_dots(s.drop_last()) + 1
    } else {
        count_dots(s.drop_last())
    }
}

/// How many digits `s` ends with.
pub open spec fn trailing_digits(s: Seq<char>) -> nat
    decreases s.len(),
{
    if s.len() == 0 || !is_digit(s.last()) {
        0
    } else {
        trailing_digits(s.drop_last()) + 1
    }
}

/// The value of a string of decimal digits.
pub open spec fn digits_value(s: Seq<char>) -> int
    decreases s.len(),
{
    if s.len() == 0 {
        0
    } else {
        digits_value(s.drop_last()) * 10 + digit_value(s.last())
    }
}

/// Whether `t` starts with `-` or `+`.
pub open spec fn has_sign(t: Seq<char>) -> bool {
    t.len() > 0 && (t[0] == '-' || t[0] == '+')
}

/// `t` without its sign.
pub open spec fn unsigned_part(t: Seq<char>) -> Seq<char> {
    if has_sign(t) {
        t.drop_first()
    } else {
        t
    }
}

pub open spec fn is_exp_mark(c: char) -> bool {
    c == 'e' || c == 'E'
}

/// The index of the first `e` or `E` in `s`, or `s.len()` when there is none.
pub open spec fn exp_mark_pos(s: Seq<char>) -> nat
    decreases s.len(),
{
    if s.len() == 0 || is_exp_mark(s[0]) {
        0
    } else {
        1 + exp_mark_pos(s.drop_first())
    }
}

/// The exponent that `x` writes: an optional sign, then one or more digits.
pub open spec fn exponent_value(x: Seq<char>) -> Option<int> {
    let d = unsigned_part(x);
    if d.len() > 0 && forall|i: int| 0 <= i < d.len() ==> is_digit(#[trigger] d[i]) {
        Some(signed(has_sign(x) && x[0] == '-', digits_value(d)))
    } else {
        None
    }
}

pub open spec fn signed(negative: bool, m: int) -> int {
    if negative {
        -m
    } else {
        m
    }
}

/// Drops trailing zeros of `mag` while the scale is above `MAX_SCALE`.
pub open spec fn trim_scale(mag: nat, scale: nat) -> (nat, nat)
    decreases scale,
{
    if scale > MAX_SCALE && mag % 10 == 0 {
        trim_scale(mag / 10, (scale - 1) as nat)
    } else {
        (mag, scale)
    }
}

/// The number a token denotes, if it is a number literal: an optional sign;
/// then digits with at most one decimal point among them and at least one
/// digit; then, optionally, `e` or `E` and an exponent with an optional sign.
/// The digits, read as one integer without the point, must be at most
/// `i64::MAX`. The value is held at the scale the literal writes, less the
/// exponent: zero for a whole number, else with trailing zeros dropped only as
/// far as needed to bring the scale down to `MAX_SCALE`; it must then fit.
/// Anything else (`inf`, `nan`, a value too large or too fine for a
/// `Decimal`) is no number literal.
pub open spec fn literal_value(t: Seq<char>) -> Option<Decimal> {
    let body = unsigned_part(t);
    let negative = has_sign(t) && t[0] == '-';
    let p = exp_mark_pos(body);
    let mant = body.take(p as int);
    let digits = digit_chars(mant);
    let dots = count_dots(mant);
    let frac = if dots > 0 {
        trailing_digits(mant)
    } else {
        0
    };
    let magnitude = digits_value(digits);
    let exp = if p < body.len() {
        exponent_value(body.skip(p + 1int))
    } else {
        Some(0int)
    };
    if digits.len() > 0 && digits.len() + dots == mant.len() && dots <= 1 && 0 <= magnitude
        <= i64::MAX && exp is Some {
        scaled_literal(negative, magnitude, exp->Some_0 - frac)
    } else {
        None
    }
}

/// The number `±magnitude * 10^k`, held as `literal_value` says.
pub open spec fn scaled_literal(negative: bool, magnitude: int, k: int) -> Option<Decimal> {
    if k >= 0 {
        let m = magnitude * pow10(k as nat);
        if m <= i64::MAX {
            Some(Decimal { mantissa: signed(negative, m) as i64, scale: 0 })
        } else {
            None
        }
    } else {
        let (m, sc) = trim_scale(magnitude as nat, (-k) as nat);
        if sc <= MAX_SCALE {
            Some(Decimal { mantissa: signed(negative, m as int) as i64, scale: sc as u32 })
        } else {
            None
        }
    }
}

impl Decimal {
    /// A number whose scale the arithmetic below can handle.
    pub open spec fn in_range(self) -> bool {
        self.scale <= MAX_SCALE
    }

    /// `self > other`, compared by value.
    pub open spec fn greater_spec(self, other: Decimal) -> bool {
        self.mantissa * pow10(other.scale as nat) > other.mantissa * pow10(self.scale as nat)
    }

    /// The scale of `self + other`: the larger of the two.
    pub open spec fn sum_scale(self, other: Decimal) -> nat {
        if self.scale >= other.scale {
            self.scale as nat
        } else {
            other.scale as nat
        }
    }

    /// The mantissa of `self + other` at scale `sum_scale`.
    pub open spec fn sum_mantissa(self, other: Decimal) -> int {
        let s = self.sum_scale(other);
        self.mantissa * pow10((s - self.scale) as nat) + other.mantissa * pow10(
            (s - other.scale) as nat,
        )
    }

    /// `self + other` when both are in range and the sum's mantissa fits.
    pub open spec fn sum_spec(self, other: Decimal) -> Option<Decimal> {
        if self.in_range() && other.in_range() && i64::MIN <= self.sum_mantissa(other)
            <= i64::MAX {
            Some(
                Decimal {
                    mantissa: self.sum_mantissa(other) as i64,
                    scale: self.sum_scale(other) as u32,
                },
            )
        } else {
            None
        }
    }

    /// A whole number.
    pub fn from_int(n: i64) -> (r: Decimal)
        ensures
            r.mantissa == n,
            r.scale == 0,
    {
        Decimal { mantissa: n, scale: 0 }
    }

    /// Compares by value; `None` when a scale is out of range.
    pub fn greater(&self, other: &Decimal) -> (r: Option<bool>)
        ensures
            r == (if self.in_range() && other.in_range() {
                Some(self.greater_spec(*other))
            } else {
                None
            }),
    {
        if self.scale > MAX_SCALE || other.scale > MAX_SCALE {
            return None;
        }
        let a = scaled(self.mantissa, other.scale);
        let b = scaled(other.mantissa, self.scale);
        Some(a > b)
    }

    /// Adds by value, at the larger of the two scales; `None` when a scale is
    /// out of range or the sum does not fit.
    pub fn checked_add(&self, other: &Decimal) -> (r: Option<Decimal>)
        ensures
            r == self.sum_spec(*other),
    {
        if self.scale > MAX_SCALE || other.scale > MAX_SCALE {
            return None;
        }
        let s = if self.scale >= other.scale {
            self.scale
        } else {
            other.scale
        };
        let a = scaled(self.mantissa, s - self.scale);
        let b = scaled(other.mantissa, s - other.scale);
        let sum = a + b;
        if sum < i64::MIN as i128 || sum > i64::MAX as i128 {
            None
        } else {
            Some(Decimal { mantissa: sum as i64, scale: s })
        }
    }
}

/// Reads a number literal (see `literal_value`).
pub fn parse_decimal(t: &str) -> (r: Option<Decimal>)
    ensures
        r == literal_value(t@),
{
    let n = t.unicode_len();
    let mut negative = false;
    let mut start: usize = 0;
    if n > 0 {
        let c = t.get_char(0);
        if c == '-' || c == '+' {
            negative = c == '-';
            start = 1;
        }
    }
    let ghost body = unsigned_part(t@);
    assert(body =~= t@.subrange(start as int, n as int));
    let mut p: usize = start;
    while p < n && !is_exp_mark_char(t.get_char(p))
        invariant
            n == t@.len(),
            start <= p <= n,
            forall|j: int| start <= j < p ==> !is_exp_mark(#[trigger] t@[j]),
        decreases n - p,
    {
        p = p + 1;
    }
    proof {
        lemma_exp_mark_pos(t@, start as int, p as int);
        assert(t@.skip(start as int) =~= body);
        assert(body.take(p - start) =~= t@.subrange(start as int, p as int));
    }
    let mut k: usize = start;
    let mut n_digits: usize = 0;
    let mut n_dots: usize = 0;
    let mut n_other: usize = 0;
    let mut trailing: usize = 0;
    let mut magnitude: i64 = 0;
    let mut too_big = false;
    while k < p
        invariant
            p <= n == t@.len(),
            start <= k <= p,
            n_digits == digit_chars(t@.subrange(start as int, k as int)).len(),
            n_dots == count_dots(t@.subrange(start as int, k as int)),
            trailing == trailing_digits(t@.subrange(start as int, k as int)),
            n_digits + n_dots + n_other == k - start,
            trailing <= k - start,
            too_big ==> digits_value(digit_chars(t@.subrange(start as int, k as int))) > i64::MAX,
            !too_big ==> 0 <= magnitude && magnitude == digits_value(
                digit_chars(t@.subrange(start as int, k as int)),
            ),
        decreases p - k,
    {
        let c = t.get_char(k);
        let ghost prev = t@.subrange(start as int, k as int);
        assert(t@.subrange(start as int, k + 1) =~= prev.push(c));
        assert(prev.push(c).drop_last() =~= prev);
        if '0' <= c && c <= '9' {
            let d = (c as u32 - '0' as u32) as i128;
            assert(digit_chars(prev.push(c)) == digit_chars(prev).push(c));
            assert(digit_chars(prev).push(c).drop_last() =~= digit_chars(prev));
            if !too_big {
                let m = magnitude as i128 * 10 + d;
                if m > i64::MAX as i128 {
                    too_big = true;
                } else {
                    magnitude = m as i64;
                }
            }
            n_digits = n_digits + 1;
            trailing = trailing + 1;
        } else {
            if c == '.' {
                n_dots = n_dots + 1;
            } else {
                n_other = n_other + 1;
            }
            trailing = 0;
        }
        k = k + 1;
    }
    if !(n_digits > 0 && n_other == 0 && n_dots <= 1 && !too_big) {
        return None;
    }
    let (exp_ok, exp_negative, exp_mag, exp_huge) = if p < n {
        proof {
            assert(body.skip(p - start + 1int) =~= t@.subrange(p + 1, n as int));
        }
        read_exponent(t, p + 1)
    } else {
        (true, false, 0, false)
    };
    if !exp_ok {
        return None;
    }
    let frac: usize = if n_dots > 0 {
        trailing
    } else {
        0
    };
    let ghost exp = if p < n {
        exponent_value(body.skip(p - start + 1int))
    } else {
        Some(0int)
    };
    let kx: i128 = if exp_huge {
        if exp_negative {
            -41
        } else {
            41
        }
    } else {
        (if exp_negative {
            -exp_mag
        } else {
            exp_mag
        }) - frac as i128
    };
    scale_literal(negative, magnitude, kx, Ghost(exp->Some_0 - frac))
}

/// Reads an exponent: an optional sign, then digits, from `from` to the end
/// of `t`. Gives whether it is well formed, its sign, and its magnitude, or
/// `huge` when that passes `t@.len() + 40`.
fn read_exponent(t: &str, from: usize) -> (r: (bool, bool, i128, bool))
    requires
        from <= t@.len(),
    ensures
        r.0 == (exponent_value(t@.subrange(from as int, t@.len() as int)) is Some),
        r.0 && !r.3 ==> 0 <= r.2 <= t@.len() + 40 && exponent_value(
            t@.subrange(from as int, t@.len() as int),
        ) == Some(signed(r.1, r.2 as int)),
        r.0 && r.3 && r.1 ==> exponent_value(t@.subrange(from as int, t@.len() as int))->Some_0
            < -(t@.len() + 40),
        r.0 && r.3 && !r.1 ==> exponent_value(t@.subrange(from as int, t@.len() as int))->Some_0
            > t@.len() + 40,
{
    let n = t.unicode_len();
    let ghost x = t@.subrange(from as int, n as int);
    let cap: i128 = n as i128 + 40;
    let mut exp_negative = false;
    let mut exp_mag: i128 = 0;
    let mut exp_huge = false;
    let mut q: usize = from;
    if q < n {
        let c = t.get_char(q);
        if c == '-' || c == '+' {
            exp_negative = c == '-';
            q = q + 1;
        }
    }
    let q0 = q;
    assert(unsigned_part(x) =~= t@.subrange(q0 as int, n as int));
    assert(exp_negative == (has_sign(x) && x[0] == '-'));
    let mut exp_ok = q0 < n;
    while q < n
        invariant
            n == t@.len(),
            cap == n + 40,
            q0 <= q <= n,
            0 <= exp_mag <= cap,
            unsigned_part(x) == t@.subrange(q0 as int, n as int),
            exp_negative == (has_sign(x) && x[0] == '-'),
            exp_ok ==> q0 < n,
            exp_ok ==> forall|j: int| q0 <= j < q ==> is_digit(#[trigger] t@[j]),
            !exp_ok ==> (q0 == n || exists|j: int| q0 <= j < q && !is_digit(#[trigger] t@[j])),
            exp_ok && exp_huge ==> digits_value(t@.subrange(q0 as int, q as int)) > cap,
            exp_ok && !exp_huge ==> exp_mag == digits_value(t@.subrange(q0 as int, q as int)),
        decreases n - q,
    {
        let c = t.get_char(q);
        let ghost prev = t@.subrange(q0 as int, q as int);
        assert(t@.subrange(q0 as int, q + 1) =~= prev.push(c));
        assert(prev.push(c).drop_last() =~= prev);
        if '0' <= c && c <= '9' {
            if !exp_huge {
                let m = exp_mag * 10 + (c as u32 - '0' as u32) as i128;
                if m > cap {
                    exp_huge = true;
                } else {
                    exp_mag = m;
                }
            }
        } else {
            exp_ok = false;
        }
        q = q + 1;
    }
    proof {
        let d = t@.subrange(q0 as int, n as int);
        if exp_ok {
            assert forall|i: int| 0 <= i < d.len() implies is_digit(#[trigger] d[i]) by {
                assert(d[i] == t@[q0 + i]);
            }
        } else if q0 < n {
            let j = choose|j: int| q0 <= j < n && !is_digit(#[trigger] t@[j]);
            assert(d[j - q0] == t@[j]);
        }
    }
    (exp_ok, exp_negative, exp_mag, exp_huge)
}

/// `scaled_literal(negative, magnitude, k)`; `kx` is `k`, or when `k` is far
/// from zero a stand-in of its sign beyond forty.
fn scale_literal(negative: bool, magnitude: i64, kx: i128, Ghost(k): Ghost<int>) -> (r: Option<
    Decimal,
>)
    requires
        0 <= magnitude,
        kx == k || (kx > 40 && k > 40) || (kx < -40 && k < -40),
        -0x1_0000_0000_0000_0000_0000 < kx < 0x1_0000_0000_0000_0000_0000,
    ensures
        r == scaled_literal(negative, magnitude as int, k),
{
    if magnitude > 0 {
        proof {
            lemma_pow10_19();
        }
    }
    if kx >= 0 {
        if magnitude == 0 {
            return Some(Decimal { mantissa: 0, scale: 0 });
        }
        if kx > 18 {
            proof {
                lemma_pow10_monotone(19, k as nat);
                lemma_mul_at_least(magnitude as int, pow10(k as nat));
            }
            return None;
        }
        let m = scaled(magnitude, kx as u32);
        proof {
            lemma_pow10_monotone(0, k as nat);
            lemma_mul_at_least(magnitude as int, pow10(k as nat));
        }
        if m > i64::MAX as i128 {
            return None;
        }
        let mi = m as i64;
        return Some(Decimal { mantissa: if negative { -mi } else { mi }, scale: 0 });
    }
    let sc: i128 = -kx;
    if magnitude == 0 {
        proof {
            lemma_trim_zero((-k) as nat);
        }
        let s0: u32 = if sc > MAX_SCALE as i128 {
            MAX_SCALE
        } else {
            sc as u32
        };
        return Some(Decimal { mantissa: 0, scale: s0 });
    }
    if sc > 37 {
        proof {
            lemma_trim_scale_keeps(magnitude as nat, (-k) as nat);
        }
        return None;
    }
    let mut mm: i64 = magnitude;
    let mut ss: u32 = sc as u32;
    while ss > MAX_SCALE && mm % 10 == 0
        invariant
            0 <= mm,
            trim_scale(mm as nat, ss as nat) == trim_scale(magnitude as nat, (-k) as nat),
        decreases ss,
    {
        mm = mm / 10;
        ss = ss - 1;
    }
    if ss > MAX_SCALE {
        return None;
    }
    Some(Decimal { mantissa: if negative { -mm } else { mm }, scale: ss })
}

fn is_exp_mark_char(c: char) -> (r: bool)
    ensures
        r == is_exp_mark(c),
{
    c == 'e' || c == 'E'
}

proof fn lemma_exp_mark_pos(s: Seq<char>, i: int, j: int)
    requires
        0 <= i <= j <= s.len(),
        forall|k: int| i <= k < j ==> !is_exp_mark(#[trigger] s[k]),
        j == s.len() || is_exp_mark(s[j]),
    ensures
        exp_mark_pos(s.skip(i)) == j - i,
    decreases j - i,
{
    if i < j {
        assert(s.skip(i).drop_first() =~= s.skip(i + 1));
        lemma_exp_mark_pos(s, i + 1, j);
    }
}

proof fn lemma_trim_zero(scale: nat)
    ensures
        trim_scale(0, scale) == (0nat, if scale > MAX_SCALE { MAX_SCALE as nat } else { scale }),
    decreases scale,
{
    if scale > MAX_SCALE {
        lemma_trim_zero((scale - 1) as nat);
    }
}

proof fn lemma_trim_scale_parts(mag: nat, scale: nat)
    requires
        mag >= 1,
    ensures
        trim_scale(mag, scale).1 <= scale,
        trim_scale(mag, scale).0 >= 1,
        mag == trim_scale(mag, scale).0 * pow10((scale - trim_scale(mag, scale).1) as nat),
    decreases scale,
{
    if scale > MAX_SCALE && mag % 10 == 0 {
        lemma_trim_scale_parts(mag / 10, (scale - 1) as nat);
        let (m, s) = trim_scale(mag / 10, (scale - 1) as nat);
        assert(pow10((scale - s) as nat) == 10 * pow10((scale - 1 - s) as nat));
        assert(mag == 10 * (mag / 10));
        assert(mag == m * pow10((scale - s) as nat)) by (nonlinear_arith)
            requires
                mag == 10 * (mag / 10),
                mag / 10 == m * pow10((scale - 1 - s) as nat),
                pow10((scale - s) as nat) == 10 * pow10((scale - 1 - s) as nat),
        ;
    }
}

/// A mantissa that fits an `i64` loses at most eighteen zeros.
proof fn lemma_trim_scale_keeps(mag: nat, scale: nat)
    requires
        1 <= mag <= i64::MAX,
        scale > 37,
    ensures
        trim_scale(mag, scale).1 > MAX_SCALE,
{
    lemma_trim_scale_parts(mag, scale);
    let (m, s) = trim_scale(mag, scale);
    if s <= MAX_SCALE {
        lemma_pow10_monotone(19, (scale - s) as nat);
        lemma_pow10_19();
        lemma_mul_at_least(m as int, pow10((scale - s) as nat));
    }
}

proof fn lemma_mul_at_least(a: int, b: int)
    requires
        a >= 1,
        b >= 0,
    ensures
        a * b >= b,
{
    assert(a * b >= b) by (nonlinear_arith)
        requires
            a >= 1,
            b >= 0,
    ;
}

proof fn lemma_pow10_19()
    ensures
        pow10(19) == 10_000_000_000_000_000_000,
{
    reveal_with_fuel(pow10, 20);
}

proof fn lemma_pow10_monotone(i: nat, j: nat)
    requires
        i <= j,
    ensures
        1 <= pow10(i) <= pow10(j),
    decreases j,
{
    if j > i {
        lemma_pow10_monotone(i, (j - 1) as nat);
    } else if i > 0 {
        lemma_pow10_monotone((i - 1) as nat, (i - 1) as nat);
    }
}

proof fn lemma_pow10_18()
    ensures
        pow10(18) == 1_000_000_000_000_000_000,
{
    reveal_with_fuel(pow10, 19);
}

fn pow10_exec(n: u32) -> (r: i128)
    requires
        n <= MAX_SCALE,
    ensures
        r == pow10(n as nat),
        1 <= r <= 1_000_000_000_000_000_000,
{
    let mut r: i128 = 1;
    let mut i: u32 = 0;
    while i < n
        invariant
            i <= n <= MAX_SCALE,
            r == pow10(i as nat),
        decreases n - i,
    {
        proof {
            lemma_pow10_monotone((i + 1) as nat, 18);
            assert(pow10((i + 1) as nat) == 10 * pow10(i as nat));
            lemma_pow10_18();
        }
        r = r * 10;
        i = i + 1;
    }
    proof {
        lemma_pow10_monotone(n as nat, 18);
        lemma_pow10_18();
    }
    r
}

/// `m * 10^s`, exactly.
fn scaled(m: i64, s: u32) -> (r: i128)
    requires
        s <= MAX_SCALE,
    ensures
        r == m * pow10(s as nat),
        -0x1000_0000_0000_0000_0000_0000_0000_0000 < r < 0x1000_0000_0000_0000_0000_0000_0000_0000,
{
    let p = pow10_exec(s);
    let mi = m as i128;
    assert(-0x1000_0000_0000_0000_0000_0000_0000_0000 < mi * p < 0x1000_0000_0000_0000_0000_0000_0000_0000)
        by (nonlinear_arith)
        requires
            i64::MIN <= mi <= i64::MAX,
            1 <= p <= 1_000_000_000_000_000_000,
    ;
    mi * p
}

} // verus!
