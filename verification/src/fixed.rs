//! Saturating decimal fixed-point numbers.
//!
//! A [`Fixed`] holds a 64-bit count of billionths, so it ranges over about
//! plus and minus 9.2 billion in steps of a billionth. Sums saturate at the
//! ends of the range; products and quotients are rounded to the nearest
//! billionth, ties away from zero, and then saturate. No operation panics.
use vstd::prelude::*;

verus! {

/// Raw units per whole unit.
pub const SCALE: i64 = 1_000_000_000;

/// A fixed-point number with nine decimal places.
#[derive(Clone, Copy, Debug, PartialEq, Eq, Structural)]
pub struct Fixed {
    /// The value in billionths.
    pub raw: i64,
}

impl View for Fixed {
    type V = int;

    /// The value in billionths, as a mathematical integer.
    open spec fn view(&self) -> int {
        self.raw as int
    }
}

/// The fixed-point number with the raw value `n`, for `n` in the 64-bit
/// range.
pub open spec fn fixed(n: int) -> Fixed {
    Fixed { raw: n as i64 }
}

/// Whether a raw value lies strictly inside the 64-bit range. A result of a
/// saturating operation that does was not clipped.
pub open spec fn in_range(x: int) -> bool {
    i64::MIN < x < i64::MAX
}

/// `n` clamped into the 64-bit range.
pub open spec fn sat(n: int) -> int {
    if n > i64::MAX {
        i64::MAX as int
    } else if n < i64::MIN {
        i64::MIN as int
    } else {
        n
    }
}

/// The integer nearest to `n / d` for `n >= 0` and `d > 0`, halves rounded up.
pub open spec fn round_div_nonneg(n: int, d: int) -> int {
    (n + d / 2) / d
}

/// The integer nearest to `n / d` for `d != 0`, ties away from zero.
pub open spec fn round_div(n: int, d: int) -> int {
    let (n1, d1) = if d < 0 {
        (-n, -d)
    } else {
        (n, d)
    };
    if n1 >= 0 {
        round_div_nonneg(n1, d1)
    } else {
        -round_div_nonneg(-n1, d1)
    }
}

/// Saturating sum of two raw values.
pub open spec fn fx_add(a: int, b: int) -> int {
    sat(a + b)
}

/// Saturating difference of two raw values.
pub open spec fn fx_sub(a: int, b: int) -> int {
    sat(a - b)
}

/// Saturating negation of a raw value.
pub open spec fn fx_neg(a: int) -> int {
    sat(-a)
}

/// Saturating absolute value of a raw value.
pub open spec fn fx_abs(a: int) -> int {
    if a >= 0 {
        a
    } else {
        sat(-a)
    }
}

/// Rounded, saturating product of two raw values.
pub open spec fn fx_mul(a: int, b: int) -> int {
    sat(round_div(a * b, SCALE as int))
}

/// Rounded, saturating quotient of two raw values, for `b != 0`.
pub open spec fn fx_div(a: int, b: int) -> int {
    sat(round_div(a * SCALE, b))
}

/// The product of a raw value and the square of another, computed exactly
/// and rounded once: `a * t * t` in billionths, then saturated.
pub open spec fn fx_mul_square(a: int, t: int) -> int {
    sat(round_div(a * t * t, SCALE * SCALE))
}

/// Half of a raw value, rounded away from zero.
pub open spec fn fx_half(a: int) -> int {
    round_div(a, 2)
}

/// Whether `r` is the integer square root of `x`, for `x >= 0`.
pub open spec fn is_isqrt(x: int, r: int) -> bool {
    0 <= r && r * r <= x && x < (r + 1) * (r + 1)
}

/// The integer square root of `x`, for `x >= 0`.
pub open spec fn isqrt(x: int) -> int {
    choose|r: int| is_isqrt(x, r)
}

/// The square root of a raw value `a >= 0`, rounded down to a billionth.
pub open spec fn fx_sqrt(a: int) -> int {
    isqrt(a * SCALE)
}

/// `a` raised to the power `n`, each product rounded and saturated in turn.
pub open spec fn fx_pow(a: int, n: nat) -> int
    decreases n,
{
    if n == 0 {
        SCALE as int
    } else {
        fx_mul(fx_pow(a, (n - 1) as nat), a)
    }
}

/// Whether `r` is the greatest representable value whose `n`-th power does
/// not exceed `x`, for `x >= 0` and `n >= 1`.
pub open spec fn is_fx_root(x: int, n: nat, r: int) -> bool {
    &&& 0 <= r <= i64::MAX
    &&& fx_pow(r, n) <= x
    &&& r < i64::MAX ==> fx_pow(r + 1, n) > x
}

/// The `n`-th root of a raw value: the greatest representable value whose
/// `n`-th power does not exceed `x`.
pub open spec fn fx_root(x: int, n: nat) -> int {
    choose|r: int| is_fx_root(x, n, r)
}

/// Two integer square roots of one number are equal.
pub proof fn lemma_isqrt_unique(x: int, r1: int, r2: int)
    requires
        is_isqrt(x, r1),
        is_isqrt(x, r2),
    ensures
        r1 == r2,
{
    if r1 < r2 {
        assert((r1 + 1) * (r1 + 1) <= r2 * r2) by (nonlinear_arith)
            requires
                0 <= r1,
                r1 + 1 <= r2,
        ;
    } else if r2 < r1 {
        assert((r2 + 1) * (r2 + 1) <= r1 * r1) by (nonlinear_arith)
            requires
                0 <= r2,
                r2 + 1 <= r1,
        ;
    }
}

/// Every number that is not negative has an integer square root.
pub proof fn lemma_isqrt_exists(x: int)
    requires
        x >= 0,
    ensures
        is_isqrt(x, isqrt(x)),
    decreases x,
{
    if x == 0 {
        assert(is_isqrt(0, 0));
    } else {
        lemma_isqrt_exists(x - 1);
        let r = isqrt(x - 1);
        assert((r + 2) * (r + 2) > (r + 1) * (r + 1)) by (nonlinear_arith)
            requires
                r >= 0,
        ;
        if (r + 1) * (r + 1) <= x {
            assert(is_isqrt(x, r + 1));
        } else {
            assert(is_isqrt(x, r));
        }
    }
}

/// The integer square root of a number below `2^126`.
pub(crate) fn isqrt_wide(x: u128) -> (r: u64)
    requires
        x < 0x4000_0000_0000_0000_0000_0000_0000_0000,
    ensures
        is_isqrt(x as int, r as int),
        r == isqrt(x as int),
        r <= i64::MAX,
{
    let mut lo: u128 = 0;
    let mut hi: u128 = 0x8000_0000_0000_0000;
    assert(hi * hi == 0x4000_0000_0000_0000_0000_0000_0000_0000) by (nonlinear_arith)
        requires
            hi == 0x8000_0000_0000_0000,
    ;
    while hi - lo > 1
        invariant
            lo < hi <= 0x8000_0000_0000_0000,
            lo * lo <= x < hi * hi,
        decreases hi - lo,
    {
        let mid: u128 = lo + (hi - lo) / 2;
        assert(mid * mid <= 0x8000_0000_0000_0000 * 0x8000_0000_0000_0000) by (nonlinear_arith)
            requires
                0 <= mid <= 0x8000_0000_0000_0000,
        ;
        if mid * mid <= x {
            lo = mid;
        } else {
            hi = mid;
        }
    }
    proof {
        assert(is_isqrt(x as int, lo as int));
        lemma_isqrt_exists(x as int);
        lemma_isqrt_unique(x as int, lo as int, isqrt(x as int));
    }
    lo as u64
}

/// A rounded quotient grows with its numerator.
pub proof fn lemma_round_div_monotone(n1: int, n2: int, d: int)
    requires
        n1 <= n2,
        d > 0,
    ensures
        round_div(n1, d) <= round_div(n2, d),
{
    let h = d / 2;
    if n1 >= 0 {
        lemma_div_monotone(n1 + h, n2 + h, d);
    } else if n2 < 0 {
        lemma_div_monotone(-n2 + h, -n1 + h, d);
    } else {
        lemma_div_monotone(0, n2 + h, d);
        lemma_div_monotone(0, -n1 + h, d);
    }
}

/// Flooring division by a positive number is monotone.
proof fn lemma_div_monotone(a: int, b: int, d: int)
    requires
        a <= b,
        d > 0,
    ensures
        a / d <= b / d,
        0 <= a ==> 0 <= a / d,
{
    vstd::arithmetic::div_mod::lemma_div_is_ordered(a, b, d);
    if 0 <= a {
        vstd::arithmetic::div_mod::lemma_div_pos_is_pos(a, d);
    }
}

/// A product of raw values grows with each non-negative factor.
pub proof fn lemma_fx_mul_monotone(a: int, b: int, c: int, d: int)
    requires
        0 <= a <= b,
        0 <= c <= d,
    ensures
        0 <= fx_mul(a, c) <= fx_mul(b, d),
{
    assert(0 <= a * c <= b * d) by (nonlinear_arith)
        requires
            0 <= a <= b,
            0 <= c <= d,
    ;
    lemma_round_div_monotone(a * c, b * d, SCALE as int);
    lemma_round_div_monotone(0, a * c, SCALE as int);
}

/// A power of a raw value grows with a non-negative base.
pub proof fn lemma_fx_pow_monotone(a: int, b: int, n: nat)
    requires
        0 <= a <= b,
    ensures
        0 <= fx_pow(a, n) <= fx_pow(b, n),
    decreases n,
{
    if n > 0 {
        lemma_fx_pow_monotone(a, b, (n - 1) as nat);
        lemma_fx_mul_monotone(fx_pow(a, (n - 1) as nat), fx_pow(b, (n - 1) as nat), a, b);
    }
}

/// Two `n`-th roots of one number are equal.
pub proof fn lemma_fx_root_unique(x: int, n: nat, r1: int, r2: int)
    requires
        is_fx_root(x, n, r1),
        is_fx_root(x, n, r2),
    ensures
        r1 == r2,
{
    if r1 < r2 {
        lemma_fx_pow_monotone(r1 + 1, r2, n);
    } else if r2 < r1 {
        lemma_fx_pow_monotone(r2 + 1, r1, n);
    }
}

/// `n` clamped into the 64-bit range, as a fixed-point number.
pub(crate) fn clamp(n: i128) -> (r: Fixed)
    ensures
        r@ == sat(n as int),
{
    if n > i64::MAX as i128 {
        Fixed { raw: i64::MAX }
    } else if n < i64::MIN as i128 {
        Fixed { raw: i64::MIN }
    } else {
        Fixed { raw: n as i64 }
    }
}

/// The quotient `n / d` rounded to the nearest integer, ties away from zero.
pub(crate) fn round_quotient(n: i128, d: i128) -> (q: i128)
    requires
        d != 0,
        -0x2000_0000_0000_0000_0000_0000_0000_0000 <= n <= 0x2000_0000_0000_0000_0000_0000_0000_0000,
        -0x2000_0000_0000_0000_0000_0000_0000_0000 <= d <= 0x2000_0000_0000_0000_0000_0000_0000_0000,
    ensures
        q == round_div(n as int, d as int),
{
    let (n1, d1): (i128, i128) = if d < 0 {
        (-n, -d)
    } else {
        (n, d)
    };
    let h: i128 = d1 / 2;
    if n1 >= 0 {
        proof {
            lemma_div_monotone(0, n1 + h, d1 as int);
            lemma_quotient_bound(n1 + h, d1 as int);
        }
        (n1 + h) / d1
    } else {
        proof {
            lemma_div_monotone(0, -n1 + h, d1 as int);
            lemma_quotient_bound(-n1 + h, d1 as int);
        }
        -((-n1 + h) / d1)
    }
}

/// A non-negative number divided by a positive one does not grow.
proof fn lemma_quotient_bound(a: int, d: int)
    requires
        0 <= a,
        d > 0,
    ensures
        a / d <= a,
{
    vstd::arithmetic::div_mod::lemma_div_is_ordered_by_denominator(a, 1, d);
    assert(a / 1 == a);
}

/// A quotient of a product can be taken in two parts: the whole multiples
/// of the divisor in `p`, and the remainder of `p`.
proof fn lemma_split_division(p: int, c: int, m: int)
    requires
        p >= 0,
        c >= 0,
        m > 0,
    ensures
        (p * c + m / 2) / m == (p / m) * c + ((p % m) * c + m / 2) / m,
{
    let q1 = p / m;
    let r1 = p % m;
    vstd::arithmetic::div_mod::lemma_fundamental_div_mod(p, m);
    vstd::arithmetic::div_mod::lemma_mod_bound(p, m);
    let t = r1 * c + m / 2;
    assert(r1 * c >= 0) by (nonlinear_arith)
        requires
            r1 >= 0,
            c >= 0,
    ;
    let qt = t / m;
    let rt = t % m;
    vstd::arithmetic::div_mod::lemma_fundamental_div_mod(t, m);
    vstd::arithmetic::div_mod::lemma_mod_bound(t, m);
    assert(p * c + m / 2 == (q1 * c + qt) * m + rt) by (nonlinear_arith)
        requires
            p == m * q1 + r1,
            t == r1 * c + m / 2,
            t == m * qt + rt,
    ;
    vstd::arithmetic::div_mod::lemma_fundamental_div_mod_converse(
        p * c + m / 2,
        m,
        q1 * c + qt,
        rt,
    );
}

/// The magnitude of a raw value.
fn magnitude(x: i64) -> (m: u128)
    ensures
        m == (if x < 0 { -(x as int) } else { x as int }),
        m <= 0x8000_0000_0000_0000,
{
    if x < 0 {
        (-(x as i128)) as u128
    } else {
        x as u128
    }
}

impl Fixed {
    /// The product of this number and the square of `t`, computed exactly
    /// and rounded to the nearest billionth once.
    pub fn times_square(self, t: Fixed) -> (r: Fixed)
        ensures
            r@ == fx_mul_square(self@, t@),
    {
        let unit: u128 = 1_000_000_000_000_000_000;
        let ma = magnitude(self.raw);
        let mt = magnitude(t.raw);
        let ghost n = self@ * t@ * t@;
        assert(SCALE * SCALE == 1_000_000_000_000_000_000);
        if ma == 0 || mt == 0 {
            assert(n == 0) by (nonlinear_arith)
                requires
                    n == self@ * t@ * t@,
                    self@ == 0 || t@ == 0,
            ;
            return Fixed { raw: 0 };
        }
        assert(ma * mt <= 0x8000_0000_0000_0000 * 0x8000_0000_0000_0000) by (nonlinear_arith)
            requires
                ma <= 0x8000_0000_0000_0000,
                mt <= 0x8000_0000_0000_0000,
        ;
        let p: u128 = ma * mt;
        let q1: u128 = p / unit;
        let r1: u128 = p % unit;
        proof {
            lemma_split_division(p as int, mt as int, unit as int);
            assert(ma * mt * mt == (if self@ < 0 { -n } else { n })) by (nonlinear_arith)
                requires
                    n == self@ * t@ * t@,
                    ma == (if self@ < 0 { -self@ } else { self@ }),
                    mt == (if t@ < 0 { -t@ } else { t@ }),
            ;
            assert(ma * mt * mt > 0) by (nonlinear_arith)
                requires
                    ma > 0,
                    mt > 0,
            ;
            assert(r1 * mt <= 1_000_000_000_000_000_000 * 0x8000_0000_0000_0000) by (nonlinear_arith)
                requires
                    0 <= r1 < 1_000_000_000_000_000_000,
                    0 <= mt <= 0x8000_0000_0000_0000,
            ;
            assert(q1 * mt >= q1) by (nonlinear_arith)
                requires
                    q1 >= 0,
                    mt >= 1,
            ;
        }
        let rest: u128 = (r1 * mt + unit / 2) / unit;
        if q1 > 0x8000_0000_0000_0000 {
            return if self.raw < 0 {
                Fixed { raw: i64::MIN }
            } else {
                Fixed { raw: i64::MAX }
            };
        }
        assert(q1 * mt <= 0x8000_0000_0000_0000 * 0x8000_0000_0000_0000) by (nonlinear_arith)
            requires
                0 <= q1 <= 0x8000_0000_0000_0000,
                0 <= mt <= 0x8000_0000_0000_0000,
        ;
        let whole: u128 = q1 * mt + rest;
        if self.raw < 0 {
            clamp(-(whole as i128))
        } else {
            clamp(whole as i128)
        }
    }

    /// The number with the given count of billionths.
    pub fn from_raw(raw: i64) -> (r: Fixed)
        ensures
            r@ == raw,
    {
        Fixed { raw }
    }

    /// The whole number `n`.
    pub fn from_int(n: i32) -> (r: Fixed)
        ensures
            r@ == n * SCALE,
    {
        Fixed { raw: (n as i64) * SCALE }
    }

    /// Zero.
    pub fn zero() -> (r: Fixed)
        ensures
            r@ == 0,
    {
        Fixed { raw: 0 }
    }

    /// One.
    pub fn one() -> (r: Fixed)
        ensures
            r@ == SCALE,
    {
        Fixed { raw: SCALE }
    }

    /// The sum, saturating at the ends of the range.
    pub fn sat_add(self, rhs: Fixed) -> (r: Fixed)
        ensures
            r@ == fx_add(self@, rhs@),
    {
        clamp(self.raw as i128 + rhs.raw as i128)
    }

    /// The difference, saturating at the ends of the range.
    pub fn sat_sub(self, rhs: Fixed) -> (r: Fixed)
        ensures
            r@ == fx_sub(self@, rhs@),
    {
        clamp(self.raw as i128 - rhs.raw as i128)
    }

    /// The negation; the least value maps to the greatest.
    pub fn neg(self) -> (r: Fixed)
        ensures
            r@ == fx_neg(self@),
    {
        clamp(-(self.raw as i128))
    }

    /// The absolute value; the least value maps to the greatest.
    pub fn abs(self) -> (r: Fixed)
        ensures
            r@ == fx_abs(self@),
    {
        if self.raw >= 0 {
            self
        } else {
            clamp(-(self.raw as i128))
        }
    }

    /// The product, rounded to the nearest billionth and saturated.
    pub fn sat_mul(self, rhs: Fixed) -> (r: Fixed)
        ensures
            r@ == fx_mul(self@, rhs@),
    {
        let a: i128 = self.raw as i128;
        let b: i128 = rhs.raw as i128;
        assert(-0x4000_0000_0000_0000_0000_0000_0000_0000 <= a * b
            <= 0x4000_0000_0000_0000_0000_0000_0000_0000) by (nonlinear_arith)
            requires
                -0x8000_0000_0000_0000 <= a <= 0x8000_0000_0000_0000,
                -0x8000_0000_0000_0000 <= b <= 0x8000_0000_0000_0000,
        ;
        let n: i128 = a * b;
        let half: i128 = (SCALE / 2) as i128;
        let q: i128 = if n >= 0 {
            (n + half) / (SCALE as i128)
        } else {
            -((-n + half) / (SCALE as i128))
        };
        clamp(q)
    }

    /// The quotient, rounded to the nearest billionth and saturated, or
    /// `None` when the divisor is zero.
    pub fn checked_div(self, rhs: Fixed) -> (r: Option<Fixed>)
        ensures
            rhs@ == 0 <==> r is None,
            r matches Some(q) ==> q@ == fx_div(self@, rhs@),
    {
        if rhs.raw == 0 {
            None
        } else {
            let unit: i128 = SCALE as i128;
            let n: i128 = (self.raw as i128) * unit;
            Some(clamp(round_quotient(n, rhs.raw as i128)))
        }
    }

    /// Half of the value, rounded away from zero.
    pub fn half(self) -> (r: Fixed)
        ensures
            r@ == fx_half(self@),
    {
        let q: i128 = round_quotient(self.raw as i128, 2);
        Fixed { raw: q as i64 }
    }

    /// The square root rounded down to a billionth, or `None` for a negative
    /// number.
    pub fn sqrt(self) -> (r: Option<Fixed>)
        ensures
            self@ < 0 <==> r is None,
            r matches Some(s) ==> s@ == fx_sqrt(self@) && is_isqrt(self@ * SCALE, s@),
    {
        if self.raw < 0 {
            return None;
        }
        let x: i128 = (self.raw as i128) * (SCALE as i128);
        let mut lo: i128 = 0;
        let mut hi: i128 = 0x8000_0000_0000;
        assert(x < hi * hi) by (nonlinear_arith)
            requires
                x < 0x8000_0000_0000_0000 * 1_000_000_000,
                hi == 0x8000_0000_0000,
        ;
        while hi - lo > 1
            invariant
                0 <= lo < hi <= 0x8000_0000_0000,
                lo * lo <= x < hi * hi,
            decreases hi - lo,
        {
            let mid: i128 = lo + (hi - lo) / 2;
            assert(0 <= mid * mid <= 0x8000_0000_0000 * 0x8000_0000_0000) by (nonlinear_arith)
                requires
                    0 <= mid <= 0x8000_0000_0000,
            ;
            if mid * mid <= x {
                lo = mid;
            } else {
                hi = mid;
            }
        }
        proof {
            assert(is_isqrt(x as int, lo as int));
            lemma_isqrt_unique(x as int, lo as int, isqrt(x as int));
        }
        Some(Fixed { raw: lo as i64 })
    }

    /// The `n`-th power, each product rounded and saturated in turn.
    pub fn pow(self, n: usize) -> (r: Fixed)
        ensures
            r@ == fx_pow(self@, n as nat),
    {
        let mut acc = Fixed { raw: SCALE };
        let mut i: usize = 0;
        while i < n
            invariant
                i <= n,
                acc@ == fx_pow(self@, i as nat),
            decreases n - i,
        {
            acc = acc.sat_mul(self);
            i = i + 1;
        }
        acc
    }

    /// The `n`-th root: the greatest value whose `n`-th power does not exceed
    /// this one. `None` for a negative number or for `n == 0`.
    pub fn root(self, n: usize) -> (r: Option<Fixed>)
        ensures
            (self@ < 0 || n == 0) <==> r is None,
            r matches Some(s) ==> s@ == fx_root(self@, n as nat) && is_fx_root(self@, n as nat, s@),
    {
        if self.raw < 0 || n == 0 {
            return None;
        }
        let mut lo: i128 = 0;
        let mut hi: i128 = i64::MAX as i128 + 1;
        proof {
            lemma_fx_pow_zero(n as nat);
        }
        while hi - lo > 1
            invariant
                n >= 1,
                0 <= lo < hi <= i64::MAX + 1,
                fx_pow(lo as int, n as nat) <= self@,
                hi <= i64::MAX ==> fx_pow(hi as int, n as nat) > self@,
            decreases hi - lo,
        {
            let mid: i128 = lo + (hi - lo) / 2;
            let p = Fixed { raw: mid as i64 }.pow(n);
            if p.raw <= self.raw {
                lo = mid;
            } else {
                hi = mid;
            }
        }
        proof {
            assert(is_fx_root(self@, n as nat, lo as int));
            lemma_fx_root_unique(self@, n as nat, lo as int, fx_root(self@, n as nat));
        }
        Some(Fixed { raw: lo as i64 })
    }

    /// Whether the number lies strictly inside the range, so that it cannot
    /// be the clipped result of an operation.
    pub fn is_in_range(self) -> (r: bool)
        ensures
            r == in_range(self@),
    {
        i64::MIN < self.raw && self.raw < i64::MAX
    }

    /// Whether this number is less than `rhs`.
    pub fn lt(self, rhs: Fixed) -> (r: bool)
        ensures
            r == (self@ < rhs@),
    {
        self.raw < rhs.raw
    }

    /// Whether this number is at most `rhs`.
    pub fn le(self, rhs: Fixed) -> (r: bool)
        ensures
            r == (self@ <= rhs@),
    {
        self.raw <= rhs.raw
    }
}

/// Every positive power of zero is zero.
pub proof fn lemma_fx_pow_zero(n: nat)
    requires
        n >= 1,
    ensures
        fx_pow(0, n) == 0,
{
    let p = fx_pow(0, (n - 1) as nat);
    assert(fx_pow(0, n) == fx_mul(p, 0));
    assert(p * 0 == 0);
    assert(round_div(0, SCALE as int) == 0);
    assert(fx_mul(p, 0) == sat(round_div(p * 0, SCALE as int)));
}

} // verus!
