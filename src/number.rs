//! Exact numbers: decimal literals as written in chart text, and the rational timing values
//! that materialization computes with.
use vstd::prelude::*;

verus! {

/// The largest decimal mantissa that a numeric literal may carry, plus one.
pub const MANTISSA_LIMIT: u64 = 1_000_000_000_000_000_000;

/// The largest magnitude of the decimal exponent of a numeric literal.
pub const EXPONENT_LIMIT: i64 = 18;

/// The largest magnitude of a numerator or denominator of a [`Rational`].
pub const RATIONAL_LIMIT: i64 = 0x7fff_ffff_ffff_ffff;

/// `10^n`.
pub open spec fn pow10(n: nat) -> nat
    decreases n,
{
    if n == 0 {
        1
    } else {
        10 * pow10((n - 1) as nat)
    }
}

/// A decimal number `(-1)^negative * mantissa * 10^exponent`, exactly as written in chart text.
#[derive(Copy, Clone, Eq, PartialEq, Hash, Debug, Structural)]
pub struct Decimal {
    pub negative: bool,
    pub mantissa: u64,
    pub exponent: i64,
}

impl Decimal {
    /// The range that literals of the notation are held to.
    pub open spec fn wf(self) -> bool {
        &&& self.mantissa < MANTISSA_LIMIT
        &&& -EXPONENT_LIMIT <= self.exponent <= EXPONENT_LIMIT
    }

    /// Numerator of the exact value, over [`Decimal::spec_den`].
    pub open spec fn spec_num(self) -> int {
        let m: int = if self.exponent >= 0 {
            self.mantissa * pow10(self.exponent as nat)
        } else {
            self.mantissa as int
        };
        if self.negative {
            -m
        } else {
            m
        }
    }

    /// Denominator of the exact value.
    pub open spec fn spec_den(self) -> nat {
        if self.exponent >= 0 {
            1
        } else {
            pow10((-self.exponent) as nat)
        }
    }

    /// The value is strictly greater than zero.
    pub open spec fn spec_is_positive(self) -> bool {
        !self.negative && self.mantissa > 0
    }

    /// Whether the value is strictly greater than zero.
    pub fn is_positive(&self) -> (r: bool)
        ensures
            r == self.spec_is_positive(),
    {
        !self.negative && self.mantissa > 0
    }
}

/// Greatest common divisor, by Euclid's algorithm.
pub open spec fn gcd(a: nat, b: nat) -> nat
    decreases b,
{
    if b == 0 {
        a
    } else {
        gcd(b, a % b)
    }
}

/// The magnitude of an integer.
pub open spec fn abs(n: int) -> nat {
    if n < 0 {
        (-n) as nat
    } else {
        n as nat
    }
}

/// `n / d` in lowest terms, as (numerator, denominator); `d` is positive.
pub open spec fn lowest_terms(n: int, d: int) -> (int, int) {
    let g = gcd(abs(n), d as nat);
    let m = abs(n) / g;
    (if n < 0 {
        -m
    } else {
        m as int
    }, d / g as int)
}

/// An exact rational number of seconds (or any other quantity), `num / den`.
#[derive(Copy, Clone, Eq, PartialEq, Hash, Debug, Structural)]
pub struct Rational {
    pub num: i64,
    pub den: i64,
}

/// Whether a fraction fits the range of [`Rational`].
pub open spec fn fits(n: int, d: int) -> bool {
    &&& -RATIONAL_LIMIT <= n <= RATIONAL_LIMIT
    &&& 1 <= d <= RATIONAL_LIMIT
}

/// The rational `n / d` (`d` positive) in lowest terms, or `None` where those terms leave the
/// range of [`Rational`].
pub open spec fn make_rational(n: int, d: int) -> Option<Rational> {
    let (a, b) = lowest_terms(n, d);
    if fits(a, b) {
        Some(Rational { num: a as i64, den: b as i64 })
    } else {
        None
    }
}

/// `x + y`.
pub open spec fn rational_add(x: Rational, y: Rational) -> Option<Rational> {
    make_rational(x.num * y.den + y.num * x.den, x.den * y.den)
}

/// `x * k / d`.
pub open spec fn rational_scale(x: Rational, k: int, d: int) -> Option<Rational> {
    make_rational(x.num * k, x.den * d)
}

/// `c / x`, for a positive `x`.
pub open spec fn rational_div_into(c: int, x: Rational) -> Option<Rational> {
    make_rational(c * x.den, x.num as int)
}

/// The exact value of a decimal literal.
pub open spec fn rational_of_decimal(x: Decimal) -> Option<Rational> {
    if x.wf() {
        make_rational(x.spec_num(), x.spec_den() as int)
    } else {
        None
    }
}

/// Two fractions denote the same number.
pub open spec fn same_value(n1: int, d1: int, n2: int, d2: int) -> bool {
    n1 * d2 == n2 * d1
}

impl Rational {
    /// Denominator positive, and both parts within range.
    pub open spec fn wf(self) -> bool {
        fits(self.num as int, self.den as int)
    }

    /// The rational `num / den` in lowest terms.
    pub fn new(num: i64, den: i64) -> (r: Option<Rational>)
        requires
            den > 0,
        ensures
            r == make_rational(num as int, den as int),
    {
        make_exact(num as i128, den as i128)
    }

    /// Zero.
    pub fn zero() -> (r: Rational)
        ensures
            r == (Rational { num: 0, den: 1 }),
    {
        Rational { num: 0, den: 1 }
    }
}

pub proof fn lemma_gcd_positive(a: nat, b: nat)
    requires
        b > 0,
    ensures
        gcd(a, b) > 0,
    decreases b,
{
    if a % b > 0 {
        lemma_gcd_positive(b, a % b);
    } else {
        assert(gcd(b, 0) == b);
    }
}

proof fn lemma_gcd_divides(a: nat, b: nat)
    ensures
        gcd(a, b) > 0 ==> a % gcd(a, b) == 0 && b % gcd(a, b) == 0,
    decreases b,
{
    if b > 0 {
        lemma_gcd_divides(b, a % b);
        let g = gcd(b, a % b);
        if g > 0 {
            // a == (a / b) * b + a % b, and g divides both b and a % b
            let q = a / b;
            let r = a % b;
            assert(a == q * b + r) by (nonlinear_arith)
                requires
                    b > 0,
                    q == a / b,
                    r == a % b,
            ;
            assert(b == (b / g) * g) by (nonlinear_arith)
                requires
                    g > 0,
                    b % g == 0,
            ;
            assert(r == (r / g) * g) by (nonlinear_arith)
                requires
                    g > 0,
                    r % g == 0,
            ;
            let k = q * (b / g) + r / g;
            assert(a == k * g) by (nonlinear_arith)
                requires
                    a == q * b + r,
                    b == (b / g) * g,
                    r == (r / g) * g,
                    k == q * (b / g) + r / g,
            ;
            vstd::arithmetic::div_mod::lemma_mod_multiples_basic(k as int, g as int);
        }
    }
}

/// Greatest common divisor of two naturals.
fn gcd_exec(a: u128, b: u128) -> (r: u128)
    ensures
        r == gcd(a as nat, b as nat),
{
    let mut x: u128 = a;
    let mut y: u128 = b;
    while y != 0
        invariant
            gcd(x as nat, y as nat) == gcd(a as nat, b as nat),
        decreases y,
    {
        let t: u128 = x % y;
        x = y;
        y = t;
    }
    x
}

/// The bound under which the intermediate fractions of this module are computed.
pub open spec fn wide(n: int) -> bool {
    -0x7fff_ffff_ffff_ffff_ffff_ffff_ffff_ffff <= n <= 0x7fff_ffff_ffff_ffff_ffff_ffff_ffff_ffff
}

/// `n / d` in lowest terms, if those fit a [`Rational`].
pub(crate) fn make_exact(n: i128, d: i128) -> (r: Option<Rational>)
    requires
        d > 0,
        wide(n as int),
        wide(d as int),
    ensures
        r == make_rational(n as int, d as int),
{
    let a: u128 = if n < 0 {
        (-n) as u128
    } else {
        n as u128
    };
    let g = gcd_exec(a, d as u128);
    proof {
        lemma_gcd_positive(a as nat, d as nat);
    }
    let m: u128 = a / g;
    let e: u128 = (d as u128) / g;
    proof {
        let (ai, di, gi, mi, ei) = (a as int, d as int, g as int, m as int, e as int);
        assert(mi <= ai && ei <= di) by (nonlinear_arith)
            requires
                gi > 0,
                ai >= 0,
                di >= 0,
                mi == ai / gi,
                ei == di / gi,
        ;
    }
    if m <= RATIONAL_LIMIT as u128 && 1 <= e && e <= RATIONAL_LIMIT as u128 {
        let num: i64 = if n < 0 {
            -(m as i64)
        } else {
            m as i64
        };
        Some(Rational { num, den: e as i64 })
    } else {
        None
    }
}

/// `x + y`, exactly.
pub fn sum(x: Rational, y: Rational) -> (r: Option<Rational>)
    requires
        x.wf(),
        y.wf(),
    ensures
        r == rational_add(x, y),
        r matches Some(v) ==> same_value(
            v.num as int,
            v.den as int,
            x.num * y.den + y.num * x.den,
            x.den * y.den,
        ),
{
    proof {
        lemma_product_bound(x.num as int, y.den as int);
        lemma_product_bound(y.num as int, x.den as int);
        lemma_product_bound(x.den as int, y.den as int);
    }
    let n: i128 = (x.num as i128) * (y.den as i128) + (y.num as i128) * (x.den as i128);
    let d: i128 = (x.den as i128) * (y.den as i128);
    let r = make_exact(n, d);
    proof {
        if r is Some {
            lemma_lowest_terms_same_value(n as int, d as int);
        }
    }
    r
}

/// `x * k / d`, exactly.
pub fn scale(x: Rational, k: i64, d: i64) -> (r: Option<Rational>)
    requires
        x.wf(),
        -RATIONAL_LIMIT <= k <= RATIONAL_LIMIT,
        1 <= d <= RATIONAL_LIMIT,
    ensures
        r == rational_scale(x, k as int, d as int),
        r matches Some(v) ==> same_value(v.num as int, v.den as int, x.num * k, x.den * d),
{
    proof {
        lemma_product_bound(x.num as int, k as int);
        lemma_product_bound(x.den as int, d as int);
    }
    let r = make_exact((x.num as i128) * (k as i128), (x.den as i128) * (d as i128));
    proof {
        if r is Some {
            lemma_lowest_terms_same_value(x.num * k, x.den * d);
        }
    }
    r
}

/// `c / x`, exactly, for a positive `x`.
pub fn div_into(c: i64, x: Rational) -> (r: Option<Rational>)
    requires
        x.wf(),
        x.num > 0,
        -RATIONAL_LIMIT <= c <= RATIONAL_LIMIT,
    ensures
        r == rational_div_into(c as int, x),
        r matches Some(v) ==> same_value(v.num as int, v.den as int, c * x.den, x.num as int),
{
    proof {
        lemma_product_bound(c as int, x.den as int);
    }
    let r = make_exact((c as i128) * (x.den as i128), x.num as i128);
    proof {
        if r is Some {
            lemma_lowest_terms_same_value(c * x.den, x.num as int);
        }
    }
    r
}

proof fn lemma_product_bound(a: int, b: int)
    requires
        -RATIONAL_LIMIT <= a <= RATIONAL_LIMIT,
        -RATIONAL_LIMIT <= b <= RATIONAL_LIMIT,
    ensures
        -0x3fff_ffff_ffff_ffff_0000_0000_0000_0001 <= a * b <= 0x3fff_ffff_ffff_ffff_0000_0000_0000_0001,
        a > 0 && b > 0 ==> a * b > 0,
{
    if a > 0 && b > 0 {
        assert(a * b > 0) by (nonlinear_arith)
            requires
                a > 0,
                b > 0,
        ;
    }
    assert(-0x3fff_ffff_ffff_ffff_0000_0000_0000_0001 <= a * b <= 0x3fff_ffff_ffff_ffff_0000_0000_0000_0001) by (nonlinear_arith)
        requires
            -0x7fff_ffff_ffff_ffff <= a <= 0x7fff_ffff_ffff_ffff,
            -0x7fff_ffff_ffff_ffff <= b <= 0x7fff_ffff_ffff_ffff,
    ;
}

/// Lowest terms denote the same number.
pub proof fn lemma_lowest_terms_same_value(n: int, d: int)
    requires
        d > 0,
    ensures
        same_value(lowest_terms(n, d).0, lowest_terms(n, d).1, n, d),
        lowest_terms(n, d).1 > 0,
{
    let a = abs(n);
    let g = gcd(a, d as nat);
    lemma_gcd_positive(a, d as nat);
    lemma_gcd_divides(a, d as nat);
    let m = a / g;
    let e = d / g as int;
    assert(a == m * g) by (nonlinear_arith)
        requires
            g > 0,
            a % g == 0,
            m == a / g,
    ;
    assert(d == e * g && e > 0) by (nonlinear_arith)
        requires
            g > 0,
            d > 0,
            d % g as int == 0,
            e == d / g as int,
    ;
    let s: int = if n < 0 {
        -m
    } else {
        m as int
    };
    assert(n == s * g) by (nonlinear_arith)
        requires
            a == m * g,
            a == abs(n),
            s == (if n < 0 {
                -m
            } else {
                m as int
            }),
    ;
    assert(s * d == n * e) by (nonlinear_arith)
        requires
            n == s * g,
            d == e * g,
    ;
}

/// Powers of ten are positive.
pub proof fn lemma_pow10_positive(n: nat)
    ensures
        pow10(n) >= 1,
    decreases n,
{
    if n > 0 {
        lemma_pow10_positive((n - 1) as nat);
    }
}

/// Powers of ten grow.
pub proof fn lemma_pow10_le(a: nat, b: nat)
    requires
        a <= b,
    ensures
        1 <= pow10(a) <= pow10(b),
    decreases b - a,
{
    lemma_pow10_positive(a);
    if a < b {
        lemma_pow10_le(a, (b - 1) as nat);
    }
}

/// `10^n`, for an exponent that keeps it within a `u64`.
fn pow10_exec(n: u64) -> (r: u64)
    requires
        n <= EXPONENT_LIMIT,
    ensures
        r == pow10(n as nat),
        r <= 1_000_000_000_000_000_000,
{
    proof {
        reveal_with_fuel(pow10, 19);
        assert(pow10(18) == 1_000_000_000_000_000_000);
        lemma_pow10_le(n as nat, 18);
    }
    let mut r: u64 = 1;
    let mut i: u64 = 0;
    while i < n
        invariant
            i <= n <= 18,
            r == pow10(i as nat),
            pow10(n as nat) <= 1_000_000_000_000_000_000,
        decreases n - i,
    {
        proof {
            lemma_pow10_le((i + 1) as nat, n as nat);
        }
        r = r * 10;
        i = i + 1;
    }
    r
}

impl Decimal {
    /// The exact value as a rational in lowest terms, if that fits a [`Rational`].
    pub fn to_rational(&self) -> (r: Option<Rational>)
        ensures
            r == rational_of_decimal(*self),
    {
        if !(self.mantissa < MANTISSA_LIMIT && -EXPONENT_LIMIT <= self.exponent && self.exponent
            <= EXPONENT_LIMIT) {
            return None;
        }
        let m: i128 = self.mantissa as i128;
        let (n, d): (i128, i128) = if self.exponent >= 0 {
            let p = pow10_exec(self.exponent as u64);
            proof {
                assert(m * p <= 1_000_000_000_000_000_000 * 1_000_000_000_000_000_000) by (
                nonlinear_arith)
                    requires
                        0 <= m <= 1_000_000_000_000_000_000,
                        0 <= p <= 1_000_000_000_000_000_000,
                ;
            }
            (m * p as i128, 1)
        } else {
            (m, pow10_exec((0 - self.exponent) as u64) as i128)
        };
        proof {
            lemma_pow10_le(0, abs(self.exponent as int));
        }
        let n: i128 = if self.negative {
            -n
        } else {
            n
        };
        make_exact(n, d)
    }
}

/// What [`make_rational`] gives is in range, has the sign of `n`, and denotes `n / d`.
pub proof fn lemma_make_rational(n: int, d: int)
    requires
        d > 0,
        make_rational(n, d) is Some,
    ensures
        make_rational(n, d)->0.wf(),
        n > 0 <==> make_rational(n, d)->0.num > 0,
        n == 0 <==> make_rational(n, d)->0.num == 0,
        same_value(make_rational(n, d)->0.num as int, make_rational(n, d)->0.den as int, n, d),
{
    lemma_lowest_terms_same_value(n, d);
    let (a, b) = lowest_terms(n, d);
    assert((n > 0 <==> a > 0) && (n == 0 <==> a == 0)) by (nonlinear_arith)
        requires
            a * d == n * b,
            d > 0,
            b > 0,
    ;
}

/// The denominator of a decimal is positive.
pub proof fn lemma_decimal_den(x: Decimal)
    ensures
        x.spec_den() > 0,
{
    lemma_pow10_positive(abs(x.exponent as int));
}

/// A positive decimal has a positive value.
pub proof fn lemma_decimal_positive(x: Decimal)
    requires
        x.spec_is_positive(),
    ensures
        x.spec_num() > 0,
        x.spec_den() > 0,
{
    lemma_pow10_positive(abs(x.exponent as int));
    if x.exponent >= 0 {
        let p = pow10(x.exponent as nat);
        assert(x.mantissa * p > 0) by (nonlinear_arith)
            requires
                x.mantissa > 0,
                p >= 1,
        ;
    }
}

/// `r` is `x + y`.
pub open spec fn is_sum(r: Rational, x: Rational, y: Rational) -> bool {
    same_value(r.num as int, r.den as int, x.num * y.den + y.num * x.den, x.den * y.den)
}

/// `x < y`, for positive denominators.
pub open spec fn less_than(x: Rational, y: Rational) -> bool {
    x.num * y.den < y.num * x.den
}

/// Adding a positive number gives a larger one.
pub proof fn lemma_sum_grows(r: Rational, x: Rational, y: Rational)
    requires
        x.wf(),
        y.wf(),
        r.wf(),
        y.num > 0,
        is_sum(r, x, y),
    ensures
        less_than(x, r),
{
    let (rn, rd, xn, xd, yn, yd) = (
        r.num as int,
        r.den as int,
        x.num as int,
        x.den as int,
        y.num as int,
        y.den as int,
    );
    assert(rn * (xd * yd) == (xn * yd + yn * xd) * rd);
    assert((rn * xd) * yd == (xn * rd) * yd + yn * xd * rd) by (nonlinear_arith)
        requires
            rn * (xd * yd) == (xn * yd + yn * xd) * rd,
    ;
    assert(yn * xd * rd > 0) by (nonlinear_arith)
        requires
            yn > 0,
            xd > 0,
            rd > 0,
    ;
    assert(xn * rd < rn * xd) by (nonlinear_arith)
        requires
            (rn * xd) * yd == (xn * rd) * yd + yn * xd * rd,
            yn * xd * rd > 0,
            yd > 0,
    ;
}

/// A common divisor of two naturals divides their greatest common divisor.
proof fn lemma_common_divisor(a: nat, b: nat, c: nat)
    requires
        c > 0,
        a % c == 0,
        b % c == 0,
    ensures
        gcd(a, b) % c == 0,
    decreases b,
{
    if b > 0 {
        let q = a / b;
        let r = a % b;
        let (ai, bi, ci, qi, ri) = (a as int, b as int, c as int, q as int, r as int);
        assert(ai == qi * bi + ri) by (nonlinear_arith)
            requires
                bi > 0,
                qi == ai / bi,
                ri == ai % bi,
        ;
        let x = ai / ci;
        let y = bi / ci;
        assert(ai == x * ci && bi == y * ci) by (nonlinear_arith)
            requires
                ci > 0,
                ai % ci == 0,
                bi % ci == 0,
                x == ai / ci,
                y == bi / ci,
        ;
        let k = x - qi * y;
        assert(ri == k * ci) by (nonlinear_arith)
            requires
                ai == qi * bi + ri,
                ai == x * ci,
                bi == y * ci,
                k == x - qi * y,
        ;
        assert(k >= 0) by (nonlinear_arith)
            requires
                ri == k * ci,
                ri >= 0,
                ci > 0,
        ;
        vstd::arithmetic::div_mod::lemma_mod_multiples_basic(k, ci);
        lemma_common_divisor(b, r, c);
    }
}

/// Scaling by `k / k` keeps a rational in range and keeps its value.
pub proof fn lemma_scale_by_one(x: Rational, k: int)
    requires
        x.wf(),
        1 <= k <= RATIONAL_LIMIT,
    ensures
        rational_scale(x, k, k) is Some,
        same_value(
            rational_scale(x, k, k)->0.num as int,
            rational_scale(x, k, k)->0.den as int,
            x.num as int,
            x.den as int,
        ),
{
    let n = x.num * k;
    let d = x.den * k;
    let an = abs(x.num as int);
    assert(abs(n) == an * k) by (nonlinear_arith)
        requires
            n == x.num * k,
            k > 0,
            an == abs(x.num as int),
    ;
    assert(d > 0) by (nonlinear_arith)
        requires
            d == x.den * k,
            x.den > 0,
            k > 0,
    ;
    vstd::arithmetic::div_mod::lemma_mod_multiples_basic(an as int, k);
    vstd::arithmetic::div_mod::lemma_mod_multiples_basic(x.den as int, k);
    assert((x.den * k) % k == 0) by (nonlinear_arith)
        requires
            (x.den * k) % k == 0,
    ;
    let g = gcd(abs(n), d as nat) as int;
    lemma_gcd_positive(abs(n), d as nat);
    lemma_common_divisor(abs(n), d as nat, k as nat);
    assert(g >= k) by (nonlinear_arith)
        requires
            g > 0,
            g % k == 0,
            k > 0,
    ;
    vstd::arithmetic::div_mod::lemma_div_is_ordered_by_denominator(abs(n) as int, k, g as int);
    vstd::arithmetic::div_mod::lemma_div_is_ordered_by_denominator(d, k, g as int);
    assert((an * k) / k == an && d / k == x.den) by (nonlinear_arith)
        requires
            k > 0,
            d == x.den * k,
    ;
    lemma_lowest_terms_same_value(n, d);
    let (a, b) = lowest_terms(n, d);
    assert(fits(a, b));
    assert(a * x.den == x.num * b) by (nonlinear_arith)
        requires
            a * d == n * b,
            d == x.den * k,
            n == x.num * k,
            k > 0,
    ;
}

} // verus!
