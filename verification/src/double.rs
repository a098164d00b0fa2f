//! Numbers in the IEEE 754 binary64 format, held as their 64 bits.
//!
//! Rates are quotients of counts, rounded to binary64 in every step as the
//! format prescribes: to the nearest number that can be held, and of two equally
//! near ones to the one with an even significand.
use vstd::arithmetic::div_mod::*;
use vstd::arithmetic::mul::*;
use vstd::arithmetic::power2::*;
use vstd::prelude::*;
use vstd::string::*;

use crate::decimal;
use crate::num;

verus! {

/// The bits of 1.
pub const ONE_BITS: u64 = 0x3ff0_0000_0000_0000;

/// The bits of 100.
pub const HUNDRED_BITS: u64 = 0x4059_0000_0000_0000;

/// The bits of infinity.
pub const INFINITE_BITS: u64 = 0x7ff0_0000_0000_0000;

/// The bit of the sign.
pub const SIGN_BIT: u64 = 0x8000_0000_0000_0000;

/// Two to the power of 52, the number of significands of one binade.
pub const BINADE: u64 = 0x0010_0000_0000_0000;

/// A binary64 number.
#[derive(Clone, Copy, Debug, PartialEq, Eq, Structural)]
pub struct Double {
    pub bits: u64,
}

// ---------------------------------------------------------------------------
// What the bits mean
// ---------------------------------------------------------------------------
impl Double {
    /// Whether the sign is minus; zero has both signs.
    pub open spec fn negative(self) -> bool {
        self.bits >= SIGN_BIT
    }

    /// The bits without the sign.
    pub open spec fn magnitude(self) -> int {
        if self.negative() {
            self.bits - SIGN_BIT
        } else {
            self.bits as int
        }
    }

    /// Whether this is no number.
    pub open spec fn is_nan(self) -> bool {
        self.magnitude() > INFINITE_BITS
    }

    /// Whether this is plus or minus infinity.
    pub open spec fn is_infinite(self) -> bool {
        self.magnitude() == INFINITE_BITS
    }

    /// Whether this is a number that is not infinite: then it is plus or minus
    /// `significand` times two to the power of `exponent`.
    pub open spec fn is_finite(self) -> bool {
        self.magnitude() < INFINITE_BITS
    }

    pub open spec fn significand(self) -> int {
        if self.magnitude() / (BINADE as int) == 0 {
            self.magnitude() % (BINADE as int)
        } else {
            BINADE + self.magnitude() % (BINADE as int)
        }
    }

    pub open spec fn exponent(self) -> int {
        if self.magnitude() / (BINADE as int) == 0 {
            -1074
        } else {
            self.magnitude() / (BINADE as int) - 1075
        }
    }

    /// The place of a number in the order of numbers; both zeros have one place.
    pub open spec fn place(self) -> int {
        if self.negative() {
            -self.magnitude()
        } else {
            self.magnitude()
        }
    }

    /// Whether this is less than `other`; nothing is less or greater than no
    /// number.
    pub open spec fn less(self, other: Double) -> bool {
        !self.is_nan() && !other.is_nan() && self.place() < other.place()
    }

    /// Whether this lies between 0 and 100, both included.
    pub open spec fn is_percentage(self) -> bool {
        !self.is_nan() && 0 <= self.place() <= HUNDRED_BITS
    }
}

/// Two to the power of `e`, or 1 where `e` is negative.
pub open spec fn up(e: int) -> int {
    if e > 0 {
        pow2(e as nat) as int
    } else {
        1
    }
}

/// The integer nearest to `num / den`, the even one of two equally near ones.
pub open spec fn half_even(num: int, den: int) -> int {
    let q = num / den;
    let r = num % den;
    if 2 * r > den || (2 * r == den && q % 2 == 1) {
        q + 1
    } else {
        q
    }
}

/// Whether `num / den`, divided by two to the power of `e`, needs exactly 53 bits
/// before the point.
pub open spec fn in_binade(num: int, den: int, e: int) -> bool {
    BINADE * (den * up(e)) <= num * up(-e) < 2 * BINADE * (den * up(e))
}

/// The exponent with which `num / den` is rounded.
pub open spec fn binade(num: int, den: int) -> int {
    choose|e: int| in_binade(num, den, e)
}

/// The bits of the binary64 number nearest to `num / den`, for a quotient that is
/// zero or neither too large nor too small for a full significand.
pub open spec fn nearest_bits(num: int, den: int) -> int {
    if num == 0 {
        0
    } else {
        let e = binade(num, den);
        (e + 1074) * BINADE + half_even(num * up(-e), den * up(e))
    }
}

/// The integer that the binary64 number nearest to the natural number `n` is.
pub open spec fn nearest_integer(n: int) -> int {
    if n < 2 * BINADE {
        n
    } else {
        let e = binade(n, 1);
        half_even(n, up(e)) * up(e)
    }
}

/// The bits of `a * k`, for a positive number `a`.
pub open spec fn product_bits(a: Double, k: int) -> int {
    nearest_bits(a.significand() * k * up(a.exponent()), up(-a.exponent()))
}

/// The bits of `part / whole * 100`, each of the two steps rounded; zero where
/// `whole` is zero.
pub open spec fn percentage_bits(part: int, whole: int) -> int {
    if whole == 0 || part == 0 {
        0
    } else {
        product_bits(
            Double { bits: nearest_bits(nearest_integer(part), nearest_integer(whole)) as u64 },
            100,
        )
    }
}

// ---------------------------------------------------------------------------
// Facts about rounding
// ---------------------------------------------------------------------------
proof fn up_step(e: int)
    requires
        e >= 0,
    ensures
        up(e + 1) == 2 * up(e),
        up(e) > 0,
{
    lemma_pow2_pos((e + 1) as nat);
    lemma_pow2_unfold((e + 1) as nat);
    if e == 0 {
        lemma2_to64();
    } else {
        lemma_pow2_pos(e as nat);
    }
}

proof fn up_small(e: int)
    requires
        0 <= e <= 11,
    ensures
        up(e) <= 2048,
{
    lemma2_to64();
    if e < 11 {
        lemma_pow2_strictly_increases(e as nat, 11);
    }
}

proof fn up_pos(e: int)
    ensures
        up(e) >= 1,
{
    if e > 0 {
        lemma_pow2_pos(e as nat);
    }
}

proof fn up_adds(a: int, b: int)
    requires
        a >= 0,
        b >= 0,
    ensures
        up(a + b) == up(a) * up(b),
{
    lemma2_to64();
    lemma_pow2_adds(a as nat, b as nat);
}

/// A quotient is rounded with one exponent only.
proof fn binade_unique(num: int, den: int, a: int, b: int)
    requires
        num > 0,
        den > 0,
        in_binade(num, den, a),
        in_binade(num, den, b),
    ensures
        a == b,
{
    if a < b {
        binade_ordered(num, den, a, b);
    } else if b < a {
        binade_ordered(num, den, b, a);
    }
}

proof fn binade_ordered(num: int, den: int, a: int, b: int)
    requires
        num > 0,
        den > 0,
        a < b,
        in_binade(num, den, a),
    ensures
        !in_binade(num, den, b),
{
    if in_binade(num, den, b) {
        // up(-a) * up(b) == up(b - a) * up(-b) * up(a): the two scalings differ by
        // the factor up(b - a), which is at least 2.
        let f = up(b - a);
        up_pos(a);
        up_pos(b);
        up_pos(-a);
        up_pos(-b);
        up_step(b - a - 1);
        assert(f >= 2) by {
            up_pos(b - a - 1);
        }
        assert(up(-a) * up(b) == f * (up(-b) * up(a))) by {
            if a >= 0 {
                up_adds(a, b - a);
                assert(up(b) == up(a) * f);
                assert(1 * (up(a) * f) == f * (1 * up(a))) by (nonlinear_arith);
            } else if b <= 0 {
                up_adds(-b, b - a);
                assert(up(-a) == up(-b) * f);
                assert((up(-b) * f) * 1 == f * (up(-b) * 1)) by (nonlinear_arith);
            } else {
                up_adds(-a, b);
                assert(up(-a) * up(b) == f);
                assert(f == f * (1 * 1)) by (nonlinear_arith);
            }
        }
        let na = num * up(-a);
        let da = den * up(a);
        let nb = num * up(-b);
        let db = den * up(b);
        assert(na * db == f * (nb * da)) by (nonlinear_arith)
            requires
                up(-a) * up(b) == f * (up(-b) * up(a)),
                na == num * up(-a),
                da == den * up(a),
                nb == num * up(-b),
                db == den * up(b),
        {
            assert(na * db == (num * den) * (up(-a) * up(b)));
            assert(f * (nb * da) == (num * den) * (f * (up(-b) * up(a))));
        }
        assert(da > 0) by (nonlinear_arith)
            requires
                da == den * up(a),
                den > 0,
                up(a) >= 1,
        ;
        assert(db > 0) by (nonlinear_arith)
            requires
                db == den * up(b),
                den > 0,
                up(b) >= 1,
        ;
        let c = BINADE as int;
        assert(f * (nb * da) >= 2 * (c * db * da)) by (nonlinear_arith)
            requires
                f >= 2,
                nb >= c * db,
                da > 0,
                db > 0,
                c > 0,
        {
            assert(nb * da >= c * db * da);
            assert(c * db * da >= 0);
            assert(f * (nb * da) >= 2 * (nb * da));
        }
        assert(na * db < 2 * c * da * db) by (nonlinear_arith)
            requires
                na < 2 * c * da,
                db > 0,
        ;
        assert(2 * (c * db * da) == 2 * c * da * db) by (nonlinear_arith);
        assert(false);
    }
}

/// Rounding a quotient does not depend on a common factor.
proof fn half_even_common_factor(num: int, den: int, c: int)
    requires
        num >= 0,
        den > 0,
        c > 0,
    ensures
        half_even(num * c, den * c) == half_even(num, den),
{
    let q = num / den;
    let r = num % den;
    lemma_fundamental_div_mod(num, den);
    lemma_mod_bound(num, den);
    assert(num * c == q * (den * c) + r * c) by (nonlinear_arith)
        requires
            num == den * q + r,
    ;
    assert(0 <= r * c < den * c) by (nonlinear_arith)
        requires
            0 <= r < den,
            c > 0,
    ;
    lemma_fundamental_div_mod_converse(num * c, den * c, q, r * c);
    assert((2 * (r * c) > den * c) == (2 * r > den)) by (nonlinear_arith)
        requires
            c > 0,
    ;
    assert((2 * (r * c) == den * c) == (2 * r == den)) by (nonlinear_arith)
        requires
            c > 0,
    ;
}

/// The significand of a rounded quotient has 53 bits, or is the first number
/// with 54.
proof fn half_even_range(num: int, den: int)
    requires
        den > 0,
        BINADE * den <= num < 2 * BINADE * den,
    ensures
        BINADE <= half_even(num, den) <= 2 * BINADE,
{
    let q = num / den;
    lemma_fundamental_div_mod(num, den);
    lemma_mod_bound(num, den);
    assert(q >= BINADE) by (nonlinear_arith)
        requires
            num == den * q + num % den,
            0 <= num % den < den,
            BINADE * den <= num,
            den > 0,
    ;
    assert(q < 2 * BINADE) by (nonlinear_arith)
        requires
            num == den * q + num % den,
            0 <= num % den < den,
            num < 2 * BINADE * den,
            den > 0,
    ;
}

// ---------------------------------------------------------------------------
// Rounding
// ---------------------------------------------------------------------------
fn halve_even(num: u128, den: u128) -> (r: u128)
    requires
        0 < den <= 0x1000_0000_0000_0000_0000_0000_0000_0000,
        num <= 0x1000_0000_0000_0000_0000_0000_0000_0000,
    ensures
        r == half_even(num as int, den as int),
{
    let q = num / den;
    let r = num % den;
    if 2 * r > den || (2 * r == den && q % 2 == 1) {
        q + 1
    } else {
        q
    }
}

/// The bits of the number nearest to `num / den`.
fn round_ratio(num: u128, den: u128) -> (d: Double)
    requires
        0 < den <= 0x1_0000_0000_0000_0000,
        0 < num <= 0x1_0000_0000_0000_0000,
    ensures
        d.bits == nearest_bits(num as int, den as int),
        d.is_finite(),
        !d.negative(),
        d.significand() >= BINADE,
        -120 <= d.exponent() <= 14,
        num <= den ==> d.bits <= ONE_BITS,
        num == den ==> d.bits == ONE_BITS,
{
    let mut n: u128 = num;
    let mut d: u128 = den;
    let mut e: i32 = 0;
    proof {
        up_pos(0);
    }
    while n >= 0x0020_0000_0000_0000 * d
        invariant
            0 <= e <= 12,
            n == num,
            0 < n <= 0x1_0000_0000_0000_0000,
            0 < den,
            d == den * up(e as int),
            0 < d <= 0x1_0000_0000_0000_0000,
            e > 0 ==> n >= 0x0010_0000_0000_0000 * d,
            d >= up(e as int),
        decreases 12 - e,
    {
        proof {
            up_step(e as int);
            assert(den * (2 * up(e as int)) == 2 * (den * up(e as int))) by (nonlinear_arith);
            assert(e < 12) by {
                if e == 12 {
                    assert(up(12) == 4096) by {
                        lemma2_to64();
                    }
                }
            }
        }
        d = 2 * d;
        e = e + 1;
    }
    let ghost first = e;
    assert(up(-e as int) == 1);
    while n < 0x0010_0000_0000_0000 * d
        invariant
            -116 <= e <= 12,
            0 < n <= 0x20_0000_0000_0000_0000_0000_0000_0000,
            e > 0 ==> n >= 0x0010_0000_0000_0000 * d,
            n == num * up(-e),
            d == den * up(e as int),
            0 < num,
            0 < d <= 0x1_0000_0000_0000_0000,
            n < 0x0020_0000_0000_0000 * d,
            e <= 0 ==> n >= up(-e),
        decreases e + 116,
    {
        proof {
            up_step(-e as int);
            assert(num * (2 * up(-e)) == 2 * (num * up(-e))) by (nonlinear_arith);
            assert(e > -116) by {
                if e == -116 {
                    assert(up(116) == 0x10_0000_0000_0000_0000_0000_0000_0000) by {
                        lemma2_to64();
                        lemma2_to64_rest();
                        up_adds(52, 64);
                        assert(up(52) * up(64) == 0x10_0000_0000_0000_0000_0000_0000_0000)
                            by (nonlinear_arith)
                            requires
                                up(52) == 0x10_0000_0000_0000,
                                up(64) == 0x1_0000_0000_0000_0000,
                        ;
                    }
                }
            }
        }
        n = 2 * n;
        e = e - 1;
    }
    let m = halve_even(n, d);
    proof {
        assert(in_binade(num as int, den as int, e as int));
        binade_unique(num as int, den as int, e as int, binade(num as int, den as int));
        half_even_range(n as int, d as int);
    }
    let bits: u64 = (e + 1074) as u64 * BINADE + m as u64;
    proof {
        bits_of_parts((e + 1074) as int, m as int);
        if num <= den {
            at_most_one(num as int, den as int, e as int);
        }
    }
    Double { bits }
}

/// A quotient of at most one is rounded to at most one.
proof fn at_most_one(num: int, den: int, e: int)
    requires
        0 < num <= den,
        in_binade(num, den, e),
    ensures
        (e + 1074) * BINADE + half_even(num * up(-e), den * up(e)) <= ONE_BITS,
        num == den ==> (e + 1074) * BINADE + half_even(num * up(-e), den * up(e)) == ONE_BITS,
{
    lemma2_to64();
    lemma2_to64_rest();
    up_pos(e);
    up_pos(-e);
    let n = num * up(-e);
    let d = den * up(e);
    assert(d >= den && d > 0) by (nonlinear_arith)
        requires
            d == den * up(e),
            den > 0,
            up(e) >= 1,
    ;
    assert(n <= den * up(-e)) by (nonlinear_arith)
        requires
            n == num * up(-e),
            num <= den,
            up(-e) >= 1,
    ;
    if e > -52 {
        if e < -51 {
        } else if e < 0 && e > -51 {
            lemma_pow2_strictly_increases((-e) as nat, 51);
        }
        assert(up(-e) <= 0x0008_0000_0000_0000);
        assert(den * up(-e) < 0x0010_0000_0000_0000 * d) by (nonlinear_arith)
            requires
                up(-e) <= 0x0008_0000_0000_0000,
                up(-e) >= 1,
                0 < den <= d,
        ;
    }
    assert(e <= -52);
    assert(d == den);
    half_even_range(n, d);
    if e < -52 {
        if num == den {
            if e < -53 {
                lemma_pow2_strictly_increases(53, (-e) as nat);
            }
            assert(den * up(-e) >= 0x0020_0000_0000_0000 * d) by (nonlinear_arith)
                requires
                    up(-e) >= 0x0020_0000_0000_0000,
                    den == d,
                    d > 0,
            ;
        }
    } else {
        assert(up(52) == 0x0010_0000_0000_0000);
        assert(n == 0x0010_0000_0000_0000 * d) by (nonlinear_arith)
            requires
                n <= den * up(-e),
                up(-e) == 0x0010_0000_0000_0000,
                den == d,
                0x0010_0000_0000_0000 * d <= n,
        ;
        lemma_fundamental_div_mod_converse(n, d, 0x0010_0000_0000_0000, 0);
    }
}

/// The bits put together from an exponent and a significand mean just that; a
/// significand of 54 bits carries over into the exponent.
proof fn bits_of_parts(field: int, m: int)
    requires
        0 < field < 2000,
        BINADE <= m <= 2 * BINADE,
    ensures
        ({
            let d = Double { bits: (field * BINADE + m) as u64 };
            &&& d.bits == field * BINADE + m
            &&& !d.negative()
            &&& d.is_finite()
            &&& d.significand() >= BINADE
            &&& d.exponent() == (if m < 2 * BINADE {
                field - 1074
            } else {
                field - 1073
            })
            &&& d.significand() == (if m < 2 * BINADE {
                m
            } else {
                BINADE as int
            })
        }),
{
    let b = field * BINADE + m;
    assert(0 <= b < 0x7ff0_0000_0000_0000);
    if m < 2 * BINADE {
        lemma_fundamental_div_mod_converse(b, BINADE as int, field + 1, m - BINADE);
    } else {
        lemma_fundamental_div_mod_converse(b, BINADE as int, field + 2, 0);
    }
}

proof fn large_powers()
    ensures
        up(60) == 0x1000_0000_0000_0000int,
        up(64) == 0x1_0000_0000_0000_0000int,
        up(117) == 0x0020_0000_0000_0000_0000_0000_0000_0000int,
        up(120) == 0x0100_0000_0000_0000_0000_0000_0000_0000int,
{
    lemma2_to64();
    lemma2_to64_rest();
    up_adds(57, 60);
    up_adds(60, 60);
    let a = up(57);
    let b = up(60);
    assert(a * b == 0x0020_0000_0000_0000_0000_0000_0000_0000int) by (nonlinear_arith)
        requires
            a == 0x0200_0000_0000_0000int,
            b == 0x1000_0000_0000_0000int,
    ;
    assert(b * b == 0x0100_0000_0000_0000_0000_0000_0000_0000int) by (nonlinear_arith)
        requires
            b == 0x1000_0000_0000_0000int,
    ;
}

/// The integer that the number nearest to `n` is.
fn round_wide(n: u128) -> (r: u128)
    requires
        n <= 0x0020_0000_0000_0000_0000_0000_0000_0000,
    ensures
        r == nearest_integer(n as int),
        r <= 0x0020_0000_0000_0000_0000_0000_0000_0000,
{
    proof {
        large_powers();
        nearest_scales(1, 117);
        nearest_keeps_order(n as int, up(117));
    }
    if n < 0x0020_0000_0000_0000 {
        return n;
    }
    let mut d: u128 = 1;
    let mut e: i32 = 0;
    while n >= 0x0020_0000_0000_0000 * d
        invariant
            0x0020_0000_0000_0000 <= n <= 0x0020_0000_0000_0000_0000_0000_0000_0000,
            0 <= e <= 65,
            d == up(e as int),
            0 < d <= 0x2_0000_0000_0000_0000,
            e == 65 ==> d == 0x2_0000_0000_0000_0000,
            e > 0 ==> n >= 0x0010_0000_0000_0000 * d,
        decreases 65 - e,
    {
        proof {
            large_powers();
            up_step(64);
            up_step(e as int);
            if e + 1 < 65 {
                lemma_pow2_strictly_increases((e + 1) as nat, 65);
            }
        }
        d = 2 * d;
        e = e + 1;
    }
    let m = halve_even(n, d);
    proof {
        assert(n * up(-e as int) == n) by {
            assert(up(-e as int) == 1);
        }
        assert(in_binade(n as int, 1, e as int));
        binade_unique(n as int, 1, e as int, binade(n as int, 1));
    }
    m * d
}

/// The integer that the number nearest to `n` is.
fn round_integer(n: u64) -> (r: u128)
    ensures
        r == nearest_integer(n as int),
        r <= 0x1_0000_0000_0000_0000,
        n > 0 ==> r > 0,
        n >= 2 * BINADE ==> in_binade(n as int, 1, binade(n as int, 1)),
{
    proof {
        lemma2_to64();
        nearest_scales(1, 64);
        nearest_keeps_order(n as int, up(64));
        if n > 0 {
            nearest_keeps_order(1, n as int);
        }
        binade_is(n as int);
    }
    round_wide(n as u128)
}

/// `a` times 100.
fn times_hundred(a: Double) -> (r: Double)
    requires
        a.is_finite(),
        !a.negative(),
        a.significand() >= BINADE,
        -120 <= a.exponent() <= 14,
    ensures
        r.bits == product_bits(a, 100),
        !r.negative(),
        r.is_finite(),
        a.bits <= ONE_BITS ==> r.bits <= HUNDRED_BITS,
        a.bits == ONE_BITS ==> r.bits == HUNDRED_BITS,
{
    let m: u64 = BINADE + a.bits % BINADE;
    let e: i32 = (a.bits / BINADE) as i32 - 1075;
    proof {
        lemma_mod_bound(a.bits as int, BINADE as int);
    }
    let wide: u128 = m as u128 * 100;
    let seven: bool = wide >= 0x0800_0000_0000_0000;
    let s: i32 = if seven {
        7
    } else {
        6
    };
    let unit: u128 = if seven {
        128
    } else {
        64
    };
    let q = halve_even(wide, unit);
    proof {
        lemma2_to64();
        assert(up(s as int) == unit);
        let num = a.significand() * 100 * up(a.exponent());
        let den = up(-a.exponent());
        up_pos(a.exponent());
        up_pos(-a.exponent());
        assert(num > 0) by (nonlinear_arith)
            requires
                num == a.significand() * 100 * up(a.exponent()),
                a.significand() >= BINADE,
                up(a.exponent()) >= 1,
        ;
        product_binade(wide as int, e as int, s as int);
        binade_unique(num, den, e + s, binade(num, den));
        half_even_range(wide as int, unit as int);
        bits_of_parts((e + s + 1074) as int, q as int);
        if a.bits == ONE_BITS {
            assert(wide == 0x0640_0000_0000_0000);
        } else if a.bits < ONE_BITS {
            assert(e <= -53);
        }
    }
    Double { bits: (e + s + 1074) as u64 * BINADE + q as u64 }
}

proof fn half_even_grows(a: int, b: int, den: int)
    requires
        0 <= a <= b,
        den > 0,
    ensures
        half_even(a, den) <= half_even(b, den),
{
    lemma_fundamental_div_mod(a, den);
    lemma_fundamental_div_mod(b, den);
    lemma_mod_bound(a, den);
    lemma_mod_bound(b, den);
    let p = a / den;
    let q = b / den;
    assert(p <= q) by (nonlinear_arith)
        requires
            a == den * p + a % den,
            b == den * q + b % den,
            0 <= a % den < den,
            0 <= b % den < den,
            a <= b,
            den > 0,
    ;
    if p == q {
        assert(a % den <= b % den);
    }
}

/// Rounding keeps the order of integers.
proof fn nearest_integer_grows(a: int, b: int)
    requires
        0 <= a <= b,
        a >= 2 * BINADE ==> in_binade(a, 1, binade(a, 1)),
        b >= 2 * BINADE ==> in_binade(b, 1, binade(b, 1)),
    ensures
        nearest_integer(a) <= nearest_integer(b),
{
    if b >= 2 * BINADE {
        let f = binade(b, 1);
        binade_of_large(b, f);
        half_even_range(b, up(f));
        let y = half_even(b, up(f));
        if a < 2 * BINADE {
            assert(y * up(f) >= 2 * BINADE) by (nonlinear_arith)
                requires
                    y >= BINADE,
                    up(f) >= 2,
            ;
        } else {
            let e = binade(a, 1);
            binade_of_large(a, e);
            half_even_range(a, up(e));
            let x = half_even(a, up(e));
            if e == f {
                half_even_grows(a, b, up(e));
                assert(x * up(e) <= y * up(f)) by (nonlinear_arith)
                    requires
                        x <= y,
                        up(e) == up(f),
                        up(e) >= 1,
                ;
            } else if e < f {
                up_step(e);
                if e + 1 < f {
                    lemma_pow2_strictly_increases((e + 1) as nat, f as nat);
                }
                assert(x * up(e) <= y * up(f)) by (nonlinear_arith)
                    requires
                        x <= 2 * BINADE,
                        y >= BINADE,
                        2 * up(e) <= up(f),
                        up(e) >= 1,
                ;
            } else {
                up_step(f);
                if f + 1 < e {
                    lemma_pow2_strictly_increases((f + 1) as nat, e as nat);
                }
                assert(b < a) by (nonlinear_arith)
                    requires
                        b < 2 * BINADE * up(f),
                        BINADE * up(e) <= a,
                        2 * up(f) <= up(e),
                ;
            }
        }
    }
}

proof fn binade_of_large(n: int, e: int)
    requires
        n >= 2 * BINADE,
        in_binade(n, 1, e),
    ensures
        e >= 1,
        up(e) >= 2,
        BINADE * up(e) <= n < 2 * BINADE * up(e),
{
    up_pos(-e);
    if e <= 0 {
        assert(n * up(-e) >= 2 * BINADE) by (nonlinear_arith)
            requires
                n >= 2 * BINADE,
                up(-e) >= 1,
        ;
        assert(2 * BINADE * (1 * up(e)) == 2 * BINADE) by (nonlinear_arith)
            requires
                up(e) == 1,
        ;
    } else {
        up_step(e - 1);
        assert(n * 1 == n);
    }
}

/// Shifting a product of 53 bits and more down by `s` bits is rounding it with
/// the exponent raised by `s`.
proof fn product_binade(wide: int, e: int, s: int)
    requires
        s >= 0,
        wide > 0,
        BINADE * up(s) <= wide < 2 * BINADE * up(s),
    ensures
        in_binade(wide * up(e), up(-e), e + s),
        half_even((wide * up(e)) * up(-(e + s)), up(-e) * up(e + s)) == half_even(wide, up(s)),
{
    let t = e + s;
    up_pos(s);
    up_pos(e);
    up_pos(-t);
    let c: int = if e >= 0 {
        up(e)
    } else if t < 0 {
        up(-t)
    } else {
        1
    };
    if e >= 0 {
        up_adds(s, e);
        assert((wide * up(e)) * 1 == wide * c) by (nonlinear_arith)
            requires
                c == up(e),
        ;
        assert(1 * up(t) == up(s) * c);
    } else if t < 0 {
        up_adds(s, -t);
        assert((wide * 1) * up(-t) == wide * c) by (nonlinear_arith)
            requires
                c == up(-t),
        ;
        assert(up(-e) * 1 == up(s) * c);
    } else {
        up_adds(-e, t);
        assert((wide * 1) * 1 == wide * c) by (nonlinear_arith)
            requires
                c == 1,
        ;
        assert(up(-e) * up(t) == up(s) * c) by (nonlinear_arith)
            requires
                up(-e) * up(t) == up(s),
                c == 1,
        ;
    }
    half_even_common_factor(wide, up(s), c);
    assert(BINADE * (up(s) * c) <= wide * c < 2 * BINADE * (up(s) * c)) by (nonlinear_arith)
        requires
            BINADE * up(s) <= wide < 2 * BINADE * up(s),
            c >= 1,
    ;
}

/// `part` out of `whole` in percent.
pub fn percentage(part: u64, whole: u64) -> (r: Double)
    ensures
        r.bits == percentage_bits(part as int, whole as int),
        part <= whole ==> r.is_percentage(),
        part == whole && part > 0 ==> r.bits == HUNDRED_BITS,
{
    if whole == 0 || part == 0 {
        return Double { bits: 0 };
    }
    let a = round_integer(part);
    let b = round_integer(whole);
    proof {
        if part <= whole {
            nearest_integer_grows(part as int, whole as int);
        }
    }
    times_hundred(round_ratio(a, b))
}

/// `n` divided by 1000.
pub fn thousandth(n: u64) -> (r: Double)
    requires
        n > 0,
    ensures
        r.bits == nearest_bits(nearest_integer(n as int), 1000),
{
    round_ratio(round_integer(n), 1000)
}

impl Double {
    /// Whether this is less than `other`.
    pub fn is_less(self, other: Double) -> (r: bool)
        ensures
            r == self.less(other),
    {
        let a = self.split();
        let b = other.split();
        if a.1 > INFINITE_BITS || b.1 > INFINITE_BITS {
            return false;
        }
        if a.0 && b.0 {
            b.1 < a.1
        } else if a.0 {
            a.1 > 0 || b.1 > 0
        } else if b.0 {
            false
        } else {
            a.1 < b.1
        }
    }

    /// The sign and the bits without it.
    fn split(self) -> (r: (bool, u64))
        ensures
            r.0 == self.negative(),
            r.1 == self.magnitude(),
            r.1 < SIGN_BIT,
    {
        if self.bits >= SIGN_BIT {
            (true, self.bits - SIGN_BIT)
        } else {
            (false, self.bits)
        }
    }

    /// Whether this lies between 0 and 100, both included.
    pub fn in_percent_range(self) -> (r: bool)
        ensures
            r == self.is_percentage(),
    {
        let parts = self.split();
        if parts.0 {
            parts.1 == 0
        } else {
            parts.1 <= HUNDRED_BITS
        }
    }

    /// Significand and exponent.
    fn parts(self) -> (r: (u64, i32))
        ensures
            r.0 == self.significand(),
            r.1 == self.exponent(),
            r.0 < 0x0020_0000_0000_0000,
            -1074 <= r.1 <= 972,
            r.1 > -1074 ==> r.0 >= BINADE,
    {
        let m = self.split().1;
        proof {
            lemma_fundamental_div_mod(m as int, BINADE as int);
            lemma_mod_bound(m as int, BINADE as int);
        }
        let field: u64 = m / BINADE;
        assert(field < 2048) by (nonlinear_arith)
            requires
                m == BINADE * field + m % BINADE,
                m < SIGN_BIT,
                field >= 0,
        ;
        if field == 0 {
            (m % BINADE, -1074)
        } else {
            (BINADE + m % BINADE, field as i32 - 1075)
        }
    }
}

// ---------------------------------------------------------------------------
// Rounding to integers
// ---------------------------------------------------------------------------
impl Double {
    /// The integer nearest to the size of this number, the larger one of two
    /// equally near ones.
    pub open spec fn rounded_size(self) -> int {
        let den = up(-self.exponent());
        (2 * (self.significand() * up(self.exponent())) + den) / (2 * den)
    }

    /// The integer nearest to this number, halves away from zero, held between
    /// the limits of `i64`; zero for no number.
    pub open spec fn rounded(self) -> int {
        if self.is_nan() {
            0
        } else if self.is_infinite() {
            if self.negative() {
                i64::MIN as int
            } else {
                i64::MAX as int
            }
        } else if self.negative() {
            num::clamped(-self.rounded_size())
        } else {
            num::clamped(self.rounded_size())
        }
    }

    /// The integer nearest to this number.
    pub fn to_integer(self) -> (r: i64)
        ensures
            r == self.rounded(),
    {
        let (negative, magnitude) = self.split();
        if magnitude > INFINITE_BITS {
            return 0;
        }
        if magnitude == INFINITE_BITS {
            return if negative {
                i64::MIN
            } else {
                i64::MAX
            };
        }
        let (m, e) = self.parts();
        let size: u128 = if e > 11 {
            proof {
                lemma2_to64();
                lemma_pow2_strictly_increases(11, e as nat);
                assert(m * up(e as int) >= BINADE * 2048) by (nonlinear_arith)
                    requires
                        m >= BINADE,
                        up(e as int) >= 2048,
                ;
                assert(self.rounded_size() == m * up(e as int)) by {
                    assert((2 * (m * up(e as int)) + 1) / 2 == m * up(e as int));
                }
            }
            0x8000_0000_0000_0000
        } else if e >= 0 {
            let shift = Self::power(e as u32);
            proof {
                up_small(e as int);
                assert(m * shift <= 0x0020_0000_0000_0000 * 2048) by (nonlinear_arith)
                    requires
                        0 <= m <= 0x0020_0000_0000_0000,
                        0 < shift <= 2048,
                ;
                assert((2 * (m * up(e as int)) + 1) / 2 == m * up(e as int));
            }
            m as u128 * shift
        } else if e < -62 {
            proof {
                half_exceeds(m as int, -e as int);
                lemma_basic_div(2 * m + up(-e as int), 2 * up(-e as int));
            }
            0
        } else {
            let shift = Self::power((-e) as u32);
            proof {
                lemma2_to64();
                lemma2_to64_rest();
                if -e < 62 {
                    lemma_pow2_strictly_increases((-e) as nat, 62);
                }
            }
            (2 * m as u128 + shift) / (2 * shift)
        };
        proof {
            if e < 0 && e >= -62 {
                let d = up(-e as int);
                assert((2 * m + d) / (2 * d) <= 2 * m + d) by (nonlinear_arith)
                    requires
                        m >= 0,
                        d >= 1,
                ;
            }
        }
        if negative {
            if size >= 0x8000_0000_0000_0000 {
                i64::MIN
            } else {
                -(size as i64)
            }
        } else {
            if size >= 0x8000_0000_0000_0000 {
                i64::MAX
            } else {
                size as i64
            }
        }
    }

    /// Two to the power of `e`.
    fn power(e: u32) -> (r: u128)
        requires
            e <= 62,
        ensures
            r == up(e as int),
            r > 0,
    {
        let mut r: u128 = 1;
        let mut i: u32 = 0;
        while i < e
            invariant
                i <= e <= 62,
                r == up(i as int),
                0 < r <= 0x4000_0000_0000_0000,
            decreases e - i,
        {
            proof {
                up_step(i as int);
                lemma2_to64();
                lemma2_to64_rest();
                if i + 1 < 62 {
                    lemma_pow2_strictly_increases((i + 1) as nat, 62);
                }
            }
            r = 2 * r;
            i = i + 1;
        }
        r
    }

    /// Two to the power of `e`.
    fn wide_power(e: u32) -> (r: u128)
        requires
            e <= 120,
        ensures
            r == up(e as int),
            0 < r <= 0x0100_0000_0000_0000_0000_0000_0000_0000,
    {
        if e <= 60 {
            let r = Self::power(e);
            proof {
                large_powers();
                if e < 60 {
                    lemma_pow2_strictly_increases(e as nat, 60);
                }
            }
            r
        } else {
            let low = Self::power(60);
            let high = Self::power((e - 60) as u32);
            proof {
                large_powers();
                up_adds(60, e - 60);
                if e < 120 {
                    lemma_pow2_strictly_increases((e - 60) as nat, 60);
                }
                assert(0 < low * high <= 0x0100_0000_0000_0000_0000_0000_0000_0000)
                    by (nonlinear_arith)
                    requires
                        0 < low <= 0x1000_0000_0000_0000,
                        0 < high <= 0x1000_0000_0000_0000,
                ;
            }
            low * high
        }
    }
}

/// A significand is less than a thousandth of any power of two past the 62nd.
proof fn half_exceeds(m: int, s: int)
    requires
        0 <= m < 0x0020_0000_0000_0000,
        s > 62,
    ensures
        1000 * m < up(s),
{
    lemma2_to64();
    lemma2_to64_rest();
    lemma_pow2_unfold(63);
    if s > 63 {
        lemma_pow2_strictly_increases(63, s as nat);
    }
}

// ---------------------------------------------------------------------------
// Text with a fixed number of decimals
// ---------------------------------------------------------------------------
/// Ten to the power of `places`, for one or two places.
pub open spec fn scale(places: int) -> int {
    if places == 1 {
        10
    } else {
        100
    }
}

/// The one or two digits of `n` after the point.
pub open spec fn decimals(n: int, places: int) -> Seq<char> {
    if places == 1 {
        seq![decimal::digit_char(n)]
    } else {
        seq![decimal::digit_char(n / 10), decimal::digit_char(n % 10)]
    }
}

impl Double {
    /// The size of this number in units of the last of `places` decimals.
    pub open spec fn scaled_size(self, places: int) -> int {
        half_even(self.significand() * scale(places) * up(self.exponent()), up(-self.exponent()))
    }

    /// This number with `places` decimals, rounded to the nearest such number and
    /// to the even one of two equally near ones.
    pub open spec fn fixed(self, places: int) -> Seq<char> {
        if self.is_nan() {
            "NaN"@
        } else {
            let sign = if self.negative() {
                "-"@
            } else {
                ""@
            };
            if self.is_infinite() {
                sign + "inf"@
            } else {
                let n = self.scaled_size(places);
                sign + decimal::digits((n / scale(places)) as nat) + "."@ + decimals(
                    n % scale(places),
                    places,
                )
            }
        }
    }

    /// This number as text with one or two decimals.
    pub fn to_fixed(self, places: u32) -> (r: String)
        requires
            1 <= places <= 2,
        ensures
            r@ == self.fixed(places as int),
    {
        let (negative, magnitude) = self.split();
        if magnitude > INFINITE_BITS {
            return "NaN".to_string();
        }
        let mut r = if negative {
            "-".to_string()
        } else {
            "".to_string()
        };
        let ghost sign = r@;
        if magnitude == INFINITE_BITS {
            r.append("inf");
            return r;
        }
        let unit: u128 = if places == 1 {
            10
        } else {
            100
        };
        let (m, e) = self.parts();
        let wide: u128 = m as u128 * unit;
        let ghost n = self.scaled_size(places as int);
        let whole: String;
        let rest: u8;
        if e >= 0 {
            whole = power_digits(m, e as u32);
            rest = 0;
            proof {
                up_pos(e as int);
                let k = m * up(e as int);
                assert(m * unit * up(e as int) == unit * k) by (nonlinear_arith)
                    requires
                        k == m * up(e as int),
                ;
                assert(k >= 0) by (nonlinear_arith)
                    requires
                        k == m * up(e as int),
                        m >= 0,
                        up(e as int) >= 1,
                ;
                lemma_fundamental_div_mod_converse(unit * k, 1, unit * k, 0);
                assert(n == unit * k);
                assert(unit * k == k * unit) by (nonlinear_arith);
                lemma_fundamental_div_mod_converse(n, unit as int, k, 0);
            }
        } else {
            let scaled: u128 = if e < -62 {
                proof {
                    half_exceeds(m as int, -e as int);
                    lemma_fundamental_div_mod_converse(wide as int, up(-e as int), 0, wide as int);
                }
                0
            } else {
                let shift = Self::power((-e) as u32);
                proof {
                    lemma2_to64();
                    lemma2_to64_rest();
                    if -e < 62 {
                        lemma_pow2_strictly_increases((-e) as nat, 62);
                    }
                }
                halve_even(wide, shift)
            };
            assert(scaled == n);
            whole = decimal::digits_of(scaled / unit);
            rest = (scaled % unit) as u8;
        }
        r.append(whole.as_str());
        r.append(".");
        if places == 2 {
            r.push((48 + rest / 10) as char);
        }
        r.push((48 + rest % 10) as char);
        assert(r@ == sign + whole@ + "."@ + decimals(rest as int, places as int));
        r
    }
}

/// Ten to the power of `n`.
pub open spec fn ten_power(n: nat) -> int
    decreases n,
{
    if n == 0 {
        1
    } else {
        10 * ten_power((n - 1) as nat)
    }
}

/// The number whose decimal digits are `ds`, the last digit first.
spec fn number(ds: Seq<u8>) -> int
    decreases ds.len(),
{
    if ds.len() == 0 {
        0
    } else {
        number(ds.drop_last()) + ds.last() * ten_power((ds.len() - 1) as nat)
    }
}

spec fn are_digits(ds: Seq<u8>) -> bool {
    forall|i: int| 0 <= i < ds.len() ==> #[trigger] ds[i] < 10
}

proof fn number_of_first(ds: Seq<u8>)
    requires
        ds.len() > 0,
    ensures
        number(ds) == ds[0] + 10 * number(ds.drop_first()),
    decreases ds.len(),
{
    if ds.len() == 1 {
        assert(ds.drop_last() == Seq::<u8>::empty());
        assert(ds.drop_first() == Seq::<u8>::empty());
        assert(ten_power(0) == 1);
        assert(number(ds.drop_last()) == 0);
        assert(number(ds.drop_first()) == 0);
        assert(ds.last() * ten_power(0) == ds[0]) by (nonlinear_arith)
            requires
                ten_power(0) == 1,
                ds.last() == ds[0],
        ;
    } else {
        number_of_first(ds.drop_last());
        let t = ds.drop_first();
        assert(t.drop_last() == ds.drop_last().drop_first());
        assert(t.last() == ds.last());
        let p = ten_power((ds.len() - 2) as nat);
        assert(ten_power((ds.len() - 1) as nat) == 10 * p);
        assert(ds.last() * (10 * p) == 10 * (ds.last() * p)) by (nonlinear_arith);
    }
}

proof fn number_nonnegative(ds: Seq<u8>)
    ensures
        number(ds) >= 0,
    decreases ds.len(),
{
    if ds.len() > 0 {
        number_nonnegative(ds.drop_last());
        ten_power_positive((ds.len() - 1) as nat);
        assert(ds.last() * ten_power((ds.len() - 1) as nat) >= 0) by (nonlinear_arith)
            requires
                ten_power((ds.len() - 1) as nat) >= 1,
                ds.last() >= 0,
        ;
    }
}

proof fn ten_power_positive(n: nat)
    ensures
        ten_power(n) >= 1,
    decreases n,
{
    if n > 0 {
        ten_power_positive((n - 1) as nat);
    }
}

/// Digits without a leading zero are the decimal text of their number.
proof fn digits_are_text(ds: Seq<u8>)
    requires
        ds.len() > 0,
        are_digits(ds),
        ds.len() > 1 ==> ds.last() != 0,
    ensures
        decimal::digits(number(ds) as nat) == Seq::new(
            ds.len(),
            |i: int| decimal::digit_char(ds[ds.len() - 1 - i] as int),
        ),
        ds.last() != 0 ==> number(ds) > 0,
    decreases ds.len(),
{
    number_of_first(ds);
    let t = ds.drop_first();
    number_nonnegative(t);
    let text = Seq::new(ds.len(), |i: int| decimal::digit_char(ds[ds.len() - 1 - i] as int));
    if ds.len() == 1 {
        assert(number(t) == 0);
        assert(decimal::digits(number(ds) as nat) == text);
    } else {
        assert(t.last() == ds.last());
        digits_are_text(t);
        let n = number(ds);
        assert(n / 10 == number(t) && n % 10 == ds[0]);
        assert(n >= 10);
        assert(text == decimal::digits(number(t) as nat).push(decimal::digit_char(ds[0] as int)));
    }
}

/// The decimal text of `m` times two to the power of `e`.
fn power_digits(m: u64, e: u32) -> (r: String)
    requires
        m > 0,
        e <= 2000,
    ensures
        r@ == decimal::digits((m * up(e as int)) as nat),
{
    let mut ds: Vec<u8> = Vec::new();
    let mut left: u64 = m;
    assert(number(ds@) == 0);
    while left > 0
        invariant
            are_digits(ds@),
            m == number(ds@) + left * ten_power(ds@.len()),
            left > 0 || (ds@.len() > 0 && ds@.last() != 0),
        decreases left,
    {
        let d: u8 = (left % 10) as u8;
        proof {
            let p = ten_power(ds@.len());
            let a = left / 10;
            assert(ds@.push(d).drop_last() == ds@);
            assert(d * p + a * (10 * p) == left * p) by (nonlinear_arith)
                requires
                    left == 10 * a + d,
            ;
        }
        ds.push(d);
        left = left / 10;
    }
    assert(number(ds@) == m) by {
        assert(left * ten_power(ds@.len()) == 0) by (nonlinear_arith)
            requires
                left == 0,
        ;
    }
    proof {
        up_pos(0);
    }
    let mut i: u32 = 0;
    while i < e
        invariant
            i <= e <= 2000,
            ds@.len() > 0,
            are_digits(ds@),
            ds@.last() != 0,
            number(ds@) == m * up(i as int),
        decreases e - i,
    {
        double_digits(&mut ds);
        proof {
            up_step(i as int);
            assert(2 * (m * up(i as int)) == m * (2 * up(i as int))) by (nonlinear_arith);
        }
        i = i + 1;
    }
    proof {
        digits_are_text(ds@);
    }
    let mut r = String::new();
    let mut k: usize = ds.len();
    while k > 0
        invariant
            k <= ds@.len(),
            are_digits(ds@),
            r@ == Seq::new(
                (ds@.len() - k) as nat,
                |j: int| decimal::digit_char(ds@[ds@.len() - 1 - j] as int),
            ),
        decreases k,
    {
        k = k - 1;
        r.push((48 + ds[k]) as char);
        assert(r@ == Seq::new(
            (ds@.len() - k) as nat,
            |j: int| decimal::digit_char(ds@[ds@.len() - 1 - j] as int),
        ));
    }
    r
}

/// Doubles the number that the digits write.
fn double_digits(ds: &mut Vec<u8>)
    requires
        old(ds)@.len() > 0,
        are_digits(old(ds)@),
        old(ds)@.last() != 0,
    ensures
        final(ds)@.len() > 0,
        are_digits(final(ds)@),
        final(ds)@.last() != 0,
        number(final(ds)@) == 2 * number(old(ds)@),
{
    let mut out: Vec<u8> = Vec::new();
    let mut carry: u8 = 0;
    let mut i: usize = 0;
    assert(ds@.take(0) == Seq::<u8>::empty());
    while i < ds.len()
        invariant
            i <= ds@.len(),
            ds@ == old(ds)@,
            are_digits(ds@),
            ds@.len() > 0,
            ds@.last() != 0,
            out@.len() == i,
            are_digits(out@),
            carry <= 1,
            number(out@) + carry * ten_power(i as nat) == 2 * number(ds@.take(i as int)),
            i > 0 && i == ds@.len() ==> carry == 1 || out@.last() != 0,
        decreases ds@.len() - i,
    {
        let t: u8 = 2 * ds[i] + carry;
        let ghost p = ten_power(i as nat);
        proof {
            let next = ds@.take(i + 1);
            assert(next.drop_last() == ds@.take(i as int));
            assert(next.last() == ds@[i as int]);
            assert(ten_power((i + 1) as nat) == 10 * p);
            let pushed = out@.push((t % 10) as u8);
            assert(pushed.drop_last() == out@);
            let a = t / 10;
            let b = t % 10;
            let d = ds@[i as int];
            assert(t == 10 * a + b);
            assert(b * p + a * (10 * p) == (2 * d + carry) * p) by (nonlinear_arith)
                requires
                    2 * d + carry == 10 * a + b,
            ;
            assert((2 * d + carry) * p == 2 * (d * p) + carry * p) by (nonlinear_arith);
        }
        out.push(t % 10);
        carry = t / 10;
        i = i + 1;
    }
    assert(ds@.take(ds@.len() as int) == ds@);
    if carry > 0 {
        let ghost before = out@;
        out.push(carry);
        assert(out@.drop_last() == before);
    } else {
        assert(carry * ten_power(i as nat) == 0) by (nonlinear_arith)
            requires
                carry == 0,
        ;
    }
    *ds = out;
}

// ---------------------------------------------------------------------------
// Shares of a number
// ---------------------------------------------------------------------------
impl Double {
    /// The product of the natural number `n` and this number, which is finite and not
    /// negative, both steps rounded, and then the next integer that is not smaller.
    pub open spec fn product_ceiling(self, n: int) -> int {
        let wide = nearest_integer(self.significand() * nearest_integer(n));
        if self.exponent() >= 0 {
            wide * up(self.exponent())
        } else {
            (wide + up(-self.exponent()) - 1) / up(-self.exponent())
        }
    }

    /// The place of this share of the way from the first to the last of `n` places,
    /// rounded up; none where it lies behind the last. A negative share, and no number,
    /// is the first place.
    pub open spec fn place_among(self, n: int) -> Option<int> {
        if n <= 0 {
            None
        } else if self.is_nan() || self.negative() {
            Some(0)
        } else if self.is_infinite() {
            if n == 1 {
                Some(0)
            } else {
                None
            }
        } else if self.product_ceiling(n - 1) < n {
            Some(self.product_ceiling(n - 1))
        } else {
            None
        }
    }

    /// Whether this lies between 0 and 1, both included.
    pub open spec fn is_share(self) -> bool {
        !self.is_nan() && 0 <= self.place() <= ONE_BITS
    }
}

impl Double {
    /// The place of this share of the way from the first to the last of `n` places.
    pub fn find_place(self, n: usize) -> (r: Option<usize>)
        ensures
            match r {
                Some(place) => self.place_among(n as int) == Some(place as int),
                None => self.place_among(n as int) is None,
            },
    {
        if n == 0 {
            return None;
        }
        let (negative, magnitude) = self.split();
        if magnitude > INFINITE_BITS || negative {
            return Some(0);
        }
        if magnitude == INFINITE_BITS {
            return if n == 1 {
                Some(0)
            } else {
                None
            };
        }
        let (m, e) = self.parts();
        let whole = round_integer((n - 1) as u64);
        assert(m * whole <= 0x0020_0000_0000_0000_0000_0000_0000_0000) by (nonlinear_arith)
            requires
                0 <= m <= 0x0020_0000_0000_0000,
                0 <= whole <= 0x1_0000_0000_0000_0000,
        ;
        let wide = round_wide(m as u128 * whole);
        let places = n as u128;
        proof {
            up_pos(e as int);
            up_pos(-e as int);
        }
        let ceiling: u128 = if e >= 0 {
            proof {
                assert(wide * up(e as int) >= wide && (wide > 0 ==> wide * up(e as int) >= up(
                    e as int,
                )) && (wide == 0 ==> wide * up(e as int) == 0)) by (nonlinear_arith)
                    requires
                        wide >= 0,
                        up(e as int) >= 1,
                ;
                lemma2_to64();
                if e > 64 {
                    lemma_pow2_strictly_increases(64, e as nat);
                }
            }
            if wide == 0 {
                0
            } else if wide >= places || e >= 64 {
                places
            } else {
                let factor = Self::wide_power(e as u32);
                proof {
                    lemma_pow2_strictly_increases(e as nat, 64);
                }
                assert(wide * factor <= 0x1_0000_0000_0000_0000 * 0x1_0000_0000_0000_0000 - 1)
                    by (nonlinear_arith)
                    requires
                        0 <= wide <= 0xffff_ffff_ffff_ffff,
                        0 <= factor <= 0x1_0000_0000_0000_0000,
                ;
                wide * factor
            }
        } else if e < -120 {
            proof {
                large_powers();
                lemma_pow2_strictly_increases(120, (-e) as nat);
                let d = up(-e as int);
                assert(wide + d - 1 < 2 * d);
                if wide == 0 {
                    lemma_fundamental_div_mod_converse(d - 1, d, 0, d - 1);
                } else {
                    lemma_fundamental_div_mod_converse(wide + d - 1, d, 1, wide - 1);
                }
            }
            if wide == 0 {
                0
            } else {
                1
            }
        } else {
            let unit = Self::wide_power((-e) as u32);
            (wide + unit - 1) / unit
        };
        assert(if ceiling < places {
            self.product_ceiling(n - 1) == ceiling
        } else {
            self.product_ceiling(n - 1) >= n
        });
        if ceiling < places {
            Some(ceiling as usize)
        } else {
            None
        }
    }
}

proof fn binade_exists(n: int) -> (e: int)
    requires
        n >= BINADE,
    ensures
        e >= 0,
        in_binade(n, 1, e),
    decreases n,
{
    if n < 2 * BINADE {
        assert(n * 1 == n);
        0
    } else {
        let e = binade_exists(n / 2);
        up_step(e);
        assert((n / 2) * 1 == n / 2);
        assert(n * 1 == n);
        assert(BINADE * (1 * up(e + 1)) <= n < 2 * BINADE * (1 * up(e + 1))) by (nonlinear_arith)
            requires
                BINADE * (1 * up(e)) <= n / 2 < 2 * BINADE * (1 * up(e)),
                up(e + 1) == 2 * up(e),
        ;
        e + 1
    }
}

proof fn binade_is(n: int)
    ensures
        n >= 2 * BINADE ==> in_binade(n, 1, binade(n, 1)),
{
    if n >= 2 * BINADE {
        let e = binade_exists(n);
    }
}

proof fn nearest_keeps_order(a: int, b: int)
    requires
        0 <= a <= b,
    ensures
        0 <= nearest_integer(a) <= nearest_integer(b),
{
    binade_is(a);
    binade_is(b);
    nearest_integer_grows(a, b);
    if a >= 2 * BINADE {
        binade_of_large(a, binade(a, 1));
        half_even_range(a, up(binade(a, 1)));
        assert(half_even(a, up(binade(a, 1))) * up(binade(a, 1)) >= 0) by (nonlinear_arith)
            requires
                half_even(a, up(binade(a, 1))) >= 0,
                up(binade(a, 1)) >= 0,
        ;
    }
}

/// Rounding an integer to 53 bits does not depend on a factor that is a power of two.
proof fn nearest_scales(a: int, k: int)
    requires
        a >= 0,
        k >= 0,
    ensures
        nearest_integer(a * up(k)) == nearest_integer(a) * up(k),
{
    up_pos(k);
    let b = a * up(k);
    assert(b >= a) by (nonlinear_arith)
        requires
            b == a * up(k),
            a >= 0,
            up(k) >= 1,
    ;
    if b >= 2 * BINADE {
        binade_is(b);
        let f = binade(b, 1);
        binade_of_large(b, f);
        if a >= 2 * BINADE {
            binade_is(a);
            let e = binade(a, 1);
            binade_of_large(a, e);
            up_adds(e, k);
            assert(BINADE * (1 * up(e + k)) <= b * 1 < 2 * BINADE * (1 * up(e + k)))
                by (nonlinear_arith)
                requires
                    BINADE * up(e) <= a < 2 * BINADE * up(e),
                    b == a * up(k),
                    up(e + k) == up(e) * up(k),
                    up(k) >= 1,
            ;
            assert(in_binade(b, 1, e + k));
            binade_unique(b, 1, e + k, f);
            half_even_common_factor(a, up(e), up(k));
            let h = half_even(a, up(e));
            assert(h * (up(e) * up(k)) == h * up(e) * up(k)) by (nonlinear_arith);
        } else {
            if f > k {
                up_adds(k, f - k);
                up_step(f - k - 1);
                up_pos(f - k - 1);
                assert(BINADE * up(f) > b) by (nonlinear_arith)
                    requires
                        up(f) == up(k) * up(f - k),
                        up(f - k) >= 2,
                        b == a * up(k),
                        a < 2 * BINADE,
                        up(k) >= 1,
                ;
            }
            up_adds(f, k - f);
            let q = a * up(k - f);
            assert(b == q * up(f)) by (nonlinear_arith)
                requires
                    b == a * up(k),
                    up(k) == up(f) * up(k - f),
                    q == a * up(k - f),
            ;
            lemma_fundamental_div_mod_converse(b, up(f), q, 0);
        }
    }
}

proof fn significands_are_ordered(low: Double, high: Double)
    requires
        low.is_finite(),
        high.is_finite(),
        low.magnitude() <= high.magnitude(),
    ensures
        low.exponent() <= high.exponent(),
        0 <= low.significand() <= high.significand() * up(high.exponent() - low.exponent()),
        high.significand() >= 0,
{
    let c = BINADE as int;
    let m1 = low.magnitude();
    let m2 = high.magnitude();
    lemma_fundamental_div_mod(m1, c);
    lemma_fundamental_div_mod(m2, c);
    lemma_mod_bound(m1, c);
    lemma_mod_bound(m2, c);
    lemma_div_is_ordered(m1, m2, c);
    let d = high.exponent() - low.exponent();
    up_pos(d);
    if m1 / c == m2 / c {
        assert(m1 % c <= m2 % c);
    }
    if d == 0 {
        assert(high.significand() * up(d) == high.significand()) by (nonlinear_arith)
            requires
                up(d) == 1,
        ;
    } else {
        up_step(d - 1);
        up_pos(d - 1);
        assert(high.significand() * up(d) >= 2 * BINADE) by (nonlinear_arith)
            requires
                high.significand() >= BINADE,
                up(d) >= 2,
        ;
    }
}

proof fn ceiling_is_at_most(r: int, d: int, c: int)
    requires
        d > 0,
        r <= c * d,
    ensures
        (r + d - 1) / d <= c,
{
    let q = (r + d - 1) / d;
    lemma_fundamental_div_mod(r + d - 1, d);
    lemma_mod_bound(r + d - 1, d);
    assert(q <= c) by (nonlinear_arith)
        requires
            r + d - 1 == d * q + (r + d - 1) % d,
            0 <= (r + d - 1) % d,
            r <= c * d,
            d > 0,
    ;
}

proof fn ceiling_covers(r: int, d: int)
    requires
        d > 0,
    ensures
        r <= ((r + d - 1) / d) * d,
        r >= 0 ==> (r + d - 1) / d >= 0,
{
    let q = (r + d - 1) / d;
    lemma_fundamental_div_mod(r + d - 1, d);
    lemma_mod_bound(r + d - 1, d);
    assert(q * d == d * q) by (nonlinear_arith);
    if r >= 0 {
        lemma_div_pos_is_pos(r + d - 1, d);
    }
}

/// A larger factor has no smaller product.
proof fn ceilings_are_ordered(low: Double, high: Double, n: int)
    requires
        n >= 0,
        low.is_finite(),
        high.is_finite(),
        low.magnitude() <= high.magnitude(),
    ensures
        0 <= low.product_ceiling(n) <= high.product_ceiling(n),
{
    significands_are_ordered(low, high);
    nearest_keeps_order(0, n);
    let m = nearest_integer(n);
    let d = high.exponent() - low.exponent();
    let u = up(d);
    up_pos(d);
    let p1 = low.significand() * m;
    let p2 = high.significand() * m;
    assert(0 <= p1 <= p2 * u) by (nonlinear_arith)
        requires
            p1 == low.significand() * m,
            p2 == high.significand() * m,
            0 <= low.significand() <= high.significand() * u,
            m >= 0,
    ;
    assert(p2 >= 0) by (nonlinear_arith)
        requires
            p2 == high.significand() * m,
            high.significand() >= 0,
            m >= 0,
    ;
    nearest_keeps_order(p1, p2 * u);
    nearest_scales(p2, d);
    let r1 = nearest_integer(p1);
    let r2 = nearest_integer(p2);
    assert(0 <= r1 <= r2 * u);
    let e1 = low.exponent();
    let e2 = high.exponent();
    up_pos(e1);
    up_pos(e2);
    up_pos(-e1);
    up_pos(-e2);
    if e1 >= 0 {
        up_adds(e1, d);
        assert(0 <= r1 * up(e1) <= r2 * up(e2)) by (nonlinear_arith)
            requires
                0 <= r1 <= r2 * u,
                up(e2) == up(e1) * u,
                up(e1) >= 1,
        ;
    } else {
        ceiling_covers(r1, up(-e1));
        if e2 >= 0 {
            up_adds(-e1, e2);
            assert(r1 <= (r2 * up(e2)) * up(-e1)) by (nonlinear_arith)
                requires
                    r1 <= r2 * u,
                    u == up(-e1) * up(e2),
            ;
            ceiling_is_at_most(r1, up(-e1), r2 * up(e2));
        } else {
            up_adds(-e2, d);
            ceiling_covers(r2, up(-e2));
            let c = high.product_ceiling(n);
            assert(r1 <= c * up(-e1)) by (nonlinear_arith)
                requires
                    r1 <= r2 * u,
                    r2 <= c * up(-e2),
                    up(-e1) == up(-e2) * u,
                    u >= 1,
            ;
            ceiling_is_at_most(r1, up(-e1), c);
        }
    }
}

proof fn whole_is_itself(n: int)
    requires
        0 <= n < 2 * BINADE,
    ensures
        (Double { bits: ONE_BITS }).product_ceiling(n) == n,
        (Double { bits: 0 }).product_ceiling(n) == 0,
{
    let one = Double { bits: ONE_BITS };
    lemma2_to64();
    lemma2_to64_rest();
    assert(one.significand() == BINADE && one.exponent() == -52) by {
        assert(0x3ff0_0000_0000_0000int / 0x0010_0000_0000_0000int == 1023);
        assert(0x3ff0_0000_0000_0000int % 0x0010_0000_0000_0000int == 0);
    }
    assert(up(52) == BINADE);
    nearest_scales(n, 52);
    assert(BINADE * n == n * up(52)) by (nonlinear_arith)
        requires
            up(52) == BINADE,
    ;
    lemma_fundamental_div_mod_converse(n * up(52) + up(52) - 1, up(52), n, up(52) - 1);
    let zero = Double { bits: 0 };
    assert(zero.significand() == 0 && zero.exponent() == -1074);
    assert(0 * n == 0);
    up_pos(1074);
    lemma_fundamental_div_mod_converse(up(1074) - 1, up(1074), 0, up(1074) - 1);
}

/// A share of a way of at most two to the power of 53 places is one of the places: 0 is
/// the first, 1 the last, and a larger share is no earlier place.
pub proof fn shares_are_places(low: Double, high: Double, n: int)
    requires
        low.is_share(),
        high.is_share(),
        low.place() <= high.place(),
        0 < n <= 2 * BINADE,
    ensures
        low.place_among(n) is Some,
        high.place_among(n) is Some,
        0 <= low.place_among(n)->0 <= high.place_among(n)->0 < n,
        low.place() == 0 ==> low.place_among(n) == Some(0int),
        high.place() == ONE_BITS ==> high.place_among(n) == Some(n - 1),
{
    let zero = Double { bits: 0 };
    let one = Double { bits: ONE_BITS };
    whole_is_itself(n - 1);
    if !high.negative() {
        ceilings_are_ordered(high, one, n - 1);
        ceilings_are_ordered(zero, high, n - 1);
        if high.place() == ONE_BITS {
            assert(high == one);
        }
    }
    if !low.negative() {
        ceilings_are_ordered(low, one, n - 1);
        if !high.negative() {
            ceilings_are_ordered(low, high, n - 1);
        } else {
            assert(low == zero);
        }
        if low.place() == 0 {
            assert(low == zero);
        }
    }
}

/// Of `n` places, the numbers nearest to 0.5 and to 0.95 lead to the first place that is
/// not before half, or nineteen twentieths, of the way from the first to the last.
pub proof fn halves_and_twentieths_are_places(n: int)
    requires
        0 < n <= 0x100_0000_0000,
    ensures
        ({
            let half = (Double { bits: 0x3fe0_0000_0000_0000 }).place_among(n);
            &&& half is Some
            &&& n - 1 <= 2 * half->0 <= n
        }),
        ({
            let most = (Double { bits: 0x3fee_6666_6666_6666 }).place_among(n);
            &&& most is Some
            &&& 19 * (n - 1) <= 20 * most->0 <= 19 * n
        }),
{
    let k = n - 1;
    lemma2_to64();
    lemma2_to64_rest();
    let half = Double { bits: 0x3fe0_0000_0000_0000 };
    assert(half.significand() == BINADE && half.exponent() == -53) by {
        assert(0x3fe0_0000_0000_0000int / 0x0010_0000_0000_0000int == 1022);
        assert(0x3fe0_0000_0000_0000int % 0x0010_0000_0000_0000int == 0);
    }
    assert(up(52) == BINADE && up(53) == 2 * BINADE && up(48) == 0x1_0000_0000_0000);
    nearest_scales(k, 52);
    assert(BINADE * k == k * up(52)) by (nonlinear_arith)
        requires
            up(52) == BINADE,
    ;
    ceiling_covers(k * up(52), up(53));
    ceiling_is_at_most(k * up(52), up(53), (k + 1) / 2);
    let most = Double { bits: 0x3fee_6666_6666_6666 };
    let sig = 0x001e_6666_6666_6666int;
    assert(most.significand() == sig && most.exponent() == -53) by {
        assert(0x3fee_6666_6666_6666int / 0x0010_0000_0000_0000int == 1022);
        assert(0x3fee_6666_6666_6666int % 0x0010_0000_0000_0000int == 0x000e_6666_6666_6666);
    }
    let x = (19 * k + 19) / 20;
    let low = 32 * (x - 1) + 1;
    if k == 0 {
        assert(sig * k == 0);
        ceiling_covers(0, up(53));
        ceiling_is_at_most(0, up(53), 0);
    } else {
        assert(sig * k == 0x001e_6666_6666_6666 * k);
        assert(low * up(48) == low * 0x1_0000_0000_0000);
        assert(x * up(53) == x * 0x0020_0000_0000_0000);
        nearest_keeps_order(low * up(48), sig * k);
        nearest_scales(low, 48);
        nearest_keeps_order(sig * k, x * up(53));
        nearest_scales(x, 53);
        let wide = nearest_integer(sig * k);
        ceiling_is_at_most(wide, up(53), x);
        ceiling_covers(wide, up(53));
    }
}

// ---------------------------------------------------------------------------
// How near rounded numbers are
// ---------------------------------------------------------------------------
/// The numerator of a number as a fraction.
pub open spec fn over(d: Double) -> int {
    d.significand() * up(d.exponent())
}

/// The denominator of a number as a fraction.
pub open spec fn under(d: Double) -> int {
    up(-d.exponent())
}

proof fn half_even_is_near(num: int, den: int)
    requires
        den > 0,
        num >= 0,
    ensures
        -den <= 2 * (half_even(num, den) * den - num) <= den,
        half_even(num, den) >= 0,
{
    let q = num / den;
    let r = num % den;
    lemma_fundamental_div_mod(num, den);
    lemma_mod_bound(num, den);
    lemma_div_pos_is_pos(num, den);
    assert(q * den == num - r && (q + 1) * den == num - r + den) by (nonlinear_arith)
        requires
            num == den * q + r,
    ;
}

/// A rounded quotient is off by no more than its own share of two to the power of -53.
proof fn quotient_is_near(num: int, den: int, e: int)
    requires
        num > 0,
        den > 0,
        in_binade(num, den, e),
        -1000 <= e <= 900,
    ensures
        ({
            let d = Double { bits: nearest_bits(num, den) as u64 };
            let off = over(d) * den - num * under(d);
            &&& d.bits == nearest_bits(num, den)
            &&& !d.negative()
            &&& d.is_finite()
            &&& d.significand() >= BINADE
            &&& e <= d.exponent() <= e + 1
            &&& under(d) >= 1
            &&& over(d) >= 1
            &&& -(num * under(d)) <= 0x0020_0000_0000_0000 * off <= num * under(d)
        }),
{
    binade_unique(num, den, e, binade(num, den));
    up_pos(e);
    up_pos(-e);
    let n = num * up(-e);
    let d0 = den * up(e);
    assert(d0 > 0) by (nonlinear_arith)
        requires
            d0 == den * up(e),
            den > 0,
            up(e) >= 1,
    ;
    assert(n > 0) by (nonlinear_arith)
        requires
            n == num * up(-e),
            num > 0,
            up(-e) >= 1,
    ;
    half_even_range(n, d0);
    half_even_is_near(n, d0);
    let m = half_even(n, d0);
    bits_of_parts(e + 1074, m);
    let d = Double { bits: nearest_bits(num, den) as u64 };
    let off = over(d) * den - num * under(d);
    up_pos(d.exponent());
    up_pos(-d.exponent());
    assert(over(d) >= 1) by (nonlinear_arith)
        requires
            over(d) == d.significand() * up(d.exponent()),
            d.significand() >= BINADE,
            up(d.exponent()) >= 1,
    ;
    let wide = m * d0 - n;
    assert(m * d0 == (m * up(e)) * den) by (nonlinear_arith)
        requires
            d0 == den * up(e),
    ;
    if m < 2 * BINADE {
        assert(over(d) == m * up(e) && under(d) == up(-e));
        assert(off == wide);
    } else if e >= 0 {
        up_step(e);
        assert(over(d) == m * up(e)) by (nonlinear_arith)
            requires
                over(d) == BINADE * up(e + 1),
                up(e + 1) == 2 * up(e),
                m == 2 * BINADE,
        ;
        assert(under(d) == 1 && up(-e) == 1);
        assert(off == wide);
    } else {
        up_step(-e - 1);
        assert(up(-e) == 2 * under(d));
        assert(2 * over(d) == m * up(e));
        assert(2 * off == wide) by (nonlinear_arith)
            requires
                off == over(d) * den - num * under(d),
                wide == (m * up(e)) * den - num * up(-e),
                up(-e) == 2 * under(d),
                2 * over(d) == m * up(e),
        ;
        assert(n == 2 * (num * under(d))) by (nonlinear_arith)
            requires
                n == num * up(-e),
                up(-e) == 2 * under(d),
        ;
    }
}

/// The binade of a quotient of two numbers of at most 64 bits.
proof fn quotient_binade(num: int, den: int) -> (e: int)
    requires
        0 < num < 0x1_0000_0000_0000_0000,
        0 < den < 0x1_0000_0000_0000_0000,
    ensures
        in_binade(num, den, e),
        -117 <= e <= 12,
{
    if num < 0x0020_0000_0000_0000 * den {
        assert(num * up(0) == num);
        raised(num, den, 0)
    } else {
        assert(den * up(0) == den);
        lowered(num, den, 0)
    }
}

proof fn raised(num: int, den: int, k: int) -> (e: int)
    requires
        0 < num,
        0 < den < 0x1_0000_0000_0000_0000,
        0 <= k <= 117,
        num * up(k) < 0x0020_0000_0000_0000 * den,
    ensures
        in_binade(num, den, e),
        -117 <= e <= 0,
    decreases 117 - k,
{
    if num * up(k) >= 0x0010_0000_0000_0000 * den {
        assert(den * up(-k) == den);
        assert(up(-(-k)) == up(k));
        assert(BINADE * den == 0x0010_0000_0000_0000 * den);
        assert(2 * BINADE * den == 0x0020_0000_0000_0000 * den);
        -k
    } else {
        up_step(k);
        large_powers();
        assert(num * up(k + 1) == 2 * (num * up(k))) by (nonlinear_arith)
            requires
                up(k + 1) == 2 * up(k),
        ;
        if k == 117 {
            assert(num * up(117) >= up(117)) by (nonlinear_arith)
                requires
                    num >= 1,
                    up(117) >= 0,
            ;
        }
        raised(num, den, k + 1)
    }
}

proof fn lowered(num: int, den: int, k: int) -> (e: int)
    requires
        0 < num < 0x1_0000_0000_0000_0000,
        0 < den,
        0 <= k <= 12,
        num >= 0x0010_0000_0000_0000 * (den * up(k)),
    ensures
        in_binade(num, den, e),
        0 <= e <= 12,
    decreases 12 - k,
{
    if num < 0x0020_0000_0000_0000 * (den * up(k)) {
        assert(num * up(-k) == num);
        assert(BINADE * (den * up(k)) == 0x0010_0000_0000_0000 * (den * up(k)));
        assert(2 * BINADE * (den * up(k)) == 0x0020_0000_0000_0000 * (den * up(k)));
        k
    } else {
        up_step(k);
        assert(den * up(k + 1) == 2 * (den * up(k))) by (nonlinear_arith)
            requires
                up(k + 1) == 2 * up(k),
        ;
        if k == 12 {
            lemma2_to64();
            assert(den * up(12) >= 4096) by (nonlinear_arith)
                requires
                    den >= 1,
                    up(12) == 4096,
            ;
        }
        lowered(num, den, k + 1)
    }
}

/// A finite number that is not negative is told with two decimals as the nearest
/// hundredth.
pub proof fn hundredths_are_the_nearest(d: Double) -> (n: int)
    requires
        d.bits < 0x7ff0_0000_0000_0000,
    ensures
        n >= 0,
        d.fixed(2) == decimal::decimal(n / 100) + "."@ + seq![
            decimal::digit_char(n / 10 % 10),
            decimal::digit_char(n % 10),
        ],
        -under(d) <= 2 * (n * under(d) - 100 * over(d)) <= under(d),
{
    up_pos(d.exponent());
    up_pos(-d.exponent());
    let wide = d.significand() * 100 * up(d.exponent());
    assert(wide == 100 * over(d)) by (nonlinear_arith)
        requires
            wide == d.significand() * 100 * up(d.exponent()),
            over(d) == d.significand() * up(d.exponent()),
    ;
    assert(over(d) >= 0) by (nonlinear_arith)
        requires
            over(d) == d.significand() * up(d.exponent()),
            d.significand() >= 0,
            up(d.exponent()) >= 1,
    ;
    half_even_is_near(wide, under(d));
    let n = d.scaled_size(2);
    assert(n % 100 / 10 == n / 10 % 10 && n % 100 % 10 == n % 10);
    reveal_strlit("");
    assert(d.fixed(2) =~= decimal::decimal(n / 100) + "."@ + seq![
        decimal::digit_char(n / 10 % 10),
        decimal::digit_char(n % 10),
    ]);
    n
}

/// A time in milliseconds from a second on is told in seconds with two decimals: the
/// hundredth of a second nearest to it.
pub proof fn milliseconds_are_told_in_hundredths(ms: int) -> (n: int)
    requires
        1000 <= ms < 0x2_0000_0000_0000,
    ensures
        (Double { bits: nearest_bits(nearest_integer(ms), 1_000) as u64 }).fixed(2)
            == decimal::decimal(n / 100) + "."@ + seq![
            decimal::digit_char(n / 10 % 10),
            decimal::digit_char(n % 10),
        ],
        -5 <= 10 * n - ms <= 5,
{
    let e = quotient_binade(ms, 1_000);
    quotient_is_near(ms, 1_000, e);
    let d = Double { bits: nearest_bits(ms, 1_000) as u64 };
    let n = hundredths_are_the_nearest(d);
    let o = over(d);
    let u = under(d);
    // The number has 53 bits and is below 2^40, so that it counts in parts of at least 2^-12.
    assert(u >= 4096) by {
        if e >= -12 {
            up_pos(-e);
            let q = 1_000 * up(e);
            up_pos(e);
            assert(BINADE * q >= 0x0010_0000_0000_0000 * 1_000) by (nonlinear_arith)
                requires
                    q >= 1_000,
                    BINADE == 0x0010_0000_0000_0000,
            ;
            if e >= 0 {
                assert(up(-e) == 1);
                assert(ms * up(-e) == ms);
            } else {
                lemma2_to64();
                if e > -12 {
                    lemma_pow2_strictly_increases((-e) as nat, 12);
                }
                assert(ms * up(-e) <= ms * 4096) by (nonlinear_arith)
                    requires
                        ms >= 0,
                        up(-e) <= 4096,
                ;
            }
        }
        assert(e < -12);
        lemma2_to64();
        if -d.exponent() > 12 {
            lemma_pow2_strictly_increases(12, (-d.exponent()) as nat);
        }
    }
    let x = 10 * n - ms;
    let a = n * u - 100 * o;
    let b = o * 1_000 - ms * u;
    assert(x * u == 10 * a + b) by (nonlinear_arith)
        requires
            x == 10 * n - ms,
            a == n * u - 100 * o,
            b == o * 1_000 - ms * u,
    ;
    assert(-u <= 8 * b <= u) by (nonlinear_arith)
        requires
            -(ms * u) <= 0x0020_0000_0000_0000 * b <= ms * u,
            0 <= ms < 0x2_0000_0000_0000,
            u > 0,
    ;
    assert(-6 * u < x * u < 6 * u);
    assert(-6 < x < 6) by (nonlinear_arith)
        requires
            -6 * u < x * u < 6 * u,
            u > 0,
    ;
    n
}

/// A share of a count is told in percent with two decimals: the hundredth of a percent
/// nearest to it.
pub proof fn shares_are_told_in_hundredths(part: int, whole: int) -> (n: int)
    requires
        0 <= part <= whole,
        0 < whole <= 0x20_0000_0000,
    ensures
        (Double { bits: percentage_bits(part, whole) as u64 }).fixed(2) == decimal::decimal(n / 100)
            + "."@ + seq![decimal::digit_char(n / 10 % 10), decimal::digit_char(n % 10)],
        -whole <= 2 * (n * whole - 10_000 * part) <= whole,
{
    let p = Double { bits: percentage_bits(part, whole) as u64 };
    if part == 0 {
        let n = hundredths_are_the_nearest(p);
        assert(p.significand() == 0);
        assert(over(p) == 0);
        up_pos(-p.exponent());
        let u = under(p);
        assert(n == 0) by (nonlinear_arith)
            requires
                -u <= 2 * (n * u) <= u,
                u >= 1,
        ;
        assert(n * whole == 0) by (nonlinear_arith)
            requires
                n == 0,
        ;
        n
    } else {
        let e = quotient_binade(part, whole);
        quotient_is_near(part, whole, e);
        let r = Double { bits: nearest_bits(part, whole) as u64 };
        let wide = r.significand() * 100;
        let s: int = if wide >= 0x0800_0000_0000_0000 {
            7
        } else {
            6
        };
        lemma2_to64();
        assert(r.significand() < 2 * BINADE) by {
            lemma_mod_bound(r.magnitude(), BINADE as int);
        }
        product_binade(wide, r.exponent(), s);
        let num = wide * up(r.exponent());
        up_pos(r.exponent());
        assert(num > 0) by (nonlinear_arith)
            requires
                num == wide * up(r.exponent()),
                wide > 0,
                up(r.exponent()) >= 1,
        ;
        quotient_is_near(num, under(r), r.exponent() + s);
        assert(num == 100 * over(r)) by (nonlinear_arith)
            requires
                num == wide * up(r.exponent()),
                wide == r.significand() * 100,
                over(r) == r.significand() * up(r.exponent()),
        ;
        let n = hundredths_are_the_nearest(p);
        rounding_twice_is_near(part, whole, over(r), under(r), over(p), under(p), n);
        n
    }
}

proof fn rounding_twice_is_near(
    part: int,
    whole: int,
    nr: int,
    dr: int,
    np: int,
    dp: int,
    n: int,
)
    requires
        0 < part <= whole <= 0x20_0000_0000,
        dr >= 1,
        dp >= 1,
        nr >= 1,
        -(part * dr) <= 0x0020_0000_0000_0000 * (nr * whole - part * dr) <= part * dr,
        -((100 * nr) * dp) <= 0x0020_0000_0000_0000 * (np * dr - (100 * nr) * dp) <= (100 * nr) * dp,
        -dp <= 2 * (n * dp - 100 * np) <= dp,
    ensures
        -whole <= 2 * (n * whole - 10_000 * part) <= whole,
{
    let a = n * dp - 100 * np;
    let b = np * dr - (100 * nr) * dp;
    let c = nr * whole - part * dr;
    let x = n * whole - 10_000 * part;
    let t = dp * dr;
    let y = part * dr;
    assert(t >= 1) by (nonlinear_arith)
        requires
            t == dp * dr,
            dp >= 1,
            dr >= 1,
    ;
    let p1 = (n * whole) * t;
    let p2 = np * (whole * dr);
    let p3 = whole * (nr * dp);
    assert((n * dp) * (whole * dr) == p1) by (nonlinear_arith)
        requires
            p1 == (n * whole) * t,
            t == dp * dr,
    ;
    assert(a * (whole * dr) == p1 - 100 * p2) by (nonlinear_arith)
        requires
            a == n * dp - 100 * np,
            (n * dp) * (whole * dr) == p1,
            p2 == np * (whole * dr),
    ;
    assert(whole * b == p2 - 100 * p3) by (nonlinear_arith)
        requires
            b == np * dr - (100 * nr) * dp,
            p2 == np * (whole * dr),
            p3 == whole * (nr * dp),
    ;
    assert(dp * c == p3 - part * t) by (nonlinear_arith)
        requires
            c == nr * whole - part * dr,
            p3 == whole * (nr * dp),
            t == dp * dr,
    ;
    assert(x * t == p1 - 10_000 * (part * t)) by (nonlinear_arith)
        requires
            x == n * whole - 10_000 * part,
            p1 == (n * whole) * t,
    ;
    assert(x * t == a * (whole * dr) + 100 * (whole * b) + 10_000 * (dp * c));
    assert(-(whole * t) <= 2 * (a * (whole * dr)) <= whole * t) by (nonlinear_arith)
        requires
            -dp <= 2 * a <= dp,
            t == dp * dr,
            whole > 0,
            dr >= 1,
    ;
    assert(y >= 1) by (nonlinear_arith)
        requires
            y == part * dr,
            part > 0,
            dr >= 1,
    ;
    assert(nr * whole <= 2 * y);
    let z = part * t;
    assert(z == dp * y) by (nonlinear_arith)
        requires
            z == part * t,
            t == dp * dr,
            y == part * dr,
    ;
    let w = whole * b;
    assert(whole * ((100 * nr) * dp) <= 200 * z) by (nonlinear_arith)
        requires
            nr * whole <= 2 * y,
            z == dp * y,
            dp >= 1,
    ;
    assert(-(whole * ((100 * nr) * dp)) <= 0x0020_0000_0000_0000 * w <= whole * ((100 * nr) * dp))
        by (nonlinear_arith)
        requires
            -((100 * nr) * dp) <= 0x0020_0000_0000_0000 * b <= (100 * nr) * dp,
            w == whole * b,
            whole > 0,
    ;
    let v = dp * c;
    assert(-z <= 0x0020_0000_0000_0000 * v <= z) by (nonlinear_arith)
        requires
            -y <= 0x0020_0000_0000_0000 * c <= y,
            v == dp * c,
            z == dp * y,
            dp >= 1,
    ;
    // Both roundings together move the value by less than half of what is asked.
    let rest = 100 * w + 10_000 * v;
    assert(-(30_000 * z) <= 0x0020_0000_0000_0000 * rest <= 30_000 * z);
    assert(z <= 0x20_0000_0000 * t) by (nonlinear_arith)
        requires
            z == part * t,
            part <= 0x20_0000_0000,
            t >= 1,
    ;
    assert(-t < 2 * rest < t);
    assert(2 * (x * t) == 2 * (a * (whole * dr)) + 2 * rest);
    assert(-(whole + 1) < 2 * x < whole + 1) by (nonlinear_arith)
        requires
            -(whole * t) - t < 2 * (x * t) < whole * t + t,
            t >= 1,
    ;
}

/// A finite number that is not negative is told with one decimal as the nearest tenth.
pub proof fn tenths_are_the_nearest(d: Double) -> (n: int)
    requires
        d.bits < 0x7ff0_0000_0000_0000,
    ensures
        n >= 0,
        d.fixed(1) == decimal::decimal(n / 10) + "."@ + seq![decimal::digit_char(n % 10)],
        -under(d) <= 2 * (n * under(d) - 10 * over(d)) <= under(d),
{
    up_pos(d.exponent());
    up_pos(-d.exponent());
    let wide = d.significand() * 10 * up(d.exponent());
    assert(wide == 10 * over(d)) by (nonlinear_arith)
        requires
            wide == d.significand() * 10 * up(d.exponent()),
            over(d) == d.significand() * up(d.exponent()),
    ;
    assert(over(d) >= 0) by (nonlinear_arith)
        requires
            over(d) == d.significand() * up(d.exponent()),
            d.significand() >= 0,
            up(d.exponent()) >= 1,
    ;
    half_even_is_near(wide, under(d));
    let n = d.scaled_size(1);
    reveal_strlit("");
    assert(d.fixed(1) =~= decimal::decimal(n / 10) + "."@ + seq![decimal::digit_char(n % 10)]);
    n
}

/// A negative number is told as a positive one behind a minus sign, and rounded to the
/// same distance from zero; what is no number is told so and rounded to zero, and an
/// infinite one is rounded to the end of the range.
pub proof fn signs_are_kept(d: Double, positive: Double, places: int)
    requires
        d.bits == positive.bits + 0x8000_0000_0000_0000,
    ensures
        positive.bits <= 0x7ff0_0000_0000_0000 ==> d.fixed(places) == "-"@ + positive.fixed(places),
        positive.bits < 0x7ff0_0000_0000_0000 && positive.rounded() < i64::MAX ==> d.rounded()
            == -positive.rounded(),
        positive.bits > 0x7ff0_0000_0000_0000 ==> d.fixed(places) == "NaN"@ && positive.fixed(places)
            == "NaN"@ && d.rounded() == 0 && positive.rounded() == 0,
        positive.bits == 0x7ff0_0000_0000_0000 ==> positive.fixed(places) == "inf"@
            && positive.rounded() == i64::MAX && d.rounded() == i64::MIN,
{
    reveal_strlit("");
    assert(""@ =~= Seq::empty());
    assert(d.magnitude() == positive.magnitude());
    assert(d.significand() == positive.significand() && d.exponent() == positive.exponent());
    assert(""@ + "inf"@ =~= "inf"@);
    assert("-"@ + (""@ + "inf"@) =~= "-"@ + "inf"@);
    if positive.bits < 0x7ff0_0000_0000_0000 {
        let n = positive.scaled_size(places);
        assert(d.scaled_size(places) == n);
        let whole = decimal::digits((n / scale(places)) as nat);
        let rest = decimals(n % scale(places), places);
        assert("-"@ + whole + "."@ + rest =~= "-"@ + (""@ + whole + "."@ + rest));
        assert(d.rounded_size() == positive.rounded_size());
        up_pos(positive.exponent());
        up_pos(-positive.exponent());
        let den = up(-positive.exponent());
        let num = positive.significand() * up(positive.exponent());
        assert(num >= 0) by (nonlinear_arith)
            requires
                num == positive.significand() * up(positive.exponent()),
                positive.significand() >= 0,
                up(positive.exponent()) >= 1,
        ;
        lemma_div_pos_is_pos(2 * num + den, 2 * den);
    }
}

} // verus!
