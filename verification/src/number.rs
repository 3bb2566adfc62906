//! Double-precision numbers, carried by their bit pattern.
//!
//! The number that a bit pattern stands for is stated as an integer multiple of the smallest
//! positive double, so comparisons and rounding are exact statements about integers.

use vstd::arithmetic::div_mod::*;
use vstd::arithmetic::mul::*;
use vstd::arithmetic::power2::*;
use vstd::bits::*;
use vstd::prelude::*;

verus! {

/// An IEEE 754 double, as the 64 bits that encode it.
#[derive(Clone, Copy, PartialEq, Eq, Structural, Debug)]
pub struct Real {
    pub bits: u64,
}

/// How many of the smallest positive double make one.
pub open spec fn unit() -> nat {
    pow2(1074)
}

/// The bits of a finite double are below this once its sign is removed.
pub const INFINITE: u64 = 0x7FF0_0000_0000_0000;

/// The sign bit.
pub const SIGN: u64 = 0x8000_0000_0000_0000;

/// The exponent field starts here.
pub const IMPLICIT: u64 = 0x10_0000_0000_0000;

/// The significand of the bits `m` (sign removed), with its implicit bit.
pub open spec fn significand(m: int) -> int {
    if m / (IMPLICIT as int) == 0 {
        m
    } else {
        IMPLICIT + m % (IMPLICIT as int)
    }
}

/// The power of two that scales the significand of the bits `m` (sign removed).
pub open spec fn exponent(m: int) -> nat {
    if m / (IMPLICIT as int) == 0 {
        0
    } else {
        (m / (IMPLICIT as int) - 1) as nat
    }
}

/// The absolute value that the bits `m` (sign removed) encode, in smallest positive doubles.
pub open spec fn magnitude(m: int) -> int {
    significand(m) * pow2(exponent(m))
}

impl Real {
    /// The number is neither infinite nor not-a-number.
    pub open spec fn is_finite(self) -> bool {
        self.bits % SIGN < INFINITE
    }

    /// The bits encode no number at all.
    pub open spec fn is_nan(self) -> bool {
        self.bits % SIGN > INFINITE
    }

    /// The number, in smallest positive doubles.
    pub open spec fn scaled(self) -> int {
        if self.bits < SIGN {
            magnitude(self.bits as int)
        } else {
            -magnitude(self.bits - SIGN)
        }
    }

    /// An integer that grows with the number.
    pub open spec fn order(self) -> int {
        if self.bits < SIGN {
            self.bits as int
        } else {
            SIGN - self.bits
        }
    }

    /// Whether the number is finite.
    pub fn finite(self) -> (r: bool)
        ensures
            r == self.is_finite(),
    {
        self.bits % SIGN < INFINITE
    }

    /// Whether the bits encode no number.
    pub fn nan(self) -> (r: bool)
        ensures
            r == self.is_nan(),
    {
        self.bits % SIGN > INFINITE
    }

    /// The order of two numbers.
    pub fn less(self, other: Real) -> (r: bool)
        ensures
            r == (self.order() < other.order()),
    {
        if self.bits < SIGN {
            other.bits < SIGN && self.bits < other.bits
        } else if other.bits < SIGN {
            self.bits > SIGN || other.bits > 0
        } else {
            self.bits > other.bits
        }
    }
}

proof fn lemma_magnitude_step(m: int)
    requires
        0 <= m,
    ensures
        0 <= magnitude(m) < magnitude(m + 1),
{
    let d = IMPLICIT as int;
    lemma_pow2_pos(exponent(m));
    lemma_pow2_pos(exponent(m + 1));
    assert(significand(m) >= 0);
    let p = pow2(exponent(m)) as int;
    assert(0 <= significand(m) * p) by (nonlinear_arith)
        requires
            significand(m) >= 0,
            p > 0,
    ;
    if (m + 1) / d == m / d {
        assert(significand(m + 1) == significand(m) + 1);
        assert(exponent(m + 1) == exponent(m));
        assert((significand(m) + 1) * p == significand(m) * p + p) by (nonlinear_arith);
    } else {
        assert((m + 1) / d == m / d + 1);
        assert((m + 1) % d == 0);
        if m / d == 0 {
            assert(significand(m) == d - 1);
            assert(significand(m + 1) == d);
            assert(exponent(m + 1) == 0);
            lemma2_to64();
        } else {
            let e = exponent(m);
            assert(exponent(m + 1) == e + 1);
            lemma_pow2_unfold(e + 1);
            assert(significand(m) == 2 * d - 1);
            assert(significand(m + 1) == d);
            assert(d * (2 * p) == 2 * d * p) by (nonlinear_arith);
            assert((2 * d - 1) * p == 2 * d * p - p) by (nonlinear_arith);
        }
    }
}

proof fn lemma_magnitude_increases(a: int, b: int)
    requires
        0 <= a < b,
    ensures
        magnitude(a) < magnitude(b),
    decreases b - a,
{
    lemma_magnitude_step(b - 1);
    if a < b - 1 {
        lemma_magnitude_increases(a, b - 1);
    }
}

/// One number is below another exactly where its order is.
pub proof fn law_order_is_numeric(a: Real, b: Real)
    requires
        a.is_finite(),
        b.is_finite(),
    ensures
        a.order() < b.order() <==> a.scaled() < b.scaled(),
        a.order() == b.order() <==> a.scaled() == b.scaled(),
{
    let x = a.bits as int;
    let y = b.bits as int;
    let s = SIGN as int;
    assert(magnitude(0) == 0) by {
        lemma2_to64();
        assert(0 * pow2(0) == 0);
    }
    if x < s {
        lemma_magnitude_step(x);
        if 0 < x {
            lemma_magnitude_increases(0, x);
        }
    } else if 0 < x - s {
        lemma_magnitude_increases(0, x - s);
    }
    if y < s {
        if 0 < y {
            lemma_magnitude_increases(0, y);
        }
    } else if 0 < y - s {
        lemma_magnitude_increases(0, y - s);
    }
    if x < s && y < s {
        if x < y {
            lemma_magnitude_increases(x, y);
        } else if y < x {
            lemma_magnitude_increases(y, x);
        }
    } else if x >= s && y >= s {
        if x < y {
            lemma_magnitude_increases(x - s, y - s);
        } else if y < x {
            lemma_magnitude_increases(y - s, x - s);
        }
    }
}

/// What a number holds beyond its whole part, against one half.
#[derive(Clone, Copy, PartialEq, Eq, Structural, Debug)]
pub enum Rest {
    Zero,
    Low,
    Half,
    High,
}

/// A non-negative number as its whole part and what is left.
#[derive(Clone, Copy, PartialEq, Eq, Structural, Debug)]
pub struct Parts {
    pub whole: u64,
    pub rest: Rest,
}

/// Whole parts are told apart below this number.
pub const WHOLE_LIMIT: u64 = 0x20_0000_0000_0000;

/// `p` is the whole part and the rest of the number `scaled` (in smallest positive doubles). From
/// `WHOLE_LIMIT` on only that limit is given.
pub open spec fn splits_into(scaled: int, p: Parts) -> bool {
    let u = unit() as int;
    if scaled >= WHOLE_LIMIT * u {
        p == (Parts { whole: WHOLE_LIMIT, rest: Rest::Zero })
    } else {
        let left = scaled - p.whole * u;
        &&& p.whole < WHOLE_LIMIT
        &&& 0 <= left < u
        &&& p.rest == (if left == 0 {
            Rest::Zero
        } else if 2 * left < u {
            Rest::Low
        } else if 2 * left == u {
            Rest::Half
        } else {
            Rest::High
        })
    }
}

proof fn lemma_split(m: int, e: nat, shift: nat, w: int, r: int)
    requires
        0 < shift,
        e + shift == 1074,
        m == w * pow2(shift) + r,
        0 <= r < pow2(shift),
    ensures
        m * pow2(e) == w * unit() + r * pow2(e),
        0 <= r * pow2(e) < unit(),
        r == 0 <==> r * pow2(e) == 0,
        2 * r < pow2(shift) <==> 2 * (r * pow2(e)) < unit(),
        2 * r == pow2(shift) <==> 2 * (r * pow2(e)) == unit(),
{
    let p = pow2(e) as int;
    let q = pow2(shift) as int;
    lemma_pow2_pos(e);
    lemma_pow2_pos(shift);
    lemma_pow2_adds(e, shift);
    assert(unit() == p * q);
    assert((w * q + r) * p == w * (p * q) + r * p) by (nonlinear_arith);
    assert(0 <= r * p < p * q) by (nonlinear_arith)
        requires
            0 <= r < q,
            p > 0,
    ;
    assert(r != 0 ==> r * p != 0) by (nonlinear_arith)
        requires
            p > 0,
    ;
    assert(2 * (r * p) == (2 * r) * p) by (nonlinear_arith);
    assert(2 * r < q ==> (2 * r) * p < p * q) by (nonlinear_arith)
        requires
            p > 0,
    ;
    assert(2 * r == q ==> (2 * r) * p == p * q) by (nonlinear_arith);
    assert(2 * r > q ==> (2 * r) * p > p * q) by (nonlinear_arith)
        requires
            p > 0,
    ;
}

fn power_of_two(k: u64) -> (r: u64)
    requires
        k <= 53,
    ensures
        r == pow2(k as nat),
        1 <= r <= WHOLE_LIMIT,
        k >= 1 ==> r >= 2,
{
    proof {
        lemma2_to64();
        lemma2_to64_rest();
        if k < 53 {
            lemma_pow2_strictly_increases(k as nat, 53);
        }
        if k > 1 {
            lemma_pow2_strictly_increases(1, k as nat);
        }
        lemma_pow2_pos(k as nat);
        lemma_u64_shl_is_mul(1, k);
    }
    1u64 << k
}

impl Real {
    /// Splits a finite non-negative number into its whole part and the rest.
    pub fn parts(self) -> (p: Parts)
        requires
            self.is_finite(),
            self.bits < SIGN,
        ensures
            splits_into(self.scaled(), p),
    {
        let field: u64 = self.bits / IMPLICIT;
        proof {
            lemma2_to64();
            lemma2_to64_rest();
        }
        let m: u64 = if field == 0 {
            self.bits
        } else {
            IMPLICIT + self.bits % IMPLICIT
        };
        let ghost e = exponent(self.bits as int);
        assert(self.scaled() == m * pow2(e));
        assert(m < pow2(53));
        if field >= 1076 {
            proof {
                lemma_pow2_adds(1, 1074);
                if e > 1075 {
                    lemma_pow2_strictly_increases(1075, e);
                }
                let pe = pow2(e) as int;
                let u = unit() as int;
                assert(m * pe >= WHOLE_LIMIT * u) by (nonlinear_arith)
                    requires
                        m >= IMPLICIT,
                        pe >= 2 * u,
                        u >= 0,
                        WHOLE_LIMIT == 2 * IMPLICIT,
                ;
            }
            return Parts { whole: WHOLE_LIMIT, rest: Rest::Zero };
        }
        if field == 1075 {
            proof {
                let u = unit() as int;
                lemma_pow2_pos(1074);
                assert(m * u < WHOLE_LIMIT * u) by (nonlinear_arith)
                    requires
                        m < WHOLE_LIMIT,
                        u > 0,
                ;
            }
            return Parts { whole: m, rest: Rest::Zero };
        }
        let shift: u64 = if field == 0 {
            1074
        } else {
            1075 - field
        };
        if shift > 53 {
            proof {
                lemma_pow2_strictly_increases(53, shift as nat);
                if shift > 54 {
                    lemma_pow2_strictly_increases(54, shift as nat);
                }
                lemma_pow2_pos(1074);
                lemma_split(m as int, e, shift as nat, 0, m as int);
            }
            let rest = if m == 0 {
                Rest::Zero
            } else {
                Rest::Low
            };
            return Parts { whole: 0, rest };
        }
        let power: u64 = power_of_two(shift);
        let whole: u64 = m / power;
        let rem: u64 = m % power;
        proof {
            lemma_fundamental_div_mod(m as int, power as int);
            lemma_mod_bound(m as int, power as int);
            let q = power as int;
            let w = whole as int;
            assert(q * w == w * q) by (nonlinear_arith);
            lemma_split(m as int, e, shift as nat, w, rem as int);
            lemma_pow2_pos(1074);
            let u = unit() as int;
            assert(w < WHOLE_LIMIT) by {
                lemma_div_decreases(m as int, q);
            }
            assert(w * u + u <= WHOLE_LIMIT * u) by (nonlinear_arith)
                requires
                    w + 1 <= WHOLE_LIMIT,
                    u > 0,
            ;
        }
        let rest = if rem == 0 {
            Rest::Zero
        } else if 2 * rem < power {
            Rest::Low
        } else if 2 * rem == power {
            Rest::Half
        } else {
            Rest::High
        };
        Parts { whole, rest }
    }
}

/// The number `scaled` (in smallest positive doubles), which is not negative, rounded to the
/// nearest integer, halves away from zero, and cut off at the largest 32-bit number.
pub open spec fn rounded(scaled: int) -> int {
    let n = (2 * scaled + unit()) / (2 * unit() as int);
    if n > u32::MAX {
        u32::MAX as int
    } else {
        n
    }
}

/// The double that equals `n`.
pub open spec fn whole(n: u32) -> Real {
    choose|r: Real| r.is_finite() && r.bits < SIGN && #[trigger] r.scaled() == n * unit()
}

impl Real {
    /// Rounds a finite non-negative number to an integer.
    pub fn round(self) -> (n: u32)
        requires
            self.is_finite(),
            self.bits < SIGN,
        ensures
            n == rounded(self.scaled()),
    {
        let p = self.parts();
        let up: u64 = match p.rest {
            Rest::Zero => 0,
            Rest::Low => 0,
            Rest::Half => 1,
            Rest::High => 1,
        };
        let n: u64 = p.whole + up;
        proof {
            lemma_pow2_pos(1074);
            let u = unit() as int;
            let v = self.scaled();
            let w = p.whole as int;
            if v >= WHOLE_LIMIT * u {
                assert((2 * v + u) / (2 * u) >= WHOLE_LIMIT) by (nonlinear_arith)
                    requires
                        v >= WHOLE_LIMIT * u,
                        u > 0,
                ;
            } else {
                let left = v - w * u;
                let rem = if up == 0 {
                    2 * left + u
                } else {
                    2 * left - u
                };
                assert(2 * v + u == (w + up) * (2 * u) + rem) by (nonlinear_arith)
                    requires
                        v == w * u + left,
                        up == 0 ==> rem == 2 * left + u,
                        up == 1 ==> rem == 2 * left - u,
                        up == 0 || up == 1,
                ;
                lemma_fundamental_div_mod_converse(2 * v + u, 2 * u, w + up, rem);
            }
        }
        if n > 0xFFFF_FFFF {
            0xFFFF_FFFF
        } else {
            n as u32
        }
    }

    /// The double that equals `n`.
    pub fn of_u32(n: u32) -> (r: Real)
        ensures
            r.is_finite(),
            r.bits < SIGN,
            r.scaled() == n * unit(),
            r == whole(n),
    {
        let r = Real::with_value(n);
        proof {
            law_order_is_numeric(r, whole(n));
        }
        r
    }

    fn with_value(n: u32) -> (r: Real)
        ensures
            r.is_finite(),
            r.bits < SIGN,
            r.scaled() == n * unit(),
    {
        if n == 0 {
            assert(0 * pow2(0) == 0);
            assert(0 * unit() == 0);
            return Real { bits: 0 };
        }
        let mut k: u64 = 0;
        let mut top: u64 = 1;
        proof {
            lemma2_to64();
            lemma2_to64_rest();
        }
        while 2 * top <= n as u64
            invariant
                n <= 0xFFFF_FFFF,
                top <= n,
                k <= 31,
                top == pow2(k as nat),
                pow2(32) == 0x1_0000_0000,
            decreases n - top,
        {
            proof {
                lemma_pow2_unfold((k + 1) as nat);
                lemma_pow2_pos(k as nat);
                if k == 31 {
                    assert(pow2(32) == 2 * top);
                }
            }
            top = 2 * top;
            k += 1;
        }
        let up: u64 = power_of_two(52 - k);
        let field: u64 = 1023 + k;
        proof {
            lemma_pow2_adds(k as nat, (52 - k) as nat);
            assert(top * up == IMPLICIT);
            assert(IMPLICIT <= n * up < 2 * IMPLICIT) by (nonlinear_arith)
                requires
                    top <= n,
                    n < 2 * top,
                    top * up == IMPLICIT,
                    up > 0,
            ;
        }
        let frac: u64 = n as u64 * up - IMPLICIT;
        let bits: u64 = field * IMPLICIT + frac;
        proof {
            let m = bits as int;
            lemma_fundamental_div_mod_converse(m, IMPLICIT as int, field as int, frac as int);
            assert(significand(m) == n * up);
            lemma_pow2_adds((52 - k) as nat, (field - 1) as nat);
            let a = up as int;
            let b = pow2((field - 1) as nat) as int;
            assert((n * a) * b == n * (a * b)) by (nonlinear_arith);
        }
        Real { bits }
    }
}

/// No integer is nearer to a number than the one it is rounded to; of two that are equally near
/// the larger is taken.
pub proof fn law_rounding_takes_the_nearest(scaled: int, n: int)
    requires
        0 <= scaled < u32::MAX * unit(),
    ensures
        2 * (rounded(scaled) * unit() - scaled) <= unit(),
        2 * (scaled - rounded(scaled) * unit()) < unit(),
        2 * (n * unit() - scaled) <= unit() && 2 * (scaled - n * unit()) < unit() ==> n == rounded(
            scaled,
        ),
{
    lemma_pow2_pos(1074);
    let u = unit() as int;
    let q = (2 * scaled + u) / (2 * u);
    lemma_fundamental_div_mod(2 * scaled + u, 2 * u);
    lemma_mod_bound(2 * scaled + u, 2 * u);
    let r = (2 * scaled + u) % (2 * u);
    assert((2 * u) * q == 2 * (q * u)) by (nonlinear_arith);
    assert(q <= u32::MAX) by (nonlinear_arith)
        requires
            2 * scaled + u == 2 * (q * u) + r,
            0 <= r,
            scaled < u32::MAX * u,
            u > 0,
    ;
    assert(rounded(scaled) == q);
    if 2 * (n * u - scaled) <= u && 2 * (scaled - n * u) < u {
        assert(n == q) by (nonlinear_arith)
            requires
                2 * (n * u - scaled) <= u,
                2 * (scaled - n * u) < u,
                2 * (q * u - scaled) <= u,
                2 * (scaled - q * u) < u,
                u > 0,
        ;
    }
}

/// The sign bit turns a number into its negative.
pub proof fn law_sign_negates(bits: u64)
    requires
        bits < 0x8000_0000_0000_0000,
    ensures
        (Real { bits: (bits + 0x8000_0000_0000_0000) as u64 }).scaled() == -(Real { bits }).scaled(),
        (Real { bits: (bits + 0x8000_0000_0000_0000) as u64 }).is_finite() == (Real { bits }).is_finite(),
        (Real { bits }).is_finite() <==> bits < 0x7FF0_0000_0000_0000,
{
}

/// One more in the exponent field doubles a number; with 1023 there and nothing behind, the bits
/// encode one.
pub proof fn law_exponent_doubles(bits: u64)
    requires
        0x10_0000_0000_0000 <= bits < 0x7FE0_0000_0000_0000,
    ensures
        (Real { bits: (bits + 0x10_0000_0000_0000) as u64 }).scaled() == 2 * (Real { bits }).scaled(),
        (Real { bits: 0x3FF0_0000_0000_0000 }).scaled() == unit(),
{
    let m = bits as int;
    let d = IMPLICIT as int;
    assert((m + d) / d == m / d + 1 && (m + d) % d == m % d);
    lemma_pow2_unfold(exponent(m + d));
    let a = significand(m);
    let b = pow2(exponent(m)) as int;
    assert(a * (2 * b) == 2 * (a * b)) by (nonlinear_arith);
    lemma2_to64();
    lemma2_to64_rest();
    lemma_pow2_adds(52, 1022);
    assert(0x3FF0_0000_0000_0000int / d == 1023 && 0x3FF0_0000_0000_0000int % d == 0);
}

} // verus!
