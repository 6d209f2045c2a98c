//! IEEE 754 double precision arithmetic on exact integers.
//!
//! A finite double that is not negative is a whole number of units, where one unit is the least
//! positive double, 2 to the power of -1074. Sizes and file names are scaled and compared in
//! double precision, so their results are stated by rounding exact rationals to whole units.
use vstd::arithmetic::div_mod::{lemma_fundamental_div_mod, lemma_fundamental_div_mod_converse};
use vstd::arithmetic::mul::{lemma_mul_is_associative, lemma_mul_is_commutative};
use vstd::arithmetic::power2::{lemma_pow2_adds, lemma_pow2_pos, lemma_pow2_unfold, pow2};
use vstd::prelude::*;

verus! {

/// The exponent of the unit: there are this many powers of two in one.
pub open spec fn unit_exp() -> nat {
    1074
}

/// How many units make up the number one.
pub open spec fn one() -> nat {
    pow2(unit_exp())
}

/// `n / d` rounded to the nearest integer, ties to the even one.
pub open spec fn round_half_even(n: int, d: int) -> int {
    let q = n / d;
    let r = n % d;
    if 2 * r < d || (2 * r == d && q % 2 == 0) {
        q
    } else {
        q + 1
    }
}

/// `n / d` rounded to the nearest integer, ties away from zero, for an `n` that is not negative.
pub open spec fn round_half_up(n: int, d: int) -> int {
    (2 * n + d) / (2 * d)
}

/// How many low bits of `n` do not fit in the 53 bits of a double's significand.
pub open spec fn excess_bits(n: nat) -> nat
    decreases n,
{
    if n < 0x20_0000_0000_0000 {
        0
    } else {
        1 + excess_bits(n / 2)
    }
}

/// The exponent, above that of the unit, of the double nearest to `n / d`.
pub open spec fn double_exp(n: nat, d: nat) -> nat {
    excess_bits((n * one()) / d)
}

/// The significand of the double nearest to `n / d`.
pub open spec fn double_significand(n: nat, d: nat) -> nat {
    round_half_even((n * one()) as int, (d * pow2(double_exp(n, d))) as int) as nat
}

/// The double nearest to `n / d`, in units.
pub open spec fn double_units(n: nat, d: nat) -> nat {
    double_significand(n, d) * pow2(double_exp(n, d))
}

/// The bits of the double nearest to `n / d`, as long as that is finite.
pub open spec fn double_bits(n: nat, d: nat) -> nat {
    double_exp(n, d) * 0x10_0000_0000_0000 + double_significand(n, d)
}

/// Half away from zero rounding of `k * (n / d)`, with the quotient and the product each rounded
/// to a double.
pub open spec fn scale_rounded(k: nat, n: nat, d: nat) -> nat {
    round_half_up(double_units(k * double_units(n, d), one()) as int, one() as int) as nat
}

/// A common factor does not change a rounded quotient.
pub proof fn lemma_round_half_even_cancel(a: int, b: int, c: int)
    requires
        b > 0,
        c > 0,
    ensures
        b * c > 0,
        round_half_even(a * c, b * c) == round_half_even(a, b),
{
    let q = a / b;
    let r = a % b;
    lemma_fundamental_div_mod(a, b);
    assert(b * c > 0) by (nonlinear_arith)
        requires
            b > 0,
            c > 0,
    ;
    assert(a * c == q * (b * c) + r * c && 0 <= r * c < b * c) by (nonlinear_arith)
        requires
            a == b * q + r,
            0 <= r < b,
            c > 0,
    ;
    lemma_fundamental_div_mod_converse(a * c, b * c, q, r * c);
    assert((2 * (r * c) < b * c) == (2 * r < b)) by (nonlinear_arith)
        requires
            c > 0,
    ;
    assert((2 * (r * c) == b * c) == (2 * r == b)) by (nonlinear_arith)
        requires
            c > 0,
    ;
}

/// A rounded quotient is within a half of the quotient.
pub proof fn lemma_round_half_even_near(a: int, b: int)
    requires
        b > 0,
        a >= 0,
    ensures
        round_half_even(a, b) >= 0,
        2 * a - b <= 2 * (round_half_even(a, b) * b) <= 2 * a + b,
{
    lemma_fundamental_div_mod(a, b);
    let q = a / b;
    let r = a % b;
    assert(q >= 0) by (nonlinear_arith)
        requires
            a >= 0,
            b > 0,
            a == b * q + r,
            0 <= r < b,
    ;
    assert(q * b == a - r) by (nonlinear_arith)
        requires
            a == b * q + r,
    ;
    assert((q + 1) * b == a - r + b) by (nonlinear_arith)
        requires
            a == b * q + r,
    ;
}

/// A rounded quotient lies between any two integers that the quotient lies between.
pub proof fn lemma_round_half_even_bounds(a: int, b: int, lo: int, hi: int)
    requires
        b > 0,
        lo * b <= a <= hi * b,
    ensures
        lo <= round_half_even(a, b) <= hi,
{
    lemma_fundamental_div_mod(a, b);
    let q = a / b;
    let r = a % b;
    assert(lo <= q) by (nonlinear_arith)
        requires
            b > 0,
            lo * b <= a,
            a == b * q + r,
            0 <= r < b,
    ;
    assert(q <= hi && (q == hi ==> r == 0)) by (nonlinear_arith)
        requires
            b > 0,
            a <= hi * b,
            a == b * q + r,
            0 <= r < b,
    ;
}

/// What the excess bits of a number say of its size.
pub proof fn lemma_excess_bits(n: nat)
    ensures
        n < 0x20_0000_0000_0000 * pow2(excess_bits(n)),
        excess_bits(n) > 0 ==> n >= 0x10_0000_0000_0000 * pow2(excess_bits(n)),
    decreases n,
{
    lemma_pow2_pos(0);
    assert(pow2(0) == 1) by {
        vstd::arithmetic::power2::lemma2_to64();
    }
    if n >= 0x20_0000_0000_0000 {
        lemma_excess_bits(n / 2);
        lemma_pow2_unfold(excess_bits(n));
    }
}

/// A number of a given size has the excess bits of that size.
pub proof fn lemma_excess_bits_unique(n: nat, e: nat)
    requires
        n < 0x20_0000_0000_0000 * pow2(e),
        e > 0 ==> n >= 0x10_0000_0000_0000 * pow2(e),
    ensures
        excess_bits(n) == e,
    decreases n,
{
    assert(pow2(0) == 1) by {
        vstd::arithmetic::power2::lemma2_to64();
    }
    if e > 0 {
        lemma_pow2_unfold(e);
        lemma_pow2_pos((e - 1) as nat);
        assert(n >= 0x20_0000_0000_0000);
        if e > 1 {
            lemma_pow2_unfold((e - 1) as nat);
        }
        lemma_excess_bits_unique(n / 2, (e - 1) as nat);
    }
}

/// A quotient scaled to 53 bits by a power of two gives the double nearest to it.
pub proof fn lemma_double_scaled(n: nat, d: nat, s: nat)
    requires
        d > 0,
        s <= unit_exp(),
        0x10_0000_0000_0000 * d <= n * pow2(s) < 0x20_0000_0000_0000 * d,
    ensures
        double_exp(n, d) == unit_exp() - s,
        double_significand(n, d) == round_half_even((n * pow2(s)) as int, d as int),
        double_units(n, d) * pow2(s) == double_significand(n, d) * one(),
{
    let e = (unit_exp() - s) as nat;
    let x = n * pow2(s);
    lemma_pow2_adds(s, e);
    lemma_pow2_pos(e);
    let p = pow2(e);
    assert(n * one() == x * p) by {
        lemma_mul_is_associative(n as int, pow2(s) as int, p as int);
    }
    let y = (x * p) / d;
    lemma_fundamental_div_mod((x * p) as int, d as int);
    let r = (x * p) % d;
    assert(0x10_0000_0000_0000 * p <= y < 0x20_0000_0000_0000 * p) by (nonlinear_arith)
        requires
            d > 0,
            p > 0,
            0x10_0000_0000_0000 * d <= x < 0x20_0000_0000_0000 * d,
            x * p == d * y + r,
            0 <= r < d,
    ;
    lemma_excess_bits_unique(y, e);
    lemma_round_half_even_cancel(x as int, d as int, p as int);
    let m = double_significand(n, d);
    lemma_round_half_even_near(x as int, d as int);
    assert((m * p) * pow2(s) == m * one()) by {
        lemma_mul_is_associative(m as int, p as int, pow2(s) as int);
        lemma_mul_is_commutative(p as int, pow2(s) as int);
    }
}

/// `n / d` rounded to the nearest integer, ties to the even one.
pub fn divide_half_even(n: u128, d: u128) -> (r: u128)
    requires
        0 < d < 0x1_0000_0000_0000_0000_0000_0000_0000,
        n < 0x1_0000_0000_0000_0000_0000_0000_0000,
    ensures
        r == round_half_even(n as int, d as int),
        r <= n + 1,
{
    let q: u128 = n / d;
    let r: u128 = n % d;
    assert(q <= n) by (nonlinear_arith)
        requires
            q == n / d,
            d > 0,
    ;
    if 2 * r < d || (2 * r == d && q % 2 == 0) {
        q
    } else {
        q + 1
    }
}

/// Rounded quotients are ordered as the quotients are.
pub proof fn lemma_round_half_even_monotone(a: int, b: int, c: int, d: int)
    requires
        b > 0,
        d > 0,
        a * d <= c * b,
    ensures
        round_half_even(a, b) <= round_half_even(c, d),
{
    lemma_fundamental_div_mod(a, b);
    lemma_fundamental_div_mod(c, d);
    let q1 = a / b;
    let r1 = a % b;
    let q2 = c / d;
    let r2 = c % d;
    assert(q1 <= q2) by (nonlinear_arith)
        requires
            b > 0,
            d > 0,
            a * d <= c * b,
            a == b * q1 + r1,
            c == d * q2 + r2,
            0 <= r1 < b,
            0 <= r2 < d,
    ;
    if q1 == q2 {
        assert(r1 * d <= r2 * b) by (nonlinear_arith)
            requires
                a * d <= c * b,
                a == b * q1 + r1,
                c == d * q1 + r2,
        ;
        assert(2 * r1 > b ==> 2 * r2 > d) by (nonlinear_arith)
            requires
                b > 0,
                d > 0,
                r1 * d <= r2 * b,
        ;
        assert(2 * r1 == b ==> 2 * r2 >= d) by (nonlinear_arith)
            requires
                b > 0,
                d > 0,
                r1 * d <= r2 * b,
        ;
    }
}

/// A longer number has no fewer excess bits.
proof fn lemma_excess_bits_monotone(a: nat, b: nat)
    requires
        a <= b,
    ensures
        excess_bits(a) <= excess_bits(b),
    decreases b,
{
    if a >= 0x20_0000_0000_0000 {
        lemma_excess_bits_monotone(a / 2, b / 2);
    }
}

/// What the significand of a double can be.
pub proof fn lemma_significand_bounds(n: nat, d: nat)
    requires
        d > 0,
    ensures
        double_significand(n, d) <= 0x20_0000_0000_0000,
        double_exp(n, d) > 0 ==> double_significand(n, d) >= 0x10_0000_0000_0000,
        double_significand(n, d) == round_half_even(
            (n * one()) as int,
            (d * pow2(double_exp(n, d))) as int,
        ),
{
    let x = n * one();
    let y = x / d;
    let e = excess_bits(y);
    let p = pow2(e);
    lemma_excess_bits(y);
    lemma_pow2_pos(e);
    lemma_fundamental_div_mod(x as int, d as int);
    let r = x % d;
    assert(0 <= x <= 0x20_0000_0000_0000 * (d * p) && d * p > 0) by (nonlinear_arith)
        requires
            d > 0,
            p > 0,
            x == d * y + r,
            0 <= r < d,
            y < 0x20_0000_0000_0000 * p,
    ;
    lemma_round_half_even_bounds(x as int, (d * p) as int, 0, 0x20_0000_0000_0000);
    if e > 0 {
        assert(0x10_0000_0000_0000 * (d * p) <= x) by (nonlinear_arith)
            requires
                d > 0,
                x == d * y + r,
                0 <= r < d,
                y >= 0x10_0000_0000_0000 * p,
        ;
        lemma_round_half_even_bounds(
            x as int,
            (d * p) as int,
            0x10_0000_0000_0000,
            0x20_0000_0000_0000,
        );
    }
}

/// Rounding to a double keeps the order of quotients.
pub proof fn lemma_double_units_monotone(a: nat, b: nat, c: nat, d: nat)
    requires
        b > 0,
        d > 0,
        a * d <= c * b,
    ensures
        double_units(a, b) <= double_units(c, d),
{
    let o = one();
    lemma_pow2_pos(unit_exp());
    let x = a * o;
    let z = c * o;
    assert(x * d <= z * b) by (nonlinear_arith)
        requires
            a * d <= c * b,
            x == a * o,
            z == c * o,
    ;
    let y1 = x / b;
    let y2 = z / d;
    lemma_fundamental_div_mod(x as int, b as int);
    lemma_fundamental_div_mod(z as int, d as int);
    assert(y1 <= y2) by (nonlinear_arith)
        requires
            b > 0,
            d > 0,
            x * d <= z * b,
            x == b * y1 + x % b,
            0 <= x % b < b,
            z == d * y2 + z % d,
            0 <= z % d < d,
    ;
    lemma_excess_bits_monotone(y1, y2);
    let e1 = excess_bits(y1);
    let e2 = excess_bits(y2);
    lemma_significand_bounds(a, b);
    lemma_significand_bounds(c, d);
    let m1 = double_significand(a, b);
    let m2 = double_significand(c, d);
    let p1 = pow2(e1);
    let p2 = pow2(e2);
    lemma_pow2_pos(e1);
    lemma_pow2_pos(e2);
    if e1 == e2 {
        assert(x * (d * p1) <= z * (b * p1) && b * p1 > 0 && d * p1 > 0) by (nonlinear_arith)
            requires
                x * d <= z * b,
                p1 > 0,
                b > 0,
                d > 0,
        ;
        lemma_round_half_even_monotone(x as int, (b * p1) as int, z as int, (d * p1) as int);
        assert(m1 * p1 <= m2 * p1) by (nonlinear_arith)
            requires
                m1 <= m2,
        ;
    } else {
        lemma_pow2_unfold(e2);
        if e1 < e2 - 1 {
            vstd::arithmetic::power2::lemma_pow2_strictly_increases(e1, (e2 - 1) as nat);
        }
        assert(m1 * p1 <= m2 * p2) by (nonlinear_arith)
            requires
                m1 <= 0x20_0000_0000_0000,
                m2 >= 0x10_0000_0000_0000,
                p2 >= 2 * p1,
        ;
    }
}

/// Doubles that are not negative are ordered as their bits are.
pub proof fn law_bits_order(a: nat, b: nat, c: nat, d: nat)
    requires
        b > 0,
        d > 0,
    ensures
        double_units(a, b) < double_units(c, d) <==> double_bits(a, b) < double_bits(c, d),
        double_units(a, b) == double_units(c, d) <==> double_bits(a, b) == double_bits(c, d),
{
    let e1 = double_exp(a, b);
    let e2 = double_exp(c, d);
    lemma_significand_bounds(a, b);
    lemma_significand_bounds(c, d);
    let m1 = double_significand(a, b);
    let m2 = double_significand(c, d);
    if e1 == e2 {
        let p = pow2(e1);
        lemma_pow2_pos(e1);
        assert((m1 < m2 <==> m1 * p < m2 * p) && (m1 == m2 <==> m1 * p == m2 * p))
            by (nonlinear_arith)
            requires
                p > 0,
        ;
    } else if e1 < e2 {
        lemma_bits_order_apart(m1, e1, m2, e2);
    } else {
        lemma_bits_order_apart(m2, e2, m1, e1);
    }
}

/// Of two doubles the one with the greater exponent is no less, and equal to the other only where
/// that was rounded up to a power of two.
proof fn lemma_bits_order_apart(m1: nat, e1: nat, m2: nat, e2: nat)
    requires
        e1 < e2,
        m1 <= 0x20_0000_0000_0000,
        m2 >= 0x10_0000_0000_0000,
    ensures
        m1 * pow2(e1) <= m2 * pow2(e2),
        e1 * 0x10_0000_0000_0000 + m1 <= e2 * 0x10_0000_0000_0000 + m2,
        m1 * pow2(e1) == m2 * pow2(e2) <==> e1 * 0x10_0000_0000_0000 + m1 == e2
            * 0x10_0000_0000_0000 + m2,
{
    let p1 = pow2(e1);
    let p2 = pow2(e2);
    lemma_pow2_pos(e1);
    lemma_pow2_unfold(e2);
    if e1 < e2 - 1 {
        vstd::arithmetic::power2::lemma_pow2_strictly_increases(e1, (e2 - 1) as nat);
        assert(m1 * p1 < m2 * p2) by (nonlinear_arith)
            requires
                m1 <= 0x20_0000_0000_0000,
                m2 >= 0x10_0000_0000_0000,
                p2 > 2 * p1,
                p1 > 0,
        ;
    } else {
        assert(m2 * p2 == (2 * m2) * p1) by (nonlinear_arith)
            requires
                p2 == 2 * p1,
        ;
        assert((m1 <= 2 * m2 ==> m1 * p1 <= (2 * m2) * p1) && (m1 == 2 * m2 <==> m1 * p1 == (2
            * m2) * p1)) by (nonlinear_arith)
            requires
                p1 > 0,
        ;
    }
}

/// A whole number up to 53 bits is a double.
pub proof fn lemma_double_whole(n: nat)
    requires
        n < 0x20_0000_0000_0000,
    ensures
        double_units(n, 1) == n * one(),
{
    let o = one();
    lemma_pow2_pos(unit_exp());
    let x = n * o;
    assert(x / 1 == x);
    let e = excess_bits(x);
    lemma_excess_bits(x);
    let p = pow2(e);
    lemma_pow2_pos(e);
    if e <= unit_exp() {
        let t = (unit_exp() - e) as nat;
        lemma_pow2_adds(t, e);
        let pt = pow2(t);
        assert(x == (n * pt) * p) by (nonlinear_arith)
            requires
                x == n * o,
                o == pt * p,
        ;
        lemma_fundamental_div_mod_converse(x as int, p as int, (n * pt) as int, 0);
        assert((1 * p) == p);
    } else {
        vstd::arithmetic::power2::lemma_pow2_strictly_increases(unit_exp(), e);
        assert(x < 0x20_0000_0000_0000 * o) by (nonlinear_arith)
            requires
                x == n * o,
                n < 0x20_0000_0000_0000,
                o > 0,
        ;
        lemma_pow2_unfold(e);
        if unit_exp() < e - 1 {
            vstd::arithmetic::power2::lemma_pow2_strictly_increases(unit_exp(), (e - 1) as nat);
        }
        assert(false);
    }
}

/// Rounding to an integer keeps the order of quotients.
pub proof fn lemma_round_half_up_monotone(a: int, b: int, d: int)
    requires
        d > 0,
        a <= b,
    ensures
        round_half_up(a, d) <= round_half_up(b, d),
{
    vstd::arithmetic::div_mod::lemma_div_is_ordered(2 * a + d, 2 * b + d, 2 * d);
}

/// No quotient gives no units.
pub proof fn lemma_double_zero(d: nat)
    requires
        d > 0,
    ensures
        double_units(0, d) == 0,
{
    let o = one();
    assert(0nat * o == 0) by (nonlinear_arith);
    lemma_fundamental_div_mod_converse(0, d as int, 0, 0);
    assert(pow2(0) == 1) by {
        vstd::arithmetic::power2::lemma2_to64();
    }
    assert(d * 1 == d) by (nonlinear_arith);
    assert(0nat * 1nat == 0) by (nonlinear_arith);
}

/// A double: its significand, of 53 bits, over a power of two.
#[derive(Clone, Copy)]
pub struct Fraction {
    pub significand: u64,
    pub shift: u32,
}

impl Fraction {
    pub open spec fn wf(self) -> bool {
        &&& 0x10_0000_0000_0000 <= self.significand <= 0x20_0000_0000_0000
        &&& 20 <= self.shift <= 84
    }

    pub open spec fn below_one(self) -> bool {
        &&& 53 <= self.shift
        &&& self.shift == 53 ==> self.significand < 0x20_0000_0000_0000
    }

    /// Whether the fraction is the double of that many units.
    pub open spec fn is_units(self, units: nat) -> bool {
        units * pow2(self.shift as nat) == self.significand * one()
    }

    /// The double nearest to `n / d`.
    pub fn new(n: u32, d: u32) -> (f: Fraction)
        requires
            0 < n,
            0 < d,
        ensures
            f.wf(),
            n < d ==> f.below_one(),
            f.is_units(double_units(n as nat, d as nat)),
    {
        let bound: u128 = 0x10_0000_0000_0000 * (d as u128);
        let mut x: u128 = 0x10_0000 * (n as u128);
        let mut shift: u32 = 20;
        proof {
            vstd::arithmetic::power2::lemma2_to64();
            assert(pow2(20) == 0x10_0000);
            assert(n * pow2(20) == x);
        }
        while x < bound
            invariant
                20 <= shift,
                0 < n,
                0 < d,
                bound == 0x10_0000_0000_0000 * (d as nat),
                x == n * pow2(shift as nat),
                x < 2 * bound,
                x >= pow2(shift as nat),
                shift <= 84,
            decreases 84 - shift,
        {
            proof {
                if shift >= 84 {
                    assert(pow2(84) == 0x1_0000_0000 * 0x10_0000_0000_0000) by {
                        lemma_pow2_adds(32, 52);
                        vstd::arithmetic::power2::lemma2_to64_rest();
                        vstd::arithmetic::power2::lemma2_to64();
                    }
                }
                lemma_pow2_unfold((shift + 1) as nat);
                let p = pow2(shift as nat);
                assert(n * (2 * p) == 2 * (n * p)) by (nonlinear_arith);
                lemma_pow2_pos(shift as nat);
            }
            x = 2 * x;
            shift = shift + 1;
        }
        let m: u128 = divide_half_even(x, d as u128);
        proof {
            lemma_double_scaled(n as nat, d as nat, shift as nat);
            lemma_round_half_even_bounds(x as int, d as int, 0x10_0000_0000_0000, 0x20_0000_0000_0000);
            if n < d && shift <= 53 {
                vstd::arithmetic::power2::lemma2_to64_rest();
                assert(pow2(53) == 0x20_0000_0000_0000);
                assert(pow2(52) == 0x10_0000_0000_0000);
                if shift < 53 {
                    if shift < 52 {
                        vstd::arithmetic::power2::lemma_pow2_strictly_increases(shift as nat, 52);
                    }
                    let p = pow2(shift as nat);
                    assert(n * p < 0x10_0000_0000_0000 * d) by (nonlinear_arith)
                        requires
                            n < d,
                            0 < p <= 0x10_0000_0000_0000,
                    ;
                }
                assert(x == n * 0x20_0000_0000_0000);
                lemma_round_half_even_bounds(
                    x as int,
                    d as int,
                    0x10_0000_0000_0000,
                    0x1f_ffff_ffff_ffff,
                );
            }
        }
        Fraction { significand: m as u64, shift }
    }

    /// The product of a double below one with a whole number, rounded to a double and then to an
    /// integer.
    pub fn scale(self, k: u32) -> (r: u64)
        requires
            self.wf(),
            self.below_one(),
        ensures
            forall|u: nat| #[trigger]
                self.is_units(u) ==> r == round_half_up(
                    double_units(k as nat * u, one()) as int,
                    one() as int,
                ),
            r <= k,
    {
        self.product(k) as u64
    }

    /// The product with a whole number, rounded to a double and then to an integer.
    pub fn product(self, k: u32) -> (r: u128)
        requires
            self.wf(),
        ensures
            forall|u: nat| #[trigger]
                self.is_units(u) ==> r == round_half_up(
                    double_units(k as nat * u, one()) as int,
                    one() as int,
                ),
            self.below_one() ==> r <= k,
    {
        let m: u128 = self.significand as u128;
        if k == 0 {
            proof {
                lemma_zero_product();
                assert forall|u: nat| #[trigger] self.is_units(u) implies 0 == round_half_up(
                    double_units(k as nat * u, one()) as int,
                    one() as int,
                ) by {
                    assert(0 * u == 0) by (nonlinear_arith);
                }
            }
            return 0;
        }
        assert(k * m <= 0xffff_ffff * 0x20_0000_0000_0000) by (nonlinear_arith)
            requires
                k <= 0xffff_ffff,
                m <= 0x20_0000_0000_0000,
        ;
        let p: u128 = (k as u128) * m;
        assert(0x10_0000_0000_0000 <= p <= k * 0x20_0000_0000_0000) by (nonlinear_arith)
            requires
                k >= 1,
                0x10_0000_0000_0000 <= m <= 0x20_0000_0000_0000,
                p == k * m,
        ;
        let mut power: u128 = 1;
        let ghost mut e: nat = 0;
        assert(pow2(0) == 1) by {
            vstd::arithmetic::power2::lemma2_to64();
        }
        while p >= 0x20_0000_0000_0000 * power
            invariant
                power == pow2(e),
                power > 0,
                p >= 0x10_0000_0000_0000 * power,
                p <= 0xffff_ffff * 0x20_0000_0000_0000,
            decreases p - 0x10_0000_0000_0000 * power,
        {
            proof {
                lemma_pow2_unfold(e + 1);
                e = e + 1;
            }
            power = 2 * power;
        }
        let rounded: u128 = divide_half_even(p, power);
        proof {
            lemma_round_half_even_bounds(p as int, power as int, 0x10_0000_0000_0000, 0x20_0000_0000_0000);
        }
        assert(rounded * power <= 0x20_0000_0000_0000 * power) by (nonlinear_arith)
            requires
                rounded <= 0x20_0000_0000_0000,
        ;
        let one_shifted: u128 = power_of_two(self.shift);
        let r: u128 = (2 * (rounded * power) + one_shifted) / (2 * one_shifted);
        proof {
            if self.below_one() {
                lemma_scaled_bound(k as nat, m as nat, self.shift as nat, e);
            }
            assert forall|u: nat| #[trigger] self.is_units(u) implies r == round_half_up(
                double_units(k as nat * u, one()) as int,
                one() as int,
            ) by {
                lemma_double_product(k as nat, m as nat, self.shift as nat, e, u);
            }
        }
        r
    }
}

/// Two to a small power.
fn power_of_two(e: u32) -> (p: u128)
    requires
        e <= 84,
    ensures
        p == pow2(e as nat),
        0 < p <= 0x10_0000_0000_0000_0000_0000,
{
    let mut p: u128 = 1;
    let mut i: u32 = 0;
    assert(pow2(0) == 1) by {
        vstd::arithmetic::power2::lemma2_to64();
    }
    assert(pow2(84) == 0x10_0000_0000_0000_0000_0000) by {
        lemma_pow2_adds(32, 52);
        vstd::arithmetic::power2::lemma2_to64_rest();
        vstd::arithmetic::power2::lemma2_to64();
    }
    while i < e
        invariant
            i <= e <= 84,
            p == pow2(i as nat),
            pow2(84) == 0x10_0000_0000_0000_0000_0000,
        decreases e - i,
    {
        proof {
            lemma_pow2_unfold((i + 1) as nat);
            if i + 1 < 84 {
                vstd::arithmetic::power2::lemma_pow2_strictly_increases((i + 1) as nat, 84);
            }
        }
        p = 2 * p;
        i = i + 1;
    }
    proof {
        lemma_pow2_pos(e as nat);
        if e < 84 {
            vstd::arithmetic::power2::lemma_pow2_strictly_increases(e as nat, 84);
        }
    }
    p
}

/// Nothing of any double is nothing.
proof fn lemma_zero_product()
    ensures
        round_half_up(double_units(0, one()) as int, one() as int) == 0,
{
    lemma_pow2_pos(unit_exp());
    lemma_double_zero(one());
    let d = one() as int;
    lemma_fundamental_div_mod_converse(d, 2 * d, 0, d);
}

/// A common factor does not change a rounded quotient.
pub proof fn lemma_round_half_up_cancel(a: int, b: int, c: int)
    requires
        b > 0,
        c > 0,
    ensures
        b * c > 0,
        round_half_up(a * c, b * c) == round_half_up(a, b),
{
    let q = (2 * a + b) / (2 * b);
    let r = (2 * a + b) % (2 * b);
    lemma_fundamental_div_mod(2 * a + b, 2 * b);
    assert(b * c > 0) by (nonlinear_arith)
        requires
            b > 0,
            c > 0,
    ;
    assert(2 * (a * c) + b * c == q * (2 * (b * c)) + r * c && 0 <= r * c < 2 * (b * c)) by (nonlinear_arith)
        requires
            2 * a + b == (2 * b) * q + r,
            0 <= r < 2 * b,
            c > 0,
    ;
    lemma_fundamental_div_mod_converse(2 * (a * c) + b * c, 2 * (b * c), q, r * c);
}

/// The product of a whole number and a double, in terms of the double's significand.
proof fn lemma_double_product(k: nat, m: nat, s: nat, e: nat, u: nat)
    requires
        s <= unit_exp(),
        u * pow2(s) == m * one(),
        0x10_0000_0000_0000 * pow2(e) <= k * m < 0x20_0000_0000_0000 * pow2(e),
    ensures
        round_half_up(double_units(k * u, one()) as int, one() as int) == round_half_up(
            round_half_even((k * m) as int, pow2(e) as int) * pow2(e),
            pow2(s) as int,
        ),
{
    let t = (unit_exp() - s) as nat;
    let ps = pow2(s);
    let pt = pow2(t);
    let pe = pow2(e);
    lemma_pow2_adds(s, t);
    lemma_pow2_adds(e, t);
    lemma_pow2_pos(s);
    lemma_pow2_pos(t);
    lemma_pow2_pos(e);
    assert(u == m * pt) by (nonlinear_arith)
        requires
            u * ps == m * (ps * pt),
            ps > 0,
    ;
    let c = k * u;
    let p = k * m;
    assert(c == p * pt) by (nonlinear_arith)
        requires
            c == k * (m * pt),
            p == k * m,
    ;
    assert(0x10_0000_0000_0000 * (pe * pt) <= c < 0x20_0000_0000_0000 * (pe * pt)) by (nonlinear_arith)
        requires
            c == p * pt,
            pt > 0,
            0x10_0000_0000_0000 * pe <= p < 0x20_0000_0000_0000 * pe,
    ;
    let d = one();
    lemma_pow2_pos(unit_exp());
    lemma_fundamental_div_mod_converse((c * d) as int, d as int, c as int, 0);
    lemma_excess_bits_unique(c, e + t);
    lemma_round_half_even_cancel(c as int, (pe * pt) as int, d as int);
    lemma_mul_is_commutative((pe * pt) as int, d as int);
    lemma_round_half_even_cancel(p as int, pe as int, pt as int);
    let r = round_half_even(p as int, pe as int);
    lemma_round_half_even_near(p as int, pe as int);
    assert(double_units(c, d) == r * (pe * pt));
    assert(r * (pe * pt) == (r * pe) * pt) by (nonlinear_arith);
    lemma_round_half_up_cancel(r * pe, ps as int, pt as int);
}

/// A double below one times a whole number does not round above that number.
proof fn lemma_scaled_bound(k: nat, m: nat, s: nat, e: nat)
    requires
        0 < k,
        53 <= s,
        m <= 0x20_0000_0000_0000,
        0x10_0000_0000_0000 * pow2(e) <= k * m < 0x20_0000_0000_0000 * pow2(e),
        k <= 0xffff_ffff,
    ensures
        round_half_up(round_half_even((k * m) as int, pow2(e) as int) * pow2(e), pow2(s) as int) <= k,
{
    let pe = pow2(e) as int;
    let ps = pow2(s) as int;
    let p = (k * m) as int;
    lemma_pow2_pos(e);
    lemma_pow2_pos(s);
    lemma_round_half_even_near(p, pe);
    let r = round_half_even(p, pe) * pe;
    assert(ps >= 0x20_0000_0000_0000) by {
        vstd::arithmetic::power2::lemma2_to64_rest();
        if s > 53 {
            vstd::arithmetic::power2::lemma_pow2_strictly_increases(53, s);
        }
    }
    assert(pow2(e) <= 0xffff_ffff * 2) by (nonlinear_arith)
        requires
            0x10_0000_0000_0000 * pow2(e) <= k * m,
            m <= 0x20_0000_0000_0000,
            k <= 0xffff_ffff,
    ;
    assert(p <= k * ps) by (nonlinear_arith)
        requires
            p == k * m,
            m <= 0x20_0000_0000_0000 <= ps,
    ;
    let q = (2 * r + ps) / (2 * ps);
    lemma_fundamental_div_mod(2 * r + ps, 2 * ps);
    assert(q <= k) by (nonlinear_arith)
        requires
            2 * r <= 2 * p + pe,
            p <= k * ps,
            pe <= 0xffff_ffff * 2,
            ps >= 0x20_0000_0000_0000,
            2 * r + ps == (2 * ps) * q + (2 * r + ps) % (2 * ps),
            (2 * r + ps) % (2 * ps) >= 0,
    ;
}

/// A size times the double nearest to the ratio of a lesser size to it rounds to the lesser one.
pub proof fn lemma_scale_exact(n: nat, d: nat)
    requires
        0 < n < d <= 0xffff_ffff,
    ensures
        scale_rounded(d, n, d) == n,
{
    assert(n * pow2(53) < 0x20_0000_0000_0000 * d) by {
        vstd::arithmetic::power2::lemma2_to64_rest();
        assert(pow2(53) == 0x20_0000_0000_0000);
    }
    let s = lemma_scaling_exists(n, d, 53);
    lemma_double_scaled(n, d, s);
    let m = double_significand(n, d);
    let u = double_units(n, d);
    let ps = pow2(s);
    lemma_round_half_even_bounds(
        (n * ps) as int,
        d as int,
        0x10_0000_0000_0000,
        0x20_0000_0000_0000,
    );
    lemma_round_half_even_near((n * ps) as int, d as int);
    let p = d * m;
    lemma_mul_is_commutative(d as int, m as int);
    assert(p >= 0x10_0000_0000_0000) by (nonlinear_arith)
        requires
            p == d * m,
            d >= 1,
            m >= 0x10_0000_0000_0000,
    ;
    let e = excess_bits(p);
    lemma_excess_bits(p);
    let pe = pow2(e);
    assert(pow2(0) == 1) by {
        vstd::arithmetic::power2::lemma2_to64();
    }
    lemma_pow2_pos(e);
    lemma_double_product(d, m, s, e, u);
    lemma_round_half_even_near(p as int, pe as int);
    let r = round_half_even(p as int, pe as int) * pe;
    assert(ps >= 0x20_0000_0000_0000) by {
        vstd::arithmetic::power2::lemma2_to64_rest();
        if s > 53 {
            vstd::arithmetic::power2::lemma_pow2_strictly_increases(53, s);
        }
    }
    assert(pe <= 2 * 0xffff_ffff) by (nonlinear_arith)
        requires
            0x10_0000_0000_0000 * pe <= p,
            p == d * m,
            m <= 0x20_0000_0000_0000,
            d <= 0xffff_ffff,
    ;
    lemma_mul_is_commutative(n as int, ps as int);
    assert(2 * (n * ps) - d <= 2 * p <= 2 * (n * ps) + d);
    assert(n * (2 * ps) == 2 * (n * ps)) by (nonlinear_arith);
    lemma_fundamental_div_mod_converse(
        2 * r + ps,
        (2 * ps) as int,
        n as int,
        2 * r + ps - 2 * (n * ps),
    );
}

/// A number times the double nearest to a ratio below one is that part of the number, to within
/// one.
pub proof fn lemma_scale_near(k: nat, n: nat, d: nat)
    requires
        0 < n < d <= 0xffff_ffff,
        k <= 0xffff_ffff,
    ensures
        -d <= scale_rounded(k, n, d) * d - k * n <= d,
        0 <= round_half_up(double_units(k * double_units(n, d), one()) as int, one() as int),
{
    if k == 0 {
        lemma_zero_product();
        assert(0 * double_units(n, d) == 0) by (nonlinear_arith);
        assert(0 * d == 0 && 0 * n == 0) by (nonlinear_arith);
    } else {
        lemma_scale_near_positive(k, n, d);
    }
}

proof fn lemma_scale_near_positive(k: nat, n: nat, d: nat)
    requires
        0 < n < d <= 0xffff_ffff,
        0 < k <= 0xffff_ffff,
    ensures
        -d <= scale_rounded(k, n, d) * d - k * n <= d,
        0 <= round_half_up(double_units(k * double_units(n, d), one()) as int, one() as int),
{
    assert(n * pow2(53) < 0x20_0000_0000_0000 * d) by {
        vstd::arithmetic::power2::lemma2_to64_rest();
        assert(pow2(53) == 0x20_0000_0000_0000);
    }
    let s = lemma_scaling_exists(n, d, 53);
    lemma_double_scaled(n, d, s);
    let m = double_significand(n, d);
    let u = double_units(n, d);
    let ps = pow2(s);
    lemma_round_half_even_bounds(
        (n * ps) as int,
        d as int,
        0x10_0000_0000_0000,
        0x20_0000_0000_0000,
    );
    lemma_round_half_even_near((n * ps) as int, d as int);
    let p = k * m;
    assert(p >= 0x10_0000_0000_0000) by (nonlinear_arith)
        requires
            p == k * m,
            k >= 1,
            m >= 0x10_0000_0000_0000,
    ;
    let e = excess_bits(p);
    lemma_excess_bits(p);
    let pe = pow2(e);
    assert(pow2(0) == 1) by {
        vstd::arithmetic::power2::lemma2_to64();
    }
    lemma_pow2_pos(e);
    lemma_double_product(k, m, s, e, u);
    lemma_round_half_even_near(p as int, pe as int);
    let r = round_half_even(p as int, pe as int) * pe;
    assert(ps >= 0x20_0000_0000_0000) by {
        vstd::arithmetic::power2::lemma2_to64_rest();
        if s > 53 {
            vstd::arithmetic::power2::lemma_pow2_strictly_increases(53, s);
        }
    }
    assert(pe <= 2 * 0xffff_ffff) by (nonlinear_arith)
        requires
            0x10_0000_0000_0000 * pe <= p,
            p == k * m,
            m <= 0x20_0000_0000_0000,
            k <= 0xffff_ffff,
    ;
    let q = (2 * r + ps) / (2 * ps as int);
    lemma_fundamental_div_mod(2 * r + ps, 2 * ps as int);
    let x = (2 * r + ps) % (2 * ps as int);
    assert(r >= 0) by (nonlinear_arith)
        requires
            r == round_half_even(p as int, pe as int) * pe,
            round_half_even(p as int, pe as int) >= 0,
    ;
    assert(q >= 0) by (nonlinear_arith)
        requires
            r >= 0,
            ps > 0,
            2 * r + ps == (2 * ps) * q + x,
            0 <= x < 2 * ps,
    ;
    // The result is near to the product, the product to the exact one.
    let qp = q * ps;
    assert(2 * r - ps <= 2 * qp <= 2 * r + ps) by (nonlinear_arith)
        requires
            qp == q * ps,
            2 * r + ps == (2 * ps) * q + x,
            0 <= x < 2 * ps,
    ;
    let np = n * ps;
    let md = m * d;
    assert(2 * np - d <= 2 * md <= 2 * np + d);
    let kn = k * np;
    let pd = p * d;
    assert(2 * kn - k * d <= 2 * pd <= 2 * kn + k * d) by (nonlinear_arith)
        requires
            2 * np - d <= 2 * md <= 2 * np + d,
            kn == k * np,
            pd == (k * m) * d,
            md == m * d,
    ;
    let qd = qp * d;
    assert(2 * pd - (pe + ps) * d <= 2 * qd <= 2 * pd + (pe + ps) * d) by (nonlinear_arith)
        requires
            2 * r - ps <= 2 * qp <= 2 * r + ps,
            2 * p - pe <= 2 * r <= 2 * p + pe,
            qd == qp * d,
            pd == p * d,
            d > 0,
    ;
    assert(pe + ps + k <= 2 * ps);
    assert((pe + ps) * d + k * d <= (2 * ps) * d) by (nonlinear_arith)
        requires
            pe + ps + k <= 2 * ps,
            d > 0,
    ;
    assert(-(ps * d) <= qd - kn <= ps * d) by (nonlinear_arith)
        requires
            2 * pd - (pe + ps) * d <= 2 * qd <= 2 * pd + (pe + ps) * d,
            2 * kn - k * d <= 2 * pd <= 2 * kn + k * d,
            (pe + ps) * d + k * d <= (2 * ps) * d,
    ;
    assert(-d <= q * d - k * n <= d) by (nonlinear_arith)
        requires
            -(ps * d) <= qd - kn <= ps * d,
            qd == (q * ps) * d,
            kn == k * (n * ps),
            ps > 0,
    ;
}

/// A power of two scales a quotient below one to 53 bits.
proof fn lemma_scaling_exists(n: nat, d: nat, s: nat) -> (r: nat)
    requires
        0 < n < d <= 0xffff_ffff,
        s <= 84,
        n * pow2(s) < 0x20_0000_0000_0000 * d,
    ensures
        s <= r <= 84,
        0x10_0000_0000_0000 * d <= n * pow2(r) < 0x20_0000_0000_0000 * d,
    decreases 84 - s,
{
    if 0x10_0000_0000_0000 * d <= n * pow2(s) {
        s
    } else {
        let p = pow2(s);
        assert(p <= n * p) by (nonlinear_arith)
            requires
                n > 0,
        ;
        assert(pow2(84) == 0x1_0000_0000 * 0x10_0000_0000_0000) by {
            lemma_pow2_adds(32, 52);
            vstd::arithmetic::power2::lemma2_to64_rest();
            vstd::arithmetic::power2::lemma2_to64();
        }
        lemma_pow2_unfold(s + 1);
        assert(n * (2 * p) == 2 * (n * p)) by (nonlinear_arith);
        lemma_scaling_exists(n, d, s + 1)
    }
}

/// A quotient of small numbers that is below one is a double below one.
pub proof fn lemma_below_one(n: nat, d: nat)
    requires
        0 < n < d <= 0xffff_ffff,
    ensures
        0 < double_units(n, d) < one(),
{
    assert(n * pow2(53) < 0x20_0000_0000_0000 * d) by {
        vstd::arithmetic::power2::lemma2_to64_rest();
        assert(pow2(53) == 0x20_0000_0000_0000);
    }
    let s = lemma_scaling_exists(n, d, 53);
    lemma_double_scaled(n, d, s);
    let m = double_significand(n, d);
    let u = double_units(n, d);
    let p = pow2(s);
    let o = one();
    lemma_pow2_pos(unit_exp());
    lemma_pow2_pos(s);
    vstd::arithmetic::power2::lemma2_to64_rest();
    assert(pow2(53) == 0x20_0000_0000_0000);
    if s > 53 {
        vstd::arithmetic::power2::lemma_pow2_strictly_increases(53, s);
        lemma_round_half_even_bounds((n * p) as int, d as int, 1, 0x20_0000_0000_0000);
    } else {
        lemma_round_half_even_bounds((n * p) as int, d as int, 1, 0x1f_ffff_ffff_ffff);
    }
    assert(0 < u < o) by (nonlinear_arith)
        requires
            u * p == m * o,
            0 < m < p,
            o > 0,
            p > 0,
    ;
}

/// Nothing of a size is nothing.
pub proof fn lemma_scale_by_zero(k: nat, d: nat)
    requires
        d > 0,
    ensures
        scale_rounded(k, 0, d) == 0,
{
    lemma_double_zero(d);
    assert(k * 0 == 0) by (nonlinear_arith);
    lemma_zero_product();
}

/// Numbers are rounded to the nearest whole one. In the middle between two, one way of rounding
/// goes to the even one and the other to the greater one.
pub proof fn law_rounding(q: int, r: int, d: int)
    requires
        q >= 0,
        0 <= r < d,
    ensures
        2 * r < d ==> round_half_even(q * d + r, d) == q && round_half_up(q * d + r, d) == q,
        2 * r > d ==> round_half_even(q * d + r, d) == q + 1 && round_half_up(q * d + r, d) == q
            + 1,
        2 * r == d ==> round_half_up(q * d + r, d) == q + 1 && round_half_even(q * d + r, d) % 2
            == 0 && q <= round_half_even(q * d + r, d) <= q + 1,
{
    lemma_fundamental_div_mod_converse(q * d + r, d, q, r);
    let n = 2 * (q * d + r) + d;
    if 2 * r < d {
        assert(n == q * (2 * d) + (2 * r + d)) by (nonlinear_arith)
            requires
                n == 2 * (q * d + r) + d,
        ;
        lemma_fundamental_div_mod_converse(n, 2 * d, q, 2 * r + d);
    } else {
        assert(n == (q + 1) * (2 * d) + (2 * r - d)) by (nonlinear_arith)
            requires
                n == 2 * (q * d + r) + d,
        ;
        lemma_fundamental_div_mod_converse(n, 2 * d, q + 1, 2 * r - d);
    }
}

} // verus!
