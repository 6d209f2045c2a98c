//! Decimal numbers as double precision floating point numbers.
use vstd::arithmetic::div_mod::{lemma_fundamental_div_mod, lemma_fundamental_div_mod_converse};
use vstd::arithmetic::power2::{lemma_pow2_adds, lemma_pow2_pos, lemma_pow2_unfold, pow2};
use vstd::prelude::*;

use crate::bignum::Natural;
use crate::com::res::lemma_position_skips;
use crate::double::{
    divide_half_even, double_bits, double_exp, double_significand, double_units, law_bits_order,
    lemma_double_scaled, lemma_double_units_monotone, lemma_double_zero, lemma_excess_bits_unique,
    lemma_round_half_even_bounds, lemma_significand_bounds, one,
};
use crate::number::{digit_value, is_digit};
use crate::text::lemma_position;

verus! {

/// The value of digits, whatever other characters there are among them being skipped.
pub open spec fn digits_value(s: Seq<char>) -> nat
    decreases s.len(),
{
    if s.len() == 0 {
        0
    } else if is_digit(s.last()) {
        digits_value(s.drop_last()) * 10 + digit_value(s.last())
    } else {
        digits_value(s.drop_last())
    }
}

/// How many digits there are.
pub open spec fn digit_count(s: Seq<char>) -> nat
    decreases s.len(),
{
    if s.len() == 0 {
        0
    } else {
        digit_count(s.drop_last()) + if is_digit(s.last()) {
            1nat
        } else {
            0
        }
    }
}

/// Ten to the power of some exponent.
pub open spec fn ten_to(k: nat) -> nat
    decreases k,
{
    if k == 0 {
        1
    } else {
        10 * ten_to((k - 1) as nat)
    }
}

/// The bits of infinity.
pub open spec fn infinity_bits() -> nat {
    0x7ff0_0000_0000_0000
}

/// The bits of the double nearest to `n / d`, or of infinity where that is too large.
pub open spec fn nearest_bits(n: nat, d: nat) -> nat {
    if double_bits(n, d) < infinity_bits() {
        double_bits(n, d)
    } else {
        infinity_bits()
    }
}

proof fn lemma_ten_to_positive(k: nat)
    ensures
        ten_to(k) > 0,
    decreases k,
{
    if k > 0 {
        lemma_ten_to_positive((k - 1) as nat);
    }
}

/// The place of the leading bits of a scaled quotient.
proof fn lemma_exp_of_scaled(n: nat, d: nat, e: nat)
    requires
        d > 0,
        n * one() < 0x20_0000_0000_0000 * (d * pow2(e)),
        e > 0 ==> n * one() >= 0x10_0000_0000_0000 * (d * pow2(e)),
    ensures
        double_exp(n, d) == e,
{
    let x = n * one();
    let p = pow2(e);
    let y = x / d;
    lemma_pow2_pos(e);
    lemma_fundamental_div_mod(x as int, d as int);
    assert(y < 0x20_0000_0000_0000 * p) by (nonlinear_arith)
        requires
            x < 0x20_0000_0000_0000 * (d * p),
            x == d * y + x % d,
            x % d >= 0,
            d > 0,
    ;
    if e > 0 {
        assert(y >= 0x10_0000_0000_0000 * p) by (nonlinear_arith)
            requires
                x >= 0x10_0000_0000_0000 * (d * p),
                x == d * y + x % d,
                x % d < d,
                d > 0,
        ;
    }
    lemma_excess_bits_unique(y, e);
}

/// The bits of the double nearest to `n / d`, or of infinity where that is too large.
fn nearest_bits_of(n: &Natural, d: &Natural) -> (bits: u64)
    requires
        d@ > 0,
    ensures
        bits == nearest_bits(n@, d@),
{
    // The numerator in units.
    let mut rest = n.copy();
    let mut i: u32 = 0;
    let ghost nn = n@;
    let ghost dd = d@;
    proof {
        vstd::arithmetic::power2::lemma2_to64();
        assert(nn * 1 == nn);
        assert(dd * 1 == dd);
    }
    while i < 1074
        invariant
            i <= 1074,
            rest@ == nn * pow2(i as nat),
        decreases 1074 - i,
    {
        rest.multiply_add(2, 0);
        i = i + 1;
        proof {
            lemma_pow2_unfold(i as nat);
            let p = pow2((i - 1) as nat);
            assert((nn * p) * 2 == nn * (2 * p)) by (nonlinear_arith);
        }
    }
    let ghost x = rest@;
    // The denominator, scaled until the quotient is below one.
    let mut scaled = d.copy();
    i = 0;
    while i < 53
        invariant
            i <= 53,
            scaled@ == dd * pow2(i as nat),
        decreases 53 - i,
    {
        scaled.multiply_add(2, 0);
        i = i + 1;
        proof {
            lemma_pow2_unfold(i as nat);
            let p = pow2((i - 1) as nat);
            assert((dd * p) * 2 == dd * (2 * p)) by (nonlinear_arith);
        }
    }
    let mut exp: u64 = 0;
    proof {
        vstd::arithmetic::power2::lemma2_to64_rest();
        assert(pow2(53) == 0x20_0000_0000_0000);
        vstd::arithmetic::power2::lemma2_to64();
        assert(dd * pow2(53) == 0x20_0000_0000_0000 * dd) by (nonlinear_arith)
            requires
                pow2(53) == 0x20_0000_0000_0000,
        ;
        assert(dd * pow2(0) == dd) by (nonlinear_arith)
            requires
                pow2(0) == 1,
        ;
    }
    while exp < 2046 && !rest.less(&scaled)
        invariant
            exp <= 2046,
            x == rest@,
            x == nn * one(),
            dd > 0,
            scaled@ == 0x20_0000_0000_0000 * (dd * pow2(exp as nat)),
            exp > 0 ==> x >= 0x10_0000_0000_0000 * (dd * pow2(exp as nat)),
        ensures
            exp <= 2046,
            exp == 2046 || x < scaled@,
        decreases 2046 - exp,
    {
        scaled.multiply_add(2, 0);
        proof {
            lemma_pow2_unfold((exp + 1) as nat);
            let p = pow2(exp as nat);
            assert(dd * (2 * p) == 2 * (dd * p)) by (nonlinear_arith);
        }
        exp = exp + 1;
    }
    if exp == 2046 {
        proof {
            lemma_too_large(nn, dd);
        }
        return 0x7ff0_0000_0000_0000;
    }
    proof {
        lemma_exp_of_scaled(nn, dd, exp as nat);
    }
    let ghost unit = dd * pow2(exp as nat);
    proof {
        let p = pow2(exp as nat);
        lemma_pow2_pos(exp as nat);
        assert(dd * p > 0) by (nonlinear_arith)
            requires
                dd > 0,
                p > 0,
        ;
    }
    // Long division: one bit of the quotient at a time.
    let mut quotient: u64 = 0;
    i = 53;
    while i > 0
        invariant
            i <= 53,
            unit > 0,
            scaled@ == pow2(i as nat) * unit,
            rest@ < scaled@,
            x == quotient * scaled@ + rest@,
            x < 0x20_0000_0000_0000 * unit,
            (quotient + 1) * pow2(i as nat) <= 0x20_0000_0000_0000,
        decreases i,
    {
        let ghost before = scaled@;
        let ghost q = quotient as nat;
        let ghost r = rest@;
        proof {
            lemma_pow2_unfold(i as nat);
            let p = pow2((i - 1) as nat);
            assert((2 * p) * unit == 2 * (p * unit)) by (nonlinear_arith);
            lemma_pow2_pos((i - 1) as nat);
            assert((q + 1) * (2 * p) == (2 * q + 2) * p) by (nonlinear_arith);
            assert(2 * q + 2 <= 0x20_0000_0000_0000) by (nonlinear_arith)
                requires
                    (2 * q + 2) * p <= 0x20_0000_0000_0000,
                    p >= 1,
            ;
            assert((2 * q + 1) * p <= (2 * q + 2) * p) by (nonlinear_arith);
        }
        scaled.halve();
        i = i - 1;
        quotient = 2 * quotient;
        proof {
            let s = scaled@;
            assert(q * (2 * s) == (2 * q) * s) by (nonlinear_arith);
        }
        if !rest.less(&scaled) {
            rest.subtract(&scaled);
            quotient = quotient + 1;
            proof {
                let s = scaled@;
                assert((2 * q + 1) * s == (2 * q) * s + s) by (nonlinear_arith);
            }
        }
    }
    proof {
        vstd::arithmetic::power2::lemma2_to64();
        assert(pow2(0) * unit == unit) by (nonlinear_arith)
            requires
                pow2(0) == 1,
        ;
        lemma_fundamental_div_mod_converse(x as int, unit as int, quotient as int, rest@ as int);
        lemma_significand_bounds(nn, dd);
    }
    let ghost rem = rest@;
    rest.multiply_add(2, 0);
    // `scaled` is the unit again: round to the nearest, ties to the even quotient.
    let up: bool = if rest.less(&scaled) {
        false
    } else if scaled.less(&rest) {
        true
    } else {
        quotient % 2 == 1
    };
    let m: u64 = if up {
        quotient + 1
    } else {
        quotient
    };
    assert(m == double_significand(nn, dd));
    exp * 0x10_0000_0000_0000 + m
}

/// The bits of the double nearest to a quotient of numbers that fit in its significand.
fn small_bits(n: u64, d: u64) -> (bits: u64)
    requires
        n < 0x20_0000_0000_0000,
        0 < d < 0x20_0000_0000_0000,
    ensures
        bits == nearest_bits(n as nat, d as nat),
{
    if n == 0 {
        proof {
            lemma_double_zero(d as nat);
            assert(pow2(0) == 1) by {
                vstd::arithmetic::power2::lemma2_to64();
            }
            assert(0nat * one() == 0) by (nonlinear_arith);
            lemma_fundamental_div_mod_converse(0, d as int, 0, 0);
            assert(d * 1 == d) by (nonlinear_arith);
        }
        return 0;
    }
    let bound: u128 = 0x10_0000_0000_0000 * (d as u128);
    let mut x: u128 = n as u128;
    let mut shift: u64 = 0;
    proof {
        vstd::arithmetic::power2::lemma2_to64();
        assert(n * pow2(0) == n) by (nonlinear_arith)
            requires
                pow2(0) == 1,
        ;
        assert(pow2(106) == 0x10_0000_0000_0000 * 0x40_0000_0000_0000) by {
            lemma_pow2_adds(52, 54);
            vstd::arithmetic::power2::lemma2_to64_rest();
        }
    }
    while x < bound
        invariant
            0 < n,
            bound == 0x10_0000_0000_0000 * (d as nat),
            d < 0x20_0000_0000_0000,
            x == n * pow2(shift as nat),
            x < 2 * bound,
            x >= pow2(shift as nat),
            shift <= 106,
            pow2(106) == 0x10_0000_0000_0000 * 0x40_0000_0000_0000,
        decreases 106 - shift,
    {
        proof {
            lemma_pow2_unfold((shift + 1) as nat);
            let p = pow2(shift as nat);
            assert(n * (2 * p) == 2 * (n * p)) by (nonlinear_arith);
            lemma_pow2_pos(shift as nat);
        }
        x = 2 * x;
        shift = shift + 1;
    }
    let m: u128 = divide_half_even(x, d as u128);
    proof {
        lemma_double_scaled(n as nat, d as nat, shift as nat);
        lemma_round_half_even_bounds(x as int, d as int, 0x10_0000_0000_0000, 0x20_0000_0000_0000);
    }
    (1074 - shift) * 0x10_0000_0000_0000 + (m as u64)
}

/// The value of few digits.
fn small_digits(v: &[char]) -> (n: u64)
    requires
        v.len() <= 15,
    ensures
        n == digits_value(v@),
        n < 1_000_000_000_000_000,
{
    let mut n: u64 = 0;
    let mut bound: u64 = 1;
    let mut i: usize = 0;
    assert(v@.take(0) =~= Seq::<char>::empty());
    proof {
        reveal_with_fuel(ten_to, 16);
    }
    while i < v.len()
        invariant
            i <= v.len() <= 15,
            n == digits_value(v@.take(i as int)),
            n < bound,
            bound == ten_to(i as nat),
            ten_to(15) == 1_000_000_000_000_000,
        decreases v.len() - i,
    {
        proof {
            lemma_ten_to_monotone((i + 1) as nat, 15);
        }
        let c = v[i];
        assert(v@.take(i + 1).drop_last() =~= v@.take(i as int));
        if '0' <= c && c <= '9' {
            n = n * 10 + ((c as u32) - 48) as u64;
        }
        bound = bound * 10;
        i = i + 1;
    }
    assert(v@.take(i as int) =~= v@);
    proof {
        lemma_ten_to_monotone(i as nat, 15);
    }
    n
}

/// Ten to a small power.
fn small_ten_to(k: usize) -> (n: u64)
    requires
        k <= 15,
    ensures
        n == ten_to(k as nat),
        0 < n <= 1_000_000_000_000_000,
{
    let mut n: u64 = 1;
    let mut i: usize = 0;
    proof {
        reveal_with_fuel(ten_to, 16);
    }
    while i < k
        invariant
            i <= k <= 15,
            n == ten_to(i as nat),
            ten_to(15) == 1_000_000_000_000_000,
        decreases k - i,
    {
        proof {
            lemma_ten_to_monotone((i + 1) as nat, 15);
        }
        n = n * 10;
        i = i + 1;
    }
    proof {
        lemma_ten_to_monotone(k as nat, 15);
        lemma_ten_to_positive(k as nat);
    }
    n
}

proof fn lemma_ten_to_monotone(a: nat, b: nat)
    requires
        a <= b,
    ensures
        ten_to(a) <= ten_to(b),
    decreases b,
{
    lemma_ten_to_positive(b);
    if a < b {
        lemma_ten_to_monotone(a, (b - 1) as nat);
    }
}

/// The greatest exponent leaves no finite double.
proof fn lemma_too_large(n: nat, d: nat)
    requires
        d > 0,
        n * one() >= 0x10_0000_0000_0000 * (d * pow2(2046)),
    ensures
        double_bits(n, d) >= infinity_bits(),
{
    let e = double_exp(n, d);
    lemma_significand_bounds(n, d);
    if e < 2046 {
        let x = n * one();
        let y = x / d;
        lemma_fundamental_div_mod(x as int, d as int);
        crate::double::lemma_excess_bits(y);
        lemma_pow2_unfold(2046);
        if e < 2045 {
            vstd::arithmetic::power2::lemma_pow2_strictly_increases(e, 2045);
        }
        let p = pow2(2045);
        assert(false) by (nonlinear_arith)
            requires
                d > 0,
                x == d * y + x % d,
                0 <= x % d < d,
                x >= 0x10_0000_0000_0000 * (d * (2 * p)),
                y < 0x20_0000_0000_0000 * p,
        ;
    }
}

/// A number that is written in decimal: its digits without the decimal point, and how many of
/// them stand behind it.
pub struct Decimal {
    pub digits: nat,
    pub fraction: nat,
}

/// The decimal number that a text of digits with at most one decimal point stands for. There is a
/// digit before or behind the point.
pub open spec fn parse_decimal(s: Seq<char>) -> Option<Decimal> {
    let point = crate::text::position(s, '.') as int;
    let whole = s.take(point);
    let rest = s.skip(point + 1);
    if digit_count(whole) != point {
        None
    } else if point >= s.len() {
        if point == 0 {
            None
        } else {
            Some(Decimal { digits: digits_value(s), fraction: 0 })
        }
    } else if digit_count(rest) != rest.len() || digit_count(s) == 0 {
        None
    } else {
        Some(Decimal { digits: digits_value(s), fraction: rest.len() })
    }
}

/// The bits of the double that a decimal number is read as.
pub open spec fn decimal_bits(s: Seq<char>) -> Option<nat> {
    match parse_decimal(s) {
        Some(d) => Some(nearest_bits(d.digits, ten_to(d.fraction))),
        None => None,
    }
}

impl Decimal {
    /// Whether a number is no greater than another.
    pub open spec fn at_most(self, other: Decimal) -> bool {
        self.digits * ten_to(other.fraction) <= other.digits * ten_to(self.fraction)
    }

    /// The double nearest to the number, in units.
    pub open spec fn units(self) -> nat {
        double_units(self.digits, ten_to(self.fraction))
    }
}

/// Numbers are read in their order: the bits of one that is no greater are no greater. Numbers
/// whose doubles differ and are finite are told apart by their bits.
pub proof fn law_decimal_order(s: Seq<char>, t: Seq<char>)
    requires
        parse_decimal(s) is Some,
        parse_decimal(t) is Some,
    ensures
        parse_decimal(s)->0.at_most(parse_decimal(t)->0) ==> decimal_bits(s)->0 <= decimal_bits(
            t,
        )->0,
        parse_decimal(s)->0.units() < parse_decimal(t)->0.units() && decimal_bits(s)->0
            < infinity_bits() ==> decimal_bits(s)->0 < decimal_bits(t)->0,
{
    let a = parse_decimal(s)->0;
    let b = parse_decimal(t)->0;
    let p = ten_to(a.fraction);
    let q = ten_to(b.fraction);
    lemma_ten_to_positive(a.fraction);
    lemma_ten_to_positive(b.fraction);
    law_bits_order(a.digits, p, b.digits, q);
    if a.at_most(b) {
        lemma_double_units_monotone(a.digits, p, b.digits, q);
    }
}

/// Only nought is read as no bits.
pub proof fn lemma_units_positive(s: Seq<char>)
    requires
        parse_decimal(s) matches Some(d) && d.units() > 0,
    ensures
        decimal_bits(s)->0 > 0,
{
    let d = parse_decimal(s)->0;
    let p = ten_to(d.fraction);
    let m = double_significand(d.digits, p);
    let e = pow2(double_exp(d.digits, p));
    assert(m > 0) by (nonlinear_arith)
        requires
            m * e > 0,
    ;
}

/// Reads a text of digits with at most one decimal point as a double.
pub fn parse_double(v: &[char]) -> (r: Option<u64>)
    ensures
        match decimal_bits(v@) {
            Some(b) => r matches Some(x) && x == b,
            None => r is None,
        },
{
    let point: usize = crate::text::position_of(v, '.');
    let mut n = Natural::zero();
    let mut d = Natural::zero();
    d.multiply_add(1, 1);
    let mut count: usize = 0;
    let mut i: usize = 0;
    assert(v@.take(0) =~= Seq::<char>::empty());
    while i < v.len()
        invariant
            i <= v.len(),
            point <= v.len(),
            point == crate::text::position(v@, '.'),
            point < v.len() ==> v@[point as int] == '.',
            count <= i,
            count == digit_count(v@.take(i as int)),
            i <= point ==> count == i,
            i > point ==> count == i - 1,
            i > point ==> digit_count(v@.take(point as int)) == point,
            i > point ==> digit_count(v@.subrange(point + 1, i as int)) == i - point - 1,
            n@ == digits_value(v@.take(i as int)),
            d@ == ten_to(
                if i > point {
                    (i - point - 1) as nat
                } else {
                    0
                },
            ),
        decreases v.len() - i,
    {
        let c = v[i];
        assert(v@.take(i + 1).drop_last() =~= v@.take(i as int));
        assert(v@.take(i + 1).last() == c);
        if '0' <= c && c <= '9' {
            let digit: u32 = (c as u32) - 48;
            n.multiply_add(10, digit);
            count = count + 1;
            if i > point {
                d.multiply_add(10, 0);
                assert(v@.subrange(point + 1, i + 1).drop_last() =~= v@.subrange(point + 1, i as int));
            }
        } else if i != point {
            proof {
                if i < point {
                    lemma_count_stops(v@.take(point as int), i as int);
                } else {
                    lemma_count_stops(v@.skip(point + 1), i - point - 1);
                }
            }
            return None;
        } else {
            assert(v@.subrange(point + 1, point + 1) =~= Seq::<char>::empty());
        }
        i = i + 1;
    }
    proof {
        assert(v@.take(i as int) =~= v@);
        if point < v.len() {
            assert(v@.subrange(point + 1, v@.len() as int) =~= v@.skip(point + 1));
        } else {
            assert(v@.take(point as int) =~= v@);
        }
    }
    if count == 0 {
        return None;
    }
    proof {
        lemma_ten_to_positive(
            if point < v.len() {
                (v.len() - point - 1) as nat
            } else {
                0
            },
        );
    }
    if v.len() <= 15 {
        let fraction: usize = if point < v.len() {
            v.len() - point - 1
        } else {
            0
        };
        return Some(small_bits(small_digits(v), small_ten_to(fraction)));
    }
    Some(nearest_bits_of(&n, &d))
}

/// Where there is a character that is no digit, there are fewer digits than characters.
proof fn lemma_count_stops(s: Seq<char>, i: int)
    requires
        0 <= i < s.len(),
        !is_digit(s[i]),
    ensures
        digit_count(s) < s.len(),
    decreases s.len(),
{
    lemma_count_bound(s.drop_last());
    if i < s.len() - 1 {
        lemma_count_stops(s.drop_last(), i);
    }
}

proof fn lemma_count_bound(s: Seq<char>)
    ensures
        digit_count(s) <= s.len(),
    decreases s.len(),
{
    if s.len() > 0 {
        lemma_count_bound(s.drop_last());
    }
}

/// Whether a text is nothing but digits.
pub open spec fn all_digits(s: Seq<char>) -> bool {
    forall|i: int| 0 <= i < s.len() ==> is_digit(#[trigger] s[i])
}

proof fn lemma_count_all(s: Seq<char>)
    requires
        all_digits(s),
    ensures
        digit_count(s) == s.len(),
    decreases s.len(),
{
    if s.len() > 0 {
        let l = s.len() - 1;
        assert(is_digit(s[l]));
        lemma_count_all(s.drop_last());
    }
}

proof fn lemma_point_is_skipped(a: Seq<char>, b: Seq<char>)
    requires
        all_digits(b),
    ensures
        digits_value(a + seq!['.'] + b) == digits_value(a + b),
        digits_value(a + b) == digits_value(a) * ten_to(b.len()) + digits_value(b),
        digit_count(a + seq!['.'] + b) == digit_count(a) + b.len(),
    decreases b.len(),
{
    let s = a + seq!['.'] + b;
    let t = a + b;
    if b.len() == 0 {
        assert(t =~= a);
        assert(s.drop_last() =~= a);
        assert(s.last() == '.');
        assert(digits_value(b) == 0);
        assert(digits_value(a) * 1 == digits_value(a));
    } else {
        let l = b.len() - 1;
        assert(is_digit(b[l]));
        assert(s.drop_last() =~= a + seq!['.'] + b.drop_last());
        assert(t.drop_last() =~= a + b.drop_last());
        assert(s.last() == b.last() && t.last() == b.last());
        lemma_point_is_skipped(a, b.drop_last());
        let k = ten_to(b.drop_last().len());
        let v = digits_value(a);
        assert((v * k) * 10 == v * (10 * k)) by (nonlinear_arith);
    }
}

/// A text of digits is a whole number, and digits behind a point are so many tenths of it. The
/// digits are worth what they are in a whole number.
pub proof fn law_numbers_with_a_point(a: Seq<char>, b: Seq<char>)
    requires
        all_digits(a),
        all_digits(b),
        a.len() > 0,
    ensures
        parse_decimal(a) == Some(Decimal { digits: digits_value(a), fraction: 0 }),
        parse_decimal(a + seq!['.'] + b) == Some(
            Decimal {
                digits: digits_value(a) * ten_to(b.len()) + digits_value(b),
                fraction: b.len(),
            },
        ),
{
    let s = a + seq!['.'] + b;
    assert forall|i: int| 0 <= i < a.len() implies #[trigger] a[i] != '.' by {
        assert(is_digit(a[i]));
    }
    lemma_position(a, '.');
    if a.contains('.') {
        let i = a.index_of('.');
        assert(a[i] != '.');
    }
    assert(a.take(a.len() as int) =~= a);
    lemma_count_all(a);
    lemma_count_all(b);
    let rest = seq!['.'] + b;
    assert(s =~= a + rest);
    lemma_position_skips(a, rest, '.');
    assert(rest[0] == '.');
    assert(s.take(a.len() as int) =~= a);
    assert(s.skip(a.len() as int + 1) =~= b);
    lemma_point_is_skipped(a, b);
}

/// Digits are worth ten times as much with another one behind them, and each digit what it says.
pub proof fn law_value_of_digits(a: Seq<char>, c: char)
    requires
        '0' <= c <= '9',
    ensures
        digits_value(a.push(c)) == 10 * digits_value(a) + (c as int - '0' as int),
        digits_value(seq![]) == 0,
        ten_to(0) == 1,
        ten_to(a.len() + 1) == 10 * ten_to(a.len()),
{
    assert(a.push(c).drop_last() =~= a);
}

/// A text with a second point or any other character that is no digit is no number.
pub proof fn law_texts_that_are_no_numbers(a: Seq<char>, c: char, b: Seq<char>)
    requires
        !('0' <= c <= '9'),
        c != '.',
    ensures
        parse_decimal(a + seq![c] + b) is None,
        parse_decimal(seq![]) is None,
        parse_decimal(seq!['.']) is None,
{
    let s = a + seq![c] + b;
    let at = a.len() as int;
    let point = crate::text::position(s, '.') as int;
    lemma_position(s, '.');
    assert(s[at] == c);
    if at < point {
        assert(s.take(point)[at] == c);
        lemma_count_stops(s.take(point), at);
    } else {
        assert(at != point || point >= s.len());
        let rest = s.skip(point + 1);
        assert(rest[at - point - 1] == c);
        lemma_count_stops(rest, at - point - 1);
    }
    let p = seq!['.'];
    assert(crate::text::position(p, '.') == 0);
    assert(p.skip(1) =~= seq![]);
    assert(p.drop_last() =~= seq![]);
    assert(digit_count(p) == 0);
}

} // verus!
