//! Natural numbers of any size.
use vstd::prelude::*;

verus! {

/// The value of the 32 bit digits from a place on, the least significant one first.
pub open spec fn value_from(s: Seq<u32>, i: int) -> nat
    decreases s.len() - i,
{
    if i < 0 || i >= s.len() {
        0
    } else {
        s[i] as nat + 0x1_0000_0000 * value_from(s, i + 1)
    }
}

/// The value is that of the digits from the place on, whatever stands before them.
proof fn lemma_value_from_same(s: Seq<u32>, t: Seq<u32>, i: int)
    requires
        0 <= i,
        s.len() == t.len(),
        forall|k: int| i <= k < s.len() ==> s[k] == t[k],
    ensures
        value_from(s, i) == value_from(t, i),
    decreases s.len() - i,
{
    if i < s.len() {
        lemma_value_from_same(s, t, i + 1);
    }
}

/// A natural number.
pub struct Natural {
    digits: Vec<u32>,
}

impl View for Natural {
    type V = nat;

    closed spec fn view(&self) -> nat {
        value_from(self.digits@, 0)
    }
}

/// Multiplies the digits from a place on by a factor and adds to them.
fn multiply_from(v: &mut Vec<u32>, i: usize, factor: u32, carry: u32)
    requires
        i <= old(v).len(),
    ensures
        final(v)@.len() >= old(v)@.len(),
        value_from(final(v)@, i as int) == value_from(old(v)@, i as int) * factor + carry,
        forall|k: int| 0 <= k < i ==> final(v)@[k] == old(v)@[k],
    decreases old(v).len() - i,
{
    if i == v.len() {
        if carry != 0 {
            v.push(carry);
            assert(value_from(v@, i + 1) == 0);
        }
        assert(0nat * factor as nat == 0) by (nonlinear_arith);
        return ;
    }
    let ghost d = v@[i as int] as nat;
    let ghost rest = value_from(v@, i + 1);
    assert(d * factor + carry <= 0xffff_ffff * 0xffff_ffff + 0xffff_ffff) by (nonlinear_arith)
        requires
            d <= 0xffff_ffff,
            factor <= 0xffff_ffff,
            carry <= 0xffff_ffff,
    ;
    let x: u64 = (v[i] as u64) * (factor as u64) + (carry as u64);
    let low: u32 = (x % 0x1_0000_0000) as u32;
    let high: u32 = (x / 0x1_0000_0000) as u32;
    v.set(i, low);
    let ghost before = v@;
    proof {
        lemma_value_from_same(old(v)@, before, i + 1);
    }
    multiply_from(v, i + 1, factor, high);
    assert(v@[i as int] == low);
    assert((d + 0x1_0000_0000 * rest) * factor == d * factor + 0x1_0000_0000 * (rest * factor))
        by (nonlinear_arith);
}

/// How the digits of one number from a place on compare with those of another: below nought if
/// they are worth less, above it if they are worth more.
fn compare_from(a: &Vec<u32>, b: &Vec<u32>, i: usize) -> (r: i8)
    ensures
        r < 0 <==> value_from(a@, i as int) < value_from(b@, i as int),
        r > 0 <==> value_from(a@, i as int) > value_from(b@, i as int),
    decreases a.len() + b.len() - i,
{
    if i >= a.len() && i >= b.len() {
        return 0;
    }
    let above: i8 = compare_from(a, b, i + 1);
    if above != 0 {
        return above;
    }
    let x: u32 = if i < a.len() {
        a[i]
    } else {
        0
    };
    let y: u32 = if i < b.len() {
        b[i]
    } else {
        0
    };
    if x < y {
        -1
    } else if x > y {
        1
    } else {
        0
    }
}

/// Subtracts the digits of one number from a place on, and one more if there is a borrow.
fn subtract_from(a: &mut Vec<u32>, b: &Vec<u32>, i: usize, borrow: bool)
    requires
        value_from(b@, i as int) + (if borrow {
            1int
        } else {
            0
        }) <= value_from(old(a)@, i as int),
    ensures
        final(a)@.len() == old(a)@.len(),
        value_from(final(a)@, i as int) == value_from(old(a)@, i as int) - value_from(b@, i as int) - (
        if borrow {
            1int
        } else {
            0
        }),
        forall|k: int| 0 <= k < i && k < old(a)@.len() ==> final(a)@[k] == old(a)@[k],
    decreases old(a).len() - i,
{
    if i >= a.len() {
        return ;
    }
    let y: u32 = if i < b.len() {
        b[i]
    } else {
        0
    };
    let take: u64 = (y as u64) + if borrow {
        1
    } else {
        0
    };
    let x: u64 = a[i] as u64;
    let next: bool = x < take;
    let d: u32 = if next {
        (x + 0x1_0000_0000 - take) as u32
    } else {
        (x - take) as u32
    };
    a.set(i, d);
    proof {
        lemma_value_from_same(old(a)@, a@, i + 1);
    }
    subtract_from(a, b, i + 1, next);
    assert(a@[i as int] == d);
}

/// Halves the digits from a place on. The bit that is left over is returned.
fn halve_from(v: &mut Vec<u32>, i: usize) -> (odd: bool)
    requires
        i <= old(v).len(),
    ensures
        final(v)@.len() == old(v)@.len(),
        value_from(old(v)@, i as int) == 2 * value_from(final(v)@, i as int) + (if odd {
            1int
        } else {
            0
        }),
        forall|k: int| 0 <= k < i ==> final(v)@[k] == old(v)@[k],
    decreases old(v).len() - i,
{
    if i == v.len() {
        return false;
    }
    let above: bool = halve_from(v, i + 1);
    let ghost mid = v@;
    let d: u32 = v[i];
    let half: u32 = d / 2 + if above {
        0x8000_0000
    } else {
        0
    };
    v.set(i, half);
    proof {
        lemma_value_from_same(mid, v@, i + 1);
    }
    d % 2 == 1
}

impl Natural {
    pub fn zero() -> (r: Natural)
        ensures
            r@ == 0,
    {
        Natural { digits: Vec::new() }
    }

    /// Becomes its product with a factor, plus a term.
    pub fn multiply_add(&mut self, factor: u32, term: u32)
        ensures
            final(self)@ == old(self)@ * factor + term,
    {
        multiply_from(&mut self.digits, 0, factor, term);
    }

    /// Whether it is less than another number.
    pub fn less(&self, other: &Natural) -> (r: bool)
        ensures
            r == (self@ < other@),
    {
        compare_from(&self.digits, &other.digits, 0) < 0
    }

    /// Becomes its difference from a number that is no larger.
    pub fn subtract(&mut self, other: &Natural)
        requires
            other@ <= old(self)@,
        ensures
            final(self)@ == old(self)@ - other@,
    {
        subtract_from(&mut self.digits, &other.digits, 0, false);
    }

    /// Becomes its half. It is even.
    pub fn halve(&mut self)
        requires
            old(self)@ % 2 == 0,
        ensures
            2 * final(self)@ == old(self)@,
    {
        let _ = halve_from(&mut self.digits, 0);
    }

    /// Another number of the same value.
    pub fn copy(&self) -> (r: Natural)
        ensures
            r@ == self@,
    {
        let mut digits: Vec<u32> = Vec::new();
        let mut i: usize = 0;
        while i < self.digits.len()
            invariant
                i <= self.digits.len(),
                digits@ == self.digits@.take(i as int),
            decreases self.digits.len() - i,
        {
            digits.push(self.digits[i]);
            i += 1;
            assert(self.digits@.take(i as int) =~= self.digits@.take(i - 1).push(
                self.digits@[i - 1],
            ));
        }
        assert(self.digits@.take(i as int) =~= self.digits@);
        Natural { digits }
    }
}

} // verus!
