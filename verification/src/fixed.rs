//! Unsigned fixed-point numbers: a count of equal parts of one, where the
//! number of parts in one is a power of two.

use vstd::prelude::*;

verus! {

/// The greater of two numbers.
pub fn max(a: usize, b: usize) -> (greater: usize)
    ensures
        greater >= a,
        greater >= b,
        greater == a || greater == b,
{
    if a < b {
        b
    } else {
        a
    }
}

/// The largest denominator a fixed-point number can have, `2^31`.
pub const MAX_DENOMINATOR: usize = 0x8000_0000;

/// Whether `d` is one of 1, 2, 4, 8 and so on.
pub open spec fn power_of_two(d: int) -> bool
    decreases d,
{
    if d <= 0 {
        false
    } else if d == 1 {
        true
    } else {
        d % 2 == 0 && power_of_two(d / 2)
    }
}

/// The fraction `n / d` with common factors of two removed, for `d` a power
/// of two. The fraction 0 becomes `0 / 1`.
pub open spec fn reduced(n: int, d: int) -> (int, int)
    decreases d,
{
    if d > 1 && n % 2 == 0 && d % 2 == 0 {
        reduced(n / 2, d / 2)
    } else {
        (n, d)
    }
}

/// `reduced` keeps the value of the fraction and leaves it in lowest terms.
pub proof fn lemma_reduced(n: int, d: int)
    requires
        0 <= n,
        power_of_two(d),
    ensures
        reduced(n, d).0 * d == n * reduced(n, d).1,
        power_of_two(reduced(n, d).1),
        1 <= reduced(n, d).1 <= d,
        0 <= reduced(n, d).0 <= n,
        reduced(n, d).0 % 2 == 1 || reduced(n, d).1 == 1,
    decreases d,
{
    if d > 1 && n % 2 == 0 && d % 2 == 0 {
        lemma_reduced(n / 2, d / 2);
        let r = reduced(n / 2, d / 2);
        assert(r.0 * d == n * r.1) by (nonlinear_arith)
            requires
                r.0 * (d / 2) == (n / 2) * r.1,
                d == 2 * (d / 2),
                n == 2 * (n / 2),
        ;
    }
}

/// Between a power of two and its double there is no other power of two.
pub proof fn lemma_power_gap(small: int, large: int)
    requires
        power_of_two(small),
        power_of_two(large),
        small < large,
    ensures
        small <= large / 2,
        power_of_two(large / 2),
    decreases small,
{
    if small > 1 {
        lemma_power_gap(small / 2, large / 2);
    }
}

/// The quotient of two powers of two is a whole number, and multiplying by
/// it undoes dividing by it.
pub proof fn lemma_power_ratio(small: int, large: int)
    requires
        power_of_two(small),
        power_of_two(large),
        small <= large,
    ensures
        large % small == 0,
        (large / small) * small == large,
        large / small >= 1,
    decreases large,
{
    if small == large {
        assert(large / small == 1 && large % small == 0) by (nonlinear_arith)
            requires
                small == large,
                small > 0,
        ;
    } else {
        lemma_power_gap(small, large);
        lemma_power_ratio(small, large / 2);
        let h = large / 2;
        let q = h / small;
        assert(large == (2 * q) * small) by (nonlinear_arith)
            requires
                large == 2 * h,
                q * small == h,
        ;
        vstd::arithmetic::div_mod::lemma_fundamental_div_mod_converse(large, small, 2 * q, 0);
    }
}

/// A number of `1 / denominator` parts, where the denominator is a power of
/// two that was checked when the value was made.
#[derive(Copy, Clone, Debug, Hash)]
pub struct FixedPoint {
    bits: u32,
    denominator: usize,
}

impl FixedPoint {
    /// The number of parts.
    pub closed spec fn numerator(&self) -> int {
        self.bits as int
    }

    /// The number of parts in one.
    pub closed spec fn over(&self) -> int {
        self.denominator as int
    }

    /// Whether the denominator is a supported power of two.
    pub open spec fn wf(&self) -> bool {
        power_of_two(self.over()) && self.over() <= MAX_DENOMINATOR
    }

    /// Whether `denominator` is a power of two.
    fn is_power_of_two(denominator: usize) -> (yes: bool)
        ensures
            yes == power_of_two(denominator as int),
    {
        if denominator == 0 {
            return false;
        }
        let mut rest = denominator;
        while rest % 2 == 0
            invariant
                0 < rest <= denominator,
                power_of_two(rest as int) == power_of_two(denominator as int),
            decreases rest,
        {
            rest = rest / 2;
        }
        assert(power_of_two(rest as int) == (rest == 1));
        rest == 1
    }

    /// `n` parts of `1 / denominator`, or nothing where the denominator is
    /// no power of two or is above `2^31`.
    pub fn new(n: u32, denominator: usize) -> (value: Option<Self>)
        ensures
            value.is_some() <==> power_of_two(denominator as int) && denominator
                <= MAX_DENOMINATOR,
            value matches Some(v) ==> v.numerator() == n && v.over() == denominator && v.wf(),
    {
        if denominator <= MAX_DENOMINATOR && Self::is_power_of_two(denominator) {
            Some(FixedPoint { bits: n, denominator })
        } else {
            None
        }
    }

    /// The whole part of the number.
    pub fn integral(&self) -> (whole: u32)
        requires
            self.wf(),
        ensures
            whole == self.numerator() / self.over(),
    {
        (self.bits as usize / self.denominator) as u32
    }

    /// The part of the number below one, as a fraction in lowest terms:
    /// numerator first, then denominator.
    pub fn fractional(&self) -> (fraction: (u32, u32))
        requires
            self.wf(),
        ensures
            (fraction.0 as int, fraction.1 as int) == reduced(
                self.numerator() % self.over(),
                self.over(),
            ),
            fraction.0 * self.over() == (self.numerator() % self.over()) * fraction.1,
            fraction.0 % 2 == 1 || fraction.1 == 1,
            fraction.0 < fraction.1,
    {
        let mut n: usize = self.bits as usize % self.denominator;
        let mut d: usize = self.denominator;
        proof {
            lemma_reduced(n as int, d as int);
        }
        while d > 1 && n % 2 == 0 && d % 2 == 0
            invariant
                power_of_two(d as int),
                0 <= n < d <= MAX_DENOMINATOR,
                reduced(n as int, d as int) == reduced(
                    self.numerator() % self.over(),
                    self.over(),
                ),
            decreases d,
        {
            n = n / 2;
            d = d / 2;
        }
        (n as u32, d as u32)
    }

    /// The same number with another denominator. With a greater denominator
    /// the value is kept; with a smaller one it is rounded to the nearest
    /// part, halves upwards.
    pub fn to_denominator(&self, denominator: usize) -> (converted: FixedPoint)
        requires
            self.wf(),
            power_of_two(denominator as int),
            denominator <= MAX_DENOMINATOR,
            self.over() < denominator ==> self.numerator() * (denominator as int / self.over())
                <= u32::MAX,
        ensures
            converted.wf(),
            converted.over() == denominator,
            self.over() <= denominator ==> converted.numerator() == self.numerator() * (
            denominator as int / self.over()),
            self.over() > denominator ==> converted.numerator() == (self.numerator() + (
            self.over() / denominator as int) / 2) / (self.over() / denominator as int),
    {
        if self.denominator > denominator {
            let ratio = self.denominator / denominator;
            proof {
                lemma_power_ratio(denominator as int, self.over());
                assert(ratio >= 2) by (nonlinear_arith)
                    requires
                        ratio * denominator == self.denominator,
                        self.denominator > denominator,
                        denominator > 0,
                        ratio >= 1,
                ;
                assert(ratio <= self.denominator) by (nonlinear_arith)
                    requires
                        ratio * denominator == self.denominator,
                        denominator >= 1,
                        ratio >= 1,
                ;
            }
            proof {
                vstd::arithmetic::div_mod::lemma_div_is_ordered_by_denominator(
                    self.bits + ratio / 2,
                    2,
                    ratio as int,
                );
            }
            let rounded = (self.bits as u64 + (ratio / 2) as u64) / ratio as u64;
            FixedPoint { bits: rounded as u32, denominator }
        } else if self.denominator < denominator {
            let ratio = denominator / self.denominator;
            FixedPoint { bits: (self.bits as usize * ratio) as u32, denominator }
        } else {
            proof {
                assert(denominator / self.denominator == 1) by (nonlinear_arith)
                    requires
                        denominator == self.denominator,
                        denominator > 0,
                ;
            }
            FixedPoint { bits: self.bits, denominator }
        }
    }

    /// The sum of two numbers over the greater of the two denominators.
    pub closed spec fn plus(self, rhs: Self) -> Self {
        let d = if self.denominator < rhs.denominator {
            rhs.denominator
        } else {
            self.denominator
        };
        FixedPoint {
            bits: (self.bits * (d as int / self.over()) + rhs.bits * (d as int / rhs.over()))
                as u32,
            denominator: d,
        }
    }

    /// Whether the sum of two numbers can be held.
    pub open spec fn can_add(self, rhs: Self) -> bool {
        let d = if self.over() < rhs.over() {
            rhs.over()
        } else {
            self.over()
        };
        &&& self.wf()
        &&& rhs.wf()
        &&& self.numerator() * (d / self.over()) + rhs.numerator() * (d / rhs.over()) <= u32::MAX
    }

    /// The sum is over the greater denominator, and its parts are the parts
    /// of both numbers counted in that denominator.
    pub proof fn lemma_plus(self, rhs: Self)
        requires
            self.can_add(rhs),
        ensures
            self.plus(rhs).wf(),
            self.plus(rhs).over() == if self.over() < rhs.over() {
                rhs.over()
            } else {
                self.over()
            },
            self.plus(rhs).numerator() == self.numerator() * (self.plus(rhs).over() / self.over())
                + rhs.numerator() * (self.plus(rhs).over() / rhs.over()),
    {
        let d = self.plus(rhs).over();
        lemma_power_ratio(self.over(), d);
        lemma_power_ratio(rhs.over(), d);
        assert(0 <= self.numerator() * (d / self.over())) by (nonlinear_arith)
            requires
                0 <= self.numerator(),
                d / self.over() >= 1,
        ;
        assert(0 <= rhs.numerator() * (d / rhs.over())) by (nonlinear_arith)
            requires
                0 <= rhs.numerator(),
                d / rhs.over() >= 1,
        ;
    }
}

impl core::ops::Add for FixedPoint {
    type Output = FixedPoint;

    fn add(self, rhs: Self) -> (sum: Self) {
        let d = max(self.denominator, rhs.denominator);
        proof {
            lemma_power_ratio(self.over(), d as int);
            lemma_power_ratio(rhs.over(), d as int);
            assert(0 <= self.numerator() * (d as int / self.over())) by (nonlinear_arith)
                requires
                    0 <= self.numerator(),
                    d as int / self.over() >= 1,
            ;
            assert(0 <= rhs.numerator() * (d as int / rhs.over())) by (nonlinear_arith)
                requires
                    0 <= rhs.numerator(),
                    d as int / rhs.over() >= 1,
            ;
        }
        let a = self.to_denominator(d);
        let b = rhs.to_denominator(d);
        FixedPoint { bits: a.bits + b.bits, denominator: d }
    }
}

impl vstd::std_specs::ops::AddSpecImpl for FixedPoint {
    open spec fn obeys_add_spec() -> bool {
        true
    }

    open spec fn add_req(self, rhs: Self) -> bool {
        self.can_add(rhs)
    }

    open spec fn add_spec(self, rhs: Self) -> Self {
        self.plus(rhs)
    }
}

impl FixedPoint {
    /// The whole part, taken as 0 where the denominator is zero.
    pub open spec fn whole(&self) -> int {
        if self.over() > 0 {
            self.numerator() / self.over()
        } else {
            0
        }
    }

    /// The fraction below one in lowest terms, taken as `(0, 0)` where the
    /// denominator is zero.
    pub open spec fn lowest_terms(&self) -> (int, int) {
        if self.over() > 0 {
            reduced(self.numerator() % self.over(), self.over())
        } else {
            (0, 0)
        }
    }

    /// Whether two numbers have the same value, whatever their denominators:
    /// the same whole part and the same fraction in lowest terms.
    pub open spec fn same_value(&self, other: &FixedPoint) -> bool {
        if self.over() == other.over() {
            self.numerator() == other.numerator()
        } else {
            self.whole() == other.whole() && self.lowest_terms() == other.lowest_terms()
        }
    }

    /// The whole part of the number.
    fn whole_part(&self) -> (whole: usize)
        ensures
            whole == self.whole(),
    {
        if self.denominator == 0 {
            0
        } else {
            self.bits as usize / self.denominator
        }
    }

    /// The part of the number below one as a fraction in lowest terms.
    fn reduced_fraction(&self) -> (fraction: (usize, usize))
        ensures
            (fraction.0 as int, fraction.1 as int) == self.lowest_terms(),
    {
        if self.denominator == 0 {
            return (0, 0);
        }
        let mut n: usize = self.bits as usize % self.denominator;
        let mut d: usize = self.denominator;
        while d > 1 && n % 2 == 0 && d % 2 == 0
            invariant
                0 <= n,
                0 < d,
                self.over() > 0,
                reduced(n as int, d as int) == reduced(
                    self.numerator() % self.over(),
                    self.over(),
                ),
            decreases d,
        {
            n = n / 2;
            d = d / 2;
        }
        (n, d)
    }
}

impl PartialEq for FixedPoint {
    fn eq(&self, other: &FixedPoint) -> (equal: bool) {
        if self.denominator == other.denominator {
            self.bits == other.bits
        } else {
            let mine = self.reduced_fraction();
            let theirs = other.reduced_fraction();
            self.whole_part() == other.whole_part() && mine.0 == theirs.0 && mine.1 == theirs.1
        }
    }
}

impl vstd::std_specs::cmp::PartialEqSpecImpl for FixedPoint {
    open spec fn obeys_eq_spec() -> bool {
        true
    }

    open spec fn eq_spec(&self, other: &FixedPoint) -> bool {
        self.same_value(other)
    }
}

impl Eq for FixedPoint {

}

} // verus!
