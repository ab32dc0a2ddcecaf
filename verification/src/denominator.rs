//! Values that stand for fractions over a shared denominator.

use vstd::prelude::*;
use crate::lattice_vertex::LatticeVertex;

verus! {

/// A numerator of type `T` over a denominator that is kept beside it. The
/// denominator is checked once, on construction, and is never zero afterwards.
#[derive(Clone, PartialEq, Eq, Hash, Debug)]
pub struct ImplicitDenominator<T> {
    value: T,
    denominator: u32,
}

impl<T> ImplicitDenominator<T> {
    /// The numerator.
    pub closed spec fn numerator(&self) -> T {
        self.value
    }

    /// The denominator.
    pub closed spec fn over(&self) -> int {
        self.denominator as int
    }

    /// Whether the denominator is usable.
    pub open spec fn wf(&self) -> bool {
        self.over() > 0
    }

    /// The fraction `value / denominator`, or nothing where the denominator
    /// is zero.
    pub fn new(value: T, denominator: u32) -> (fraction: Option<Self>)
        ensures
            fraction.is_some() <==> denominator != 0,
            fraction matches Some(f) ==> f.numerator() == value && f.over() == denominator && f.wf(),
    {
        if denominator == 0 {
            None
        } else {
            Some(Self { value, denominator })
        }
    }

    /// The fraction `v / denominator` for a denominator known to be nonzero.
    pub fn wrap(v: T, denominator: u32) -> (fraction: Self)
        requires
            denominator != 0,
        ensures
            fraction.numerator() == v,
            fraction.over() == denominator,
            fraction.wf(),
    {
        Self { value: v, denominator }
    }

    /// The numerator.
    pub fn inner(&self) -> (value: T) where T: Copy
        ensures
            value == self.numerator(),
    {
        self.value
    }

    /// The denominator.
    pub fn denominator(&self) -> (denominator: u32)
        ensures
            denominator == self.over(),
    {
        self.denominator
    }
}

impl ImplicitDenominator<LatticeVertex> {
    /// The sum of two fractions over the same denominator.
    pub closed spec fn plus(self, rhs: Self) -> Self {
        ImplicitDenominator { value: self.value.plus(rhs.value), denominator: self.denominator }
    }

    /// The difference of two fractions over the same denominator.
    pub closed spec fn minus(self, rhs: Self) -> Self {
        ImplicitDenominator { value: self.value.minus(rhs.value), denominator: self.denominator }
    }

    /// Sums and differences keep the denominator and work on the numerators.
    pub proof fn lemma_arithmetic(self, rhs: Self)
        ensures
            self.plus(rhs).numerator() == self.numerator().plus(rhs.numerator()),
            self.plus(rhs).over() == self.over(),
            self.minus(rhs).numerator() == self.numerator().minus(rhs.numerator()),
            self.minus(rhs).over() == self.over(),
    {
    }
}

impl core::ops::Add for ImplicitDenominator<LatticeVertex> {
    type Output = ImplicitDenominator<LatticeVertex>;

    fn add(self, rhs: Self) -> (sum: Self) {
        ImplicitDenominator { value: self.value + rhs.value, denominator: self.denominator }
    }
}

impl vstd::std_specs::ops::AddSpecImpl for ImplicitDenominator<LatticeVertex> {
    open spec fn obeys_add_spec() -> bool {
        true
    }

    open spec fn add_req(self, rhs: Self) -> bool {
        self.over() == rhs.over() && self.numerator().can_add(rhs.numerator())
    }

    open spec fn add_spec(self, rhs: Self) -> Self {
        self.plus(rhs)
    }
}

impl core::ops::Sub for ImplicitDenominator<LatticeVertex> {
    type Output = ImplicitDenominator<LatticeVertex>;

    fn sub(self, rhs: Self) -> (difference: Self) {
        ImplicitDenominator { value: self.value - rhs.value, denominator: self.denominator }
    }
}

impl vstd::std_specs::ops::SubSpecImpl for ImplicitDenominator<LatticeVertex> {
    open spec fn obeys_sub_spec() -> bool {
        true
    }

    open spec fn sub_req(self, rhs: Self) -> bool {
        self.over() == rhs.over() && self.numerator().can_subtract(rhs.numerator())
    }

    open spec fn sub_spec(self, rhs: Self) -> Self {
        self.minus(rhs)
    }
}

} // verus!
