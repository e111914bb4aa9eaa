//! IEEE-754 numbers, held as their bit patterns and compared without arithmetic.

use vstd::prelude::*;

verus! {

/// A single-precision number, by its bit pattern.
#[derive(Clone, Copy, Debug, PartialEq, Eq, Structural)]
pub struct Single(pub u32);

/// A double-precision number, by its bit pattern.
#[derive(Clone, Copy, Debug, PartialEq, Eq, Structural)]
pub struct Double(pub u64);

impl Single {
    /// The bits without the sign.
    pub open spec fn magnitude(self) -> int {
        self.0 as int % 0x8000_0000
    }

    pub open spec fn nan(self) -> bool {
        self.magnitude() > 0x7f80_0000
    }

    /// A position on the number line: of two numbers, the greater has the
    /// greater rank, and equal numbers (zero and negative zero) have equal ranks.
    pub open spec fn rank(self) -> int {
        if self.0 < 0x8000_0000 {
            self.magnitude()
        } else {
            -self.magnitude()
        }
    }

    /// `self < other`, as numbers.
    pub open spec fn below(self, other: Single) -> bool {
        !self.nan() && !other.nan() && self.rank() < other.rank()
    }

    /// `self <= other`, as numbers.
    pub open spec fn at_most(self, other: Single) -> bool {
        !self.nan() && !other.nan() && self.rank() <= other.rank()
    }

    fn rank_of(self) -> (r: i64)
        ensures
            r == self.rank(),
    {
        if self.0 < 0x8000_0000 {
            self.0 as i64
        } else {
            -((self.0 - 0x8000_0000) as i64)
        }
    }

    pub fn is_nan(self) -> (r: bool)
        ensures
            r == self.nan(),
    {
        self.0 % 0x8000_0000 > 0x7f80_0000
    }

    /// `self < other`; false if either is not a number.
    pub fn lt(self, other: Single) -> (r: bool)
        ensures
            r == self.below(other),
    {
        !self.is_nan() && !other.is_nan() && self.rank_of() < other.rank_of()
    }

    /// `self <= other`; false if either is not a number.
    pub fn le(self, other: Single) -> (r: bool)
        ensures
            r == self.at_most(other),
    {
        !self.is_nan() && !other.is_nan() && self.rank_of() <= other.rank_of()
    }

    /// `self` limited to `lo..=hi`. What is not a number stays so.
    pub fn clamp(self, lo: Single, hi: Single) -> (r: Single)
        ensures
            r == spec_clamp(self, lo, hi),
    {
        if self.lt(lo) {
            lo
        } else if hi.lt(self) {
            hi
        } else {
            self
        }
    }

    /// The lesser of two numbers; the other one, if one is not a number.
    pub fn min(self, other: Single) -> (r: Single)
        ensures
            r == spec_min(self, other),
    {
        if self.is_nan() || other.lt(self) {
            other
        } else {
            self
        }
    }

    /// The greater of two numbers; the other one, if one is not a number.
    pub fn max(self, other: Single) -> (r: Single)
        ensures
            r == spec_max(self, other),
    {
        if self.is_nan() || self.lt(other) {
            other
        } else {
            self
        }
    }
}

pub open spec fn spec_clamp(v: Single, lo: Single, hi: Single) -> Single {
    if v.below(lo) {
        lo
    } else if hi.below(v) {
        hi
    } else {
        v
    }
}

pub open spec fn spec_min(a: Single, b: Single) -> Single {
    if a.nan() || (!b.nan() && b.rank() < a.rank()) {
        b
    } else {
        a
    }
}

pub open spec fn spec_max(a: Single, b: Single) -> Single {
    if a.nan() || (!b.nan() && a.rank() < b.rank()) {
        b
    } else {
        a
    }
}

impl Double {
    /// The bits without the sign.
    pub open spec fn magnitude(self) -> int {
        self.0 as int % 0x8000_0000_0000_0000
    }

    pub open spec fn nan(self) -> bool {
        self.magnitude() > 0x7ff0_0000_0000_0000
    }

    /// Neither infinite nor not a number.
    pub open spec fn finite(self) -> bool {
        self.magnitude() < 0x7ff0_0000_0000_0000
    }

    /// A position on the number line: of two numbers, the greater has the
    /// greater rank, and equal numbers (zero and negative zero) have equal ranks.
    pub open spec fn rank(self) -> int {
        if self.0 < 0x8000_0000_0000_0000 {
            self.magnitude()
        } else {
            -self.magnitude()
        }
    }

    /// `self < other`, as numbers.
    pub open spec fn below(self, other: Double) -> bool {
        !self.nan() && !other.nan() && self.rank() < other.rank()
    }

    fn rank_of(self) -> (r: i64)
        ensures
            r == self.rank(),
    {
        if self.0 < 0x8000_0000_0000_0000 {
            self.0 as i64
        } else {
            -((self.0 - 0x8000_0000_0000_0000) as i64)
        }
    }

    pub fn is_nan(self) -> (r: bool)
        ensures
            r == self.nan(),
    {
        self.0 % 0x8000_0000_0000_0000 > 0x7ff0_0000_0000_0000
    }

    pub fn is_finite(self) -> (r: bool)
        ensures
            r == self.finite(),
    {
        self.0 % 0x8000_0000_0000_0000 < 0x7ff0_0000_0000_0000
    }

    /// `self < other`; false if either is not a number.
    pub fn lt(self, other: Double) -> (r: bool)
        ensures
            r == self.below(other),
    {
        !self.is_nan() && !other.is_nan() && self.rank_of() < other.rank_of()
    }
}

/// Numbers compare as their bits say: among positive ones the greater pattern is the
/// greater number, among negative ones the lesser, negative ones come before positive
/// ones, and the two zeros are equal. What is not a number compares with nothing.
pub proof fn singles_compare_by_their_bits(a: Single, b: Single)
    ensures
        a.nan() || b.nan() ==> !a.below(b) && !a.at_most(b),
        a.0 <= 0x7f80_0000 && b.0 <= 0x7f80_0000 ==> (a.below(b) <==> a.0 < b.0) && (a.at_most(b)
            <==> a.0 <= b.0),
        0x8000_0000 <= a.0 <= 0xff80_0000 && 0x8000_0000 <= b.0 <= 0xff80_0000 ==> (a.below(b)
            <==> a.0 > b.0) && (a.at_most(b) <==> a.0 >= b.0),
        0x8000_0000 < a.0 <= 0xff80_0000 && b.0 <= 0x7f80_0000 ==> a.below(b) && !b.at_most(a),
        Single(0x8000_0000).at_most(Single(0)) && Single(0).at_most(Single(0x8000_0000)),
        a.nan() <==> 0x7f80_0000 < a.0 < 0x8000_0000 || a.0 > 0xff80_0000,
{
}

/// The same of double-precision numbers.
pub proof fn doubles_compare_by_their_bits(a: Double, b: Double)
    ensures
        a.nan() || b.nan() ==> !a.below(b),
        a.0 <= 0x7ff0_0000_0000_0000 && b.0 <= 0x7ff0_0000_0000_0000 ==> (a.below(b) <==> a.0
            < b.0),
        0x8000_0000_0000_0000 <= a.0 <= 0xfff0_0000_0000_0000 && 0x8000_0000_0000_0000 <= b.0
            <= 0xfff0_0000_0000_0000 ==> (a.below(b) <==> a.0 > b.0),
        0x8000_0000_0000_0000 < a.0 <= 0xfff0_0000_0000_0000 && b.0 <= 0x7ff0_0000_0000_0000
            ==> a.below(b),
        a.nan() <==> 0x7ff0_0000_0000_0000 < a.0 < 0x8000_0000_0000_0000 || a.0
            > 0xfff0_0000_0000_0000,
        a.finite() <==> a.0 < 0x7ff0_0000_0000_0000 || 0x8000_0000_0000_0000 <= a.0
            < 0xfff0_0000_0000_0000,
{
}

/// The lesser and the greater of two numbers are one of them and bound both; beside
/// what is not a number, the other one is taken. A limited number lies between its
/// limits, and is the number itself where that does.
pub proof fn extremes_bound_both(a: Single, b: Single, lo: Single, hi: Single)
    ensures
        spec_min(a, b) == a || spec_min(a, b) == b,
        spec_max(a, b) == a || spec_max(a, b) == b,
        !a.nan() && !b.nan() ==> {
            &&& spec_min(a, b).at_most(a) && spec_min(a, b).at_most(b)
            &&& a.at_most(spec_max(a, b)) && b.at_most(spec_max(a, b))
        },
        a.nan() ==> spec_min(a, b) == b && spec_max(a, b) == b,
        b.nan() && !a.nan() ==> spec_min(a, b) == a && spec_max(a, b) == a,
        lo.at_most(hi) && !a.nan() ==> lo.at_most(spec_clamp(a, lo, hi)) && spec_clamp(
            a,
            lo,
            hi,
        ).at_most(hi),
        lo.at_most(a) && a.at_most(hi) ==> spec_clamp(a, lo, hi) == a,
        a.below(lo) ==> spec_clamp(a, lo, hi) == lo,
        lo.at_most(a) && hi.below(a) ==> spec_clamp(a, lo, hi) == hi,
        a.nan() ==> spec_clamp(a, lo, hi) == a,
{
}

} // verus!
