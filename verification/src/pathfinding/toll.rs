//! Walking costs. Every cost on the grid is a sum of ones, halves and square
//! roots of two, so it is kept exactly, as a pair of integers, and compared
//! without rounding.

use vstd::prelude::*;

verus! {

/// The cost `(ones + roots * sqrt(2)) / 2`, as the pair `(ones, roots)`.
pub type Toll = (int, int);

pub open spec fn toll_plus(a: Toll, b: Toll) -> Toll {
    (a.0 + b.0, a.1 + b.1)
}

/// `p + q * sqrt(2) >= 0`.
#[verifier::opaque]
pub open spec fn surd_nonneg(p: int, q: int) -> bool {
    if p >= 0 {
        q >= 0 || p * p >= 2 * (q * q)
    } else {
        q > 0 && p * p <= 2 * (q * q)
    }
}

/// `a <= b` as real numbers.
pub open spec fn toll_le(a: Toll, b: Toll) -> bool {
    surd_nonneg(b.0 - a.0, b.1 - a.1)
}

/// `a < b` as real numbers.
pub open spec fn toll_lt(a: Toll, b: Toll) -> bool {
    !toll_le(b, a)
}

/// `x <= y` for natural numbers whose squares are so ordered.
proof fn lemma_root_le(x: int, y: int)
    requires
        0 <= y,
        x * x <= y * y,
    ensures
        x <= y,
{
    if x > y {
        assert(x * x > y * y) by (nonlinear_arith)
            requires
                x > y,
                y >= 0,
        ;
    }
}

/// The cross terms of two lower bounds `a >= b * sqrt(2)`, `c >= d * sqrt(2)`.
proof fn lemma_cross_ge(a: int, b: int, c: int, d: int)
    requires
        a >= 0,
        b >= 0,
        c >= 0,
        d >= 0,
        a * a >= 2 * (b * b),
        c * c >= 2 * (d * d),
    ensures
        a * c >= 2 * (b * d),
{
    assert((2 * (b * d)) * (2 * (b * d)) <= (a * c) * (a * c)) by (nonlinear_arith)
        requires
            a * a >= 2 * (b * b),
            c * c >= 2 * (d * d),
    {
        let aa = a * a;
        let bb = b * b;
        let cc = c * c;
        let dd = d * d;
        assert((a * c) * (a * c) == aa * cc);
        assert((2 * (b * d)) * (2 * (b * d)) == (2 * bb) * (2 * dd));
        assert(bb >= 0 && dd >= 0);
        assert((2 * bb) * (2 * dd) <= aa * (2 * dd));
        assert(aa * (2 * dd) <= aa * cc);
    }
    assert(a * c >= 0) by (nonlinear_arith)
        requires
            a >= 0,
            c >= 0,
    ;
    lemma_root_le(2 * (b * d), a * c);
}

/// The cross terms of two upper bounds `a <= b * sqrt(2)`, `c <= d * sqrt(2)`.
proof fn lemma_cross_le(a: int, b: int, c: int, d: int)
    requires
        a >= 0,
        b >= 0,
        c >= 0,
        d >= 0,
        a * a <= 2 * (b * b),
        c * c <= 2 * (d * d),
    ensures
        a * c <= 2 * (b * d),
{
    assert((a * c) * (a * c) <= (2 * (b * d)) * (2 * (b * d))) by (nonlinear_arith)
        requires
            a * a <= 2 * (b * b),
            c * c <= 2 * (d * d),
    {
        let aa = a * a;
        let bb = b * b;
        let cc = c * c;
        let dd = d * d;
        assert((a * c) * (a * c) == aa * cc);
        assert((2 * (b * d)) * (2 * (b * d)) == (2 * bb) * (2 * dd));
        assert(aa >= 0 && cc >= 0);
        assert(aa * cc <= aa * (2 * dd));
        assert(aa * (2 * dd) <= (2 * bb) * (2 * dd)) by (nonlinear_arith)
            requires
                aa <= 2 * bb,
                dd >= 0,
        ;
    }
    assert(b * d >= 0) by (nonlinear_arith)
        requires
            b >= 0,
            d >= 0,
    ;
    lemma_root_le(a * c, 2 * (b * d));
}

proof fn lemma_square_of_sum(a: int, c: int)
    ensures
        (a + c) * (a + c) == a * a + 2 * (a * c) + c * c,
{
    assert((a + c) * (a + c) == a * a + 2 * (a * c) + c * c) by (nonlinear_arith);
}

/// Lower bounds add up.
proof fn lemma_sum_ge(a: int, b: int, c: int, d: int)
    requires
        a >= 0,
        b >= 0,
        c >= 0,
        d >= 0,
        a * a >= 2 * (b * b),
        c * c >= 2 * (d * d),
    ensures
        (a + c) * (a + c) >= 2 * ((b + d) * (b + d)),
{
    lemma_cross_ge(a, b, c, d);
    lemma_square_of_sum(a, c);
    lemma_square_of_sum(b, d);
}

/// Upper bounds add up.
proof fn lemma_sum_le(a: int, b: int, c: int, d: int)
    requires
        a >= 0,
        b >= 0,
        c >= 0,
        d >= 0,
        a * a <= 2 * (b * b),
        c * c <= 2 * (d * d),
    ensures
        (a + c) * (a + c) <= 2 * ((b + d) * (b + d)),
        a * a < 2 * (b * b) ==> (a + c) * (a + c) < 2 * ((b + d) * (b + d)),
{
    lemma_cross_le(a, b, c, d);
    lemma_square_of_sum(a, c);
    lemma_square_of_sum(b, d);
}

proof fn lemma_square_mono(x: int, y: int)
    requires
        0 <= x <= y,
    ensures
        x * x <= y * y,
{
    assert(x * x <= y * y) by (nonlinear_arith)
        requires
            0 <= x <= y,
    ;
}

proof fn lemma_square_neg(x: int)
    ensures
        (-x) * (-x) == x * x,
        x * x >= 0,
{
    assert((-x) * (-x) == x * x && x * x >= 0) by (nonlinear_arith);
}

/// The sum of a surd `p + q * sqrt(2)` with `q < 0 <= p` and one with
/// `s >= 0 > r` is not negative when both are not.
proof fn lemma_mixed_sum(p: int, q: int, r: int, s: int)
    requires
        p >= 0,
        q < 0,
        r < 0,
        s > 0,
        surd_nonneg(p, q),
        surd_nonneg(r, s),
    ensures
        surd_nonneg(p + r, q + s),
{
    reveal(surd_nonneg);
    let (bq, br) = (-q, -r);
    lemma_square_neg(q);
    lemma_square_neg(r);
    lemma_square_neg(q + s);
    lemma_square_neg(p + r);
    if p >= br {
        if s < bq {
            // p - br versus (bq - s) * sqrt(2)
            let (a, b) = (p - br, bq - s);
            assert(-(q + s) == b);
            if a * a < 2 * (b * b) {
                lemma_sum_le(a, b, br, s);
                assert(false);
            }
        }
    } else if s <= bq {
        lemma_square_mono(s, bq);
        assert(p * p < br * br) by (nonlinear_arith)
            requires
                0 <= p < br,
        ;
        assert(false);
    } else {
        // br - p versus (s - bq) * sqrt(2)
        let (a, b) = (br - p, s - bq);
        assert(-(p + r) == a);
        if a * a > 2 * (b * b) {
            lemma_sum_ge(a, b, p, bq);
            lemma_cross_ge(a, b, p, bq);
            lemma_square_of_sum(a, p);
            lemma_square_of_sum(b, bq);
            assert(false);
        }
    }
}

/// Sums of nonnegative surds are nonnegative.
pub(crate) proof fn lemma_surd_plus(p: int, q: int, r: int, s: int)
    requires
        surd_nonneg(p, q),
        surd_nonneg(r, s),
    ensures
        surd_nonneg(p + r, q + s),
{
    reveal(surd_nonneg);
    lemma_square_neg(q);
    lemma_square_neg(s);
    lemma_square_neg(p);
    lemma_square_neg(r);
    lemma_square_neg(q + s);
    lemma_square_neg(p + r);
    if p >= 0 && r >= 0 {
        if q + s < 0 {
            if q >= 0 {
                lemma_square_mono(-(q + s), -s);
                lemma_square_mono(r, p + r);
            } else if s >= 0 {
                lemma_square_mono(-(q + s), -q);
                lemma_square_mono(p, p + r);
            } else {
                lemma_sum_ge(p, -q, r, -s);
            }
        }
    } else if p < 0 && r < 0 {
        lemma_sum_le(-p, q, -r, s);
    } else if p >= 0 {
        if q < 0 {
            lemma_mixed_sum(p, q, r, s);
        } else if p + r < 0 {
            lemma_square_mono(-(p + r), -r);
            lemma_square_mono(s, q + s);
        }
    } else {
        if s < 0 {
            lemma_mixed_sum(r, s, p, q);
        } else if p + r < 0 {
            lemma_square_mono(-(p + r), -p);
            lemma_square_mono(q, q + s);
        }
    }
}

/// No square is twice another one, but for zero.
proof fn lemma_root_two_irrational(p: int, q: int)
    requires
        p >= 0,
        q >= 0,
        p * p == 2 * (q * q),
    ensures
        p == 0,
        q == 0,
    decreases p,
{
    if p > 0 {
        assert(p % 2 == 0) by {
            if p % 2 == 1 {
                let k = p / 2;
                assert(p == 2 * k + 1);
                assert(p * p == 2 * (2 * (k * k) + 2 * k) + 1) by (nonlinear_arith)
                    requires
                        p == 2 * k + 1,
                ;
            }
        }
        let r = p / 2;
        assert(p == 2 * r);
        assert(q * q == 2 * (r * r)) by (nonlinear_arith)
            requires
                p == 2 * r,
                p * p == 2 * (q * q),
        ;
        assert(q < p) by {
            if q >= p {
                lemma_square_mono(p, q);
                assert(p * p > 0) by (nonlinear_arith)
                    requires
                        p > 0,
                ;
            }
        }
        lemma_root_two_irrational(q, r);
        assert(false);
    } else {
        if q > 0 {
            assert(q * q > 0) by (nonlinear_arith)
                requires
                    q > 0,
            ;
        }
    }
}

/// The order on costs is total.
pub(crate) proof fn lemma_toll_total(a: Toll, b: Toll)
    ensures
        toll_le(a, b) || toll_le(b, a),
        toll_le(a, a),
{
    reveal(surd_nonneg);
    lemma_square_neg(b.0 - a.0);
    lemma_square_neg(b.1 - a.1);
    assert(-(b.0 - a.0) == a.0 - b.0);
    assert(-(b.1 - a.1) == a.1 - b.1);
}

/// Costs that are equal as real numbers are the same pair.
pub(crate) proof fn lemma_toll_antisym(a: Toll, b: Toll)
    requires
        toll_le(a, b),
        toll_le(b, a),
    ensures
        a == b,
{
    reveal(surd_nonneg);
    let (p, q) = (b.0 - a.0, b.1 - a.1);
    lemma_square_neg(p);
    lemma_square_neg(q);
    assert(-p == a.0 - b.0);
    assert(-q == a.1 - b.1);
    if p == 0 || q == 0 {
        assert(p == 0 ==> p * p == 0) by (nonlinear_arith);
        if q != 0 {
            assert(q * q > 0) by (nonlinear_arith)
                requires
                    q != 0,
            ;
        }
        if p != 0 {
            assert(p * p > 0) by (nonlinear_arith)
                requires
                    p != 0,
            ;
        }
    } else if p > 0 {
        lemma_root_two_irrational(p, -q);
    } else {
        lemma_root_two_irrational(-p, q);
    }
    assert(p == 0 && q == 0);
}

/// The order on costs is transitive.
pub(crate) proof fn lemma_toll_trans(a: Toll, b: Toll, c: Toll)
    requires
        toll_le(a, b),
        toll_le(b, c),
    ensures
        toll_le(a, c),
{
    lemma_surd_plus(b.0 - a.0, b.1 - a.1, c.0 - b.0, c.1 - b.1);
}

/// Costs add up monotonically.
pub(crate) proof fn lemma_toll_plus_le(a: Toll, b: Toll, c: Toll, d: Toll)
    requires
        toll_le(a, b),
        toll_le(c, d),
    ensures
        toll_le(toll_plus(a, c), toll_plus(b, d)),
{
    lemma_surd_plus(b.0 - a.0, b.1 - a.1, d.0 - c.0, d.1 - c.1);
}

/// A cost held by the search, `(ones + roots * sqrt(2)) / 2`.
#[derive(Clone, Copy, Debug, PartialEq, Eq, Structural)]
pub struct Cost {
    pub ones: i64,
    pub roots: i64,
}

impl View for Cost {
    type V = Toll;

    open spec fn view(&self) -> Toll {
        (self.ones as int, self.roots as int)
    }
}

/// Largest magnitude of a part of a [`Cost`] that can be compared.
pub const COST_PART_MAX: i64 = 0x1_0000_0000_0000;

impl Cost {
    /// Both parts are small enough for sums and comparisons.
    pub open spec fn bounded(self) -> bool {
        -COST_PART_MAX <= self.ones <= COST_PART_MAX && -COST_PART_MAX <= self.roots
            <= COST_PART_MAX
    }

    /// Whether `self <= other`, as real numbers.
    pub fn le(self, other: Cost) -> (r: bool)
        requires
            self.bounded(),
            other.bounded(),
        ensures
            r == toll_le(self@, other@),
    {
        proof {
            reveal(surd_nonneg);
        }
        let p: i128 = other.ones as i128 - self.ones as i128;
        let q: i128 = other.roots as i128 - self.roots as i128;
        assert(-0x2_0000_0000_0000 * 0x2_0000_0000_0000 <= p * p <= 0x2_0000_0000_0000
            * 0x2_0000_0000_0000) by (nonlinear_arith)
            requires
                -0x2_0000_0000_0000 <= p <= 0x2_0000_0000_0000,
        ;
        assert(-0x2_0000_0000_0000 * 0x2_0000_0000_0000 <= q * q <= 0x2_0000_0000_0000
            * 0x2_0000_0000_0000) by (nonlinear_arith)
            requires
                -0x2_0000_0000_0000 <= q <= 0x2_0000_0000_0000,
        ;
        if p >= 0 {
            q >= 0 || p * p >= 2 * (q * q)
        } else {
            q > 0 && p * p <= 2 * (q * q)
        }
    }

    /// Whether `self < other`, as real numbers.
    pub fn lt(self, other: Cost) -> (r: bool)
        requires
            self.bounded(),
            other.bounded(),
        ensures
            r == toll_lt(self@, other@),
    {
        !other.le(self)
    }

    /// The sum of two costs.
    pub fn plus(self, other: Cost) -> (r: Cost)
        requires
            self.bounded(),
            other.bounded(),
        ensures
            r@ == toll_plus(self@, other@),
    {
        Cost { ones: self.ones + other.ones, roots: self.roots + other.roots }
    }
}

/// Costs compare as the numbers they stand for: a sum on both sides does not matter,
/// whole parts and roots each compare by themselves, and a whole part against a root
/// by their squares.
pub proof fn costs_compare_as_numbers(a: Toll, b: Toll, c: Toll, p: int, q: int)
    requires
        p >= 0,
        q >= 0,
    ensures
        toll_le(toll_plus(a, c), toll_plus(b, c)) <==> toll_le(a, b),
        a.1 == b.1 ==> (toll_le(a, b) <==> a.0 <= b.0),
        a.0 == b.0 ==> (toll_le(a, b) <==> a.1 <= b.1),
        toll_le((p, 0), (0, q)) <==> p * p <= 2 * (q * q),
        toll_le((0, q), (p, 0)) <==> 2 * (q * q) <= p * p,
        toll_lt(a, b) <==> !toll_le(b, a),
{
    reveal(surd_nonneg);
    lemma_square_neg(p);
    lemma_square_neg(q);
    lemma_square_neg(b.0 - a.0);
    lemma_square_neg(b.1 - a.1);
    if a.1 == b.1 && b.0 < a.0 {
        assert((b.0 - a.0) * (b.0 - a.0) > 0) by (nonlinear_arith)
            requires
                b.0 < a.0,
        ;
    }
    if a.0 == b.0 && b.1 < a.1 {
        assert(2 * ((b.1 - a.1) * (b.1 - a.1)) > 0) by (nonlinear_arith)
            requires
                b.1 < a.1,
        ;
        assert((b.0 - a.0) * (b.0 - a.0) == 0) by (nonlinear_arith)
            requires
                a.0 == b.0,
        ;
    }
    assert((0 - p) * (0 - p) == p * p) by (nonlinear_arith);
    assert((0 - q) * (0 - q) == q * q) by (nonlinear_arith);
    if p == 0 {
        assert(p * p == 0) by (nonlinear_arith)
            requires
                p == 0,
        ;
    } else {
        assert(p * p > 0) by (nonlinear_arith)
            requires
                p > 0,
        ;
    }
    if q == 0 {
        assert(q * q == 0) by (nonlinear_arith)
            requires
                q == 0,
        ;
    }
    assert(toll_plus(b, c).0 - toll_plus(a, c).0 == b.0 - a.0);
    assert(toll_plus(b, c).1 - toll_plus(a, c).1 == b.1 - a.1);
}

} // verus!
