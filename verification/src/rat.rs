//! Exact rational arithmetic.
//!
//! Every scalar the pipeline computes (densities, interpolation parameters,
//! texture coordinates, positions) is an exact fraction `num / den` with a
//! positive denominator. No reduction is performed, so every operation has an
//! exact component-wise description in terms of the ghost model [`Q`].
use vstd::prelude::*;

verus! {

/// The mathematical model of a rational: an unbounded pair `num / den`.
pub ghost struct Q {
    pub num: int,
    pub den: int,
}

impl Q {
    pub open spec fn wf(self) -> bool {
        self.den >= 1
    }

    /// Magnitude bounds: `|num| <= n` and `1 <= den <= d`.
    pub open spec fn abs_le(self, n: int, d: int) -> bool {
        -n <= self.num <= n && 1 <= self.den <= d
    }
}

/// The integer `n` as a rational.
pub open spec fn qint(n: int) -> Q {
    Q { num: n, den: 1 }
}

pub open spec fn qadd(a: Q, b: Q) -> Q {
    Q { num: a.num * b.den + b.num * a.den, den: a.den * b.den }
}

pub open spec fn qsub(a: Q, b: Q) -> Q {
    Q { num: a.num * b.den - b.num * a.den, den: a.den * b.den }
}

pub open spec fn qmul(a: Q, b: Q) -> Q {
    Q { num: a.num * b.num, den: a.den * b.den }
}

/// Division, with the sign moved into the numerator so the result is
/// well-formed whenever `b.num != 0`.
pub open spec fn qdiv(a: Q, b: Q) -> Q {
    if b.num >= 0 {
        Q { num: a.num * b.den, den: a.den * b.num }
    } else {
        Q { num: -(a.num * b.den), den: -(a.den * b.num) }
    }
}

pub open spec fn qneg(a: Q) -> Q {
    Q { num: -a.num, den: a.den }
}

/// Value equality of two rationals (cross multiplication).
pub open spec fn qeq(a: Q, b: Q) -> bool {
    a.num * b.den == b.num * a.den
}

/// Value order `a <= b` for well-formed rationals.
pub open spec fn qle(a: Q, b: Q) -> bool {
    a.num * b.den <= b.num * a.den
}

/// Value order `a < b` for well-formed rationals.
pub open spec fn qlt(a: Q, b: Q) -> bool {
    a.num * b.den < b.num * a.den
}

pub open spec fn in_i128(x: int) -> bool {
    i128::MIN <= x <= i128::MAX
}

/// All intermediates of an exact addition fit in `i128`.
pub open spec fn qadd_ok(a: Q, b: Q) -> bool {
    in_i128(a.num * b.den) && in_i128(b.num * a.den) && in_i128(
        a.num * b.den + b.num * a.den,
    ) && in_i128(a.den * b.den)
}

/// All intermediates of an exact subtraction fit in `i128`.
pub open spec fn qsub_ok(a: Q, b: Q) -> bool {
    in_i128(a.num * b.den) && in_i128(b.num * a.den) && in_i128(
        a.num * b.den - b.num * a.den,
    ) && in_i128(a.den * b.den)
}

/// All intermediates of an exact multiplication fit in `i128`.
pub open spec fn qmul_ok(a: Q, b: Q) -> bool {
    in_i128(a.num * b.num) && in_i128(a.den * b.den)
}

/// Both cross products of a comparison fit in `i128`.
pub open spec fn qcmp_ok(a: Q, b: Q) -> bool {
    in_i128(a.num * b.den) && in_i128(b.num * a.den)
}

/// An exact rational number with positive denominator.
#[derive(Clone, Copy, Debug)]
pub struct Rat {
    pub num: i128,
    pub den: i128,
}

impl Rat {
    /// The mathematical value of this rational.
    pub open spec fn q(self) -> Q {
        Q { num: self.num as int, den: self.den as int }
    }

    pub open spec fn wf(self) -> bool {
        self.den >= 1
    }

    /// The integer `n` as a rational.
    pub fn from_int(n: i64) -> (r: Rat)
        ensures
            r.q() == qint(n as int),
            r.wf(),
    {
        Rat { num: n as i128, den: 1 }
    }

    /// The fraction `num / den`.
    pub fn frac(num: i64, den: i64) -> (r: Rat)
        requires
            den >= 1,
        ensures
            r.q() == (Q { num: num as int, den: den as int }),
            r.wf(),
    {
        Rat { num: num as i128, den: den as i128 }
    }

    pub fn plus(&self, o: &Rat) -> (r: Rat)
        requires
            self.wf(),
            o.wf(),
            qadd_ok(self.q(), o.q()),
        ensures
            r.q() == qadd(self.q(), o.q()),
            r.wf(),
    {
        proof {
            assert(self.den * o.den >= 1) by (nonlinear_arith)
                requires self.den >= 1, o.den >= 1;
        }
        Rat { num: self.num * o.den + o.num * self.den, den: self.den * o.den }
    }

    pub fn minus(&self, o: &Rat) -> (r: Rat)
        requires
            self.wf(),
            o.wf(),
            qsub_ok(self.q(), o.q()),
        ensures
            r.q() == qsub(self.q(), o.q()),
            r.wf(),
    {
        proof {
            assert(self.den * o.den >= 1) by (nonlinear_arith)
                requires self.den >= 1, o.den >= 1;
        }
        Rat { num: self.num * o.den - o.num * self.den, den: self.den * o.den }
    }

    pub fn times(&self, o: &Rat) -> (r: Rat)
        requires
            self.wf(),
            o.wf(),
            qmul_ok(self.q(), o.q()),
        ensures
            r.q() == qmul(self.q(), o.q()),
            r.wf(),
    {
        proof {
            assert(self.den * o.den >= 1) by (nonlinear_arith)
                requires self.den >= 1, o.den >= 1;
        }
        Rat { num: self.num * o.num, den: self.den * o.den }
    }

    /// Division by a nonzero rational.
    pub fn over(&self, o: &Rat) -> (r: Rat)
        requires
            self.wf(),
            o.wf(),
            o.num != 0,
            qmul_ok(self.q(), Q { num: o.den as int, den: o.num as int }),
            in_i128(-(self.num * o.den)),
            in_i128(-(self.den * o.num)),
        ensures
            r.q() == qdiv(self.q(), o.q()),
            r.wf(),
    {
        proof {
            if o.num >= 1 {
                assert(self.den * o.num >= 1) by (nonlinear_arith)
                    requires self.den >= 1, o.num >= 1;
            } else {
                assert(-(self.den * o.num) >= 1) by (nonlinear_arith)
                    requires self.den >= 1, o.num <= -1;
            }
        }
        if o.num >= 0 {
            Rat { num: self.num * o.den, den: self.den * o.num }
        } else {
            Rat { num: -(self.num * o.den), den: -(self.den * o.num) }
        }
    }

    pub fn neg(&self) -> (r: Rat)
        requires
            self.wf(),
            in_i128(-self.num),
        ensures
            r.q() == qneg(self.q()),
            r.wf(),
    {
        Rat { num: -self.num, den: self.den }
    }

    /// Value comparison `self <= o`.
    pub fn le(&self, o: &Rat) -> (r: bool)
        requires
            self.wf(),
            o.wf(),
            qcmp_ok(self.q(), o.q()),
        ensures
            r == qle(self.q(), o.q()),
    {
        self.num * o.den <= o.num * self.den
    }

    /// Value comparison `self < o`.
    pub fn lt(&self, o: &Rat) -> (r: bool)
        requires
            self.wf(),
            o.wf(),
            qcmp_ok(self.q(), o.q()),
        ensures
            r == qlt(self.q(), o.q()),
    {
        self.num * o.den < o.num * self.den
    }

    /// Value equality `self == o` (as rational numbers).
    pub fn eq_val(&self, o: &Rat) -> (r: bool)
        requires
            self.wf(),
            o.wf(),
            qcmp_ok(self.q(), o.q()),
        ensures
            r == qeq(self.q(), o.q()),
    {
        self.num * o.den == o.num * self.den
    }
}

} // verus!
