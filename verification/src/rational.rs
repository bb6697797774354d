//! Exact rational numbers.
//!
//! `Q` is the specification-level rational: an unbounded integer numerator
//! over a positive unbounded denominator.  Two `Q` values denote the same
//! rational exactly when `q_eq` (cross multiplication) holds; the spec
//! operations `q_add`, `q_sub`, `q_mul`, `q_div` build results without
//! reducing.
//!
//! `Rat` is the executable rational: an `i64` numerator over a positive
//! `i64` denominator.  Arithmetic is exact — each operation computes the
//! unreduced result in `i128` and returns `None` when that result does not
//! fit back into `i64` — so a `Some` result is *structurally* equal to the
//! corresponding spec operation on the views.  `normalize` divides out the
//! greatest common divisor, keeping long chains of stored values small; it
//! returns a value `q_eq` to its input.

use vstd::prelude::*;
use crate::Error;
use vstd::arithmetic::div_mod::lemma_fundamental_div_mod;
use vstd::arithmetic::div_mod::lemma_add_mod_noop;
use vstd::arithmetic::div_mod::lemma_mod_multiples_basic;
use vstd::arithmetic::div_mod::lemma_mod_self_0;
use vstd::arithmetic::div_mod::lemma_small_mod;

verus! {

/// A specification-level rational number: `n / d` with `d > 0`.
pub struct Q {
    pub n: int,
    pub d: int,
}

/// A well-formed spec rational has a positive denominator.
pub open spec fn q_wf(a: Q) -> bool {
    a.d > 0
}

/// The rational with value `i`.
pub open spec fn q_int(i: int) -> Q {
    Q { n: i, d: 1 }
}

pub open spec fn q_zero() -> Q {
    q_int(0)
}

pub open spec fn q_one() -> Q {
    q_int(1)
}

/// `a` and `b` denote the same rational number.
pub open spec fn q_eq(a: Q, b: Q) -> bool {
    a.n * b.d == b.n * a.d
}

/// `a <= b` as rationals (meaningful when both are well-formed).
pub open spec fn q_le(a: Q, b: Q) -> bool {
    a.n * b.d <= b.n * a.d
}

/// `a < b` as rationals (meaningful when both are well-formed).
pub open spec fn q_lt(a: Q, b: Q) -> bool {
    a.n * b.d < b.n * a.d
}

pub open spec fn q_add(a: Q, b: Q) -> Q {
    Q { n: a.n * b.d + b.n * a.d, d: a.d * b.d }
}

pub open spec fn q_sub(a: Q, b: Q) -> Q {
    Q { n: a.n * b.d - b.n * a.d, d: a.d * b.d }
}

pub open spec fn q_mul(a: Q, b: Q) -> Q {
    Q { n: a.n * b.n, d: a.d * b.d }
}

/// Division keeps the denominator positive by moving the divisor's sign
/// into the numerator.  Well-formed only when `b.n != 0`.
pub open spec fn q_div(a: Q, b: Q) -> Q {
    if b.n >= 0 {
        Q { n: a.n * b.d, d: a.d * b.n }
    } else {
        Q { n: -(a.n * b.d), d: a.d * -b.n }
    }
}

/// `x` fits into an `i64`.
pub open spec fn i64_fits(x: int) -> bool {
    i64::MIN <= x <= i64::MAX
}

/// Both components of an unreduced spec rational fit into an `i64`, so
/// the corresponding exact operation succeeds.
pub open spec fn q_fits(a: Q) -> bool {
    i64_fits(a.n) && i64_fits(a.d)
}

/// The views of a sequence of executable rationals.
pub open spec fn q_seq(s: Seq<Rat>) -> Seq<Q> {
    Seq::new(s.len(), |i: int| s[i]@)
}

/// Every entry is a well-formed rational.
pub open spec fn qs_wf(s: Seq<Q>) -> bool {
    forall|i: int| 0 <= i < s.len() ==> q_wf(#[trigger] s[i])
}

/// Every executable entry is well-formed.
pub open spec fn rats_wf(s: Seq<Rat>) -> bool {
    forall|i: int| 0 <= i < s.len() ==> (#[trigger] s[i]).wf()
}

/// The entries are strictly increasing as rationals.
pub open spec fn q_inc(s: Seq<Q>) -> bool {
    forall|i: int| 0 <= i < s.len() - 1 ==> q_lt(#[trigger] s[i], s[i + 1])
}

/// The two levels of well-formedness agree.
pub proof fn lemma_rats_wf(v: Seq<Rat>)
    ensures
        rats_wf(v) <==> qs_wf(q_seq(v)),
{
    if rats_wf(v) {
        assert forall|i: int| 0 <= i < q_seq(v).len() implies q_wf(#[trigger] q_seq(v)[i]) by {
            assert(v[i].wf());
        }
    }
    if qs_wf(q_seq(v)) {
        assert forall|i: int| 0 <= i < v.len() implies (#[trigger] v[i]).wf() by {
            assert(q_wf(q_seq(v)[i]));
        }
    }
}

/// An executable rational number: `num / den` with `den > 0`.
#[derive(Clone, Copy, Debug)]
pub struct Rat {
    pub num: i64,
    pub den: i64,
}

impl View for Rat {
    type V = Q;

    open spec fn view(&self) -> Q {
        Q { n: self.num as int, d: self.den as int }
    }
}

/// A product of an `i64` with a positive `i64` stays strictly inside
/// `+/- 2^126`, so such products and their two-term sums fit in `i128`.
proof fn lemma_nd_prod(a: int, d: int)
    by (nonlinear_arith)
    requires
        -0x8000_0000_0000_0000 <= a <= 0x7fff_ffff_ffff_ffff,
        1 <= d <= 0x7fff_ffff_ffff_ffff,
    ensures
        -0x4000_0000_0000_0000_0000_0000_0000_0000 < a * d
            < 0x4000_0000_0000_0000_0000_0000_0000_0000,
{
}

/// A product of two positive `i64` values is positive and fits in `i128`.
proof fn lemma_dd_prod(a: int, d: int)
    by (nonlinear_arith)
    requires
        1 <= a <= 0x7fff_ffff_ffff_ffff,
        1 <= d <= 0x7fff_ffff_ffff_ffff,
    ensures
        1 <= a * d < 0x4000_0000_0000_0000_0000_0000_0000_0000,
{
}

/// A product of two `i64` values fits in `i128`.
proof fn lemma_nn_prod(a: int, b: int)
    by (nonlinear_arith)
    requires
        -0x8000_0000_0000_0000 <= a <= 0x7fff_ffff_ffff_ffff,
        -0x8000_0000_0000_0000 <= b <= 0x7fff_ffff_ffff_ffff,
    ensures
        -0x8000_0000_0000_0000_0000_0000_0000_0000 <= a * b
            <= 0x4000_0000_0000_0000_0000_0000_0000_0000,
{
}

/// If `m` divides `y`, and `m` divides `x % y`, then `m` divides `x`.
proof fn lemma_mod_transfer(x: int, y: int, m: int)
    requires
        y > 0,
        m > 0,
        y % m == 0,
        (x % y) % m == 0,
    ensures
        x % m == 0,
{
    lemma_fundamental_div_mod(x, y);
    lemma_fundamental_div_mod(y, m);
    let k = y / m;
    assert(y == m * k);
    assert(y * (x / y) == m * (k * (x / y))) by (nonlinear_arith)
        requires y == m * k;
    lemma_mod_multiples_basic(k * (x / y), m);
    lemma_add_mod_noop(y * (x / y), x % y, m);
    lemma_small_mod(0nat, m as nat);
}

/// Euclid's algorithm: a positive common divisor of `a` and `b`.
fn gcd_i128(a: i128, b: i128) -> (g: i128)
    requires
        0 <= a,
        0 < b,
    ensures
        0 < g,
        a as int % g as int == 0,
        b as int % g as int == 0,
        a == 0 ==> g == b,
{
    let mut x = a;
    let mut y = b;
    while x != 0
        invariant
            0 <= x,
            0 < y,
            a == 0 ==> x == a && y == b,
            forall|m: int|
                m > 0 && #[trigger] (x as int % m) == 0 && y as int % m == 0 ==> a as int % m
                    == 0 && b as int % m == 0,
        decreases x,
    {
        let r = y % x;
        proof {
            assert forall|m: int|
                m > 0 && #[trigger] (r as int % m) == 0 && x as int % m == 0 implies a as int
                % m == 0 && b as int % m == 0 by {
                lemma_mod_transfer(y as int, x as int, m);
            }
        }
        y = x;
        x = r;
    }
    proof {
        lemma_mod_self_0(y as int);
        lemma_small_mod(0nat, y as nat);
    }
    y
}

impl Rat {
    /// A well-formed executable rational has a positive denominator.
    pub open spec fn wf(self) -> bool {
        self.den > 0
    }

    /// The rational `num / den`.
    pub fn new(num: i64, den: i64) -> (r: Rat)
        requires
            den > 0,
        ensures
            r@ == (Q { n: num as int, d: den as int }),
            r.wf(),
    {
        Rat { num, den }
    }

    /// The rational with integer value `i`.
    pub fn from_int(i: i64) -> (r: Rat)
        ensures
            r@ == q_int(i as int),
            r.wf(),
    {
        Rat { num: i, den: 1 }
    }

    /// Whether the value is exactly zero.
    pub fn is_zero(&self) -> (r: bool)
        ensures
            r == q_eq(self@, q_zero()),
    {
        self.num == 0
    }

    /// Exact comparison: `self <= rhs`.
    pub fn le(&self, rhs: &Rat) -> (r: bool)
        requires
            self.wf(),
            rhs.wf(),
        ensures
            r == q_le(self@, rhs@),
    {
        proof {
            lemma_nd_prod(self.num as int, rhs.den as int);
            lemma_nd_prod(rhs.num as int, self.den as int);
        }
        (self.num as i128) * (rhs.den as i128) <= (rhs.num as i128) * (self.den as i128)
    }

    /// Exact comparison: `self < rhs`.
    pub fn lt(&self, rhs: &Rat) -> (r: bool)
        requires
            self.wf(),
            rhs.wf(),
        ensures
            r == q_lt(self@, rhs@),
    {
        proof {
            lemma_nd_prod(self.num as int, rhs.den as int);
            lemma_nd_prod(rhs.num as int, self.den as int);
        }
        (self.num as i128) * (rhs.den as i128) < (rhs.num as i128) * (self.den as i128)
    }

    /// Exact equality of values: `self == rhs` as rationals.
    pub fn eq_val(&self, rhs: &Rat) -> (r: bool)
        requires
            self.wf(),
            rhs.wf(),
        ensures
            r == q_eq(self@, rhs@),
    {
        proof {
            lemma_nd_prod(self.num as int, rhs.den as int);
            lemma_nd_prod(rhs.num as int, self.den as int);
        }
        (self.num as i128) * (rhs.den as i128) == (rhs.num as i128) * (self.den as i128)
    }

    /// Exact addition; `None` when the unreduced result leaves `i64`.
    pub fn add(self, rhs: Rat) -> (r: Option<Rat>)
        requires
            self.wf(),
            rhs.wf(),
        ensures
            r matches Some(v) ==> v@ == q_add(self@, rhs@) && v.wf(),
            r is Some <==> i64_fits(q_add(self@, rhs@).n) && i64_fits(q_add(self@, rhs@).d),
    {
        proof {
            lemma_nd_prod(self.num as int, rhs.den as int);
            lemma_nd_prod(rhs.num as int, self.den as int);
            lemma_dd_prod(self.den as int, rhs.den as int);
        }
        let nn: i128 = (self.num as i128) * (rhs.den as i128) + (rhs.num as i128) * (self.den
            as i128);
        let dd: i128 = (self.den as i128) * (rhs.den as i128);
        if i64::MIN as i128 <= nn && nn <= i64::MAX as i128 && dd <= i64::MAX as i128 {
            Some(Rat { num: nn as i64, den: dd as i64 })
        } else {
            None
        }
    }

    /// Exact subtraction; `None` when the unreduced result leaves `i64`.
    pub fn sub(self, rhs: Rat) -> (r: Option<Rat>)
        requires
            self.wf(),
            rhs.wf(),
        ensures
            r matches Some(v) ==> v@ == q_sub(self@, rhs@) && v.wf(),
            r is Some <==> i64_fits(q_sub(self@, rhs@).n) && i64_fits(q_sub(self@, rhs@).d),
    {
        proof {
            lemma_nd_prod(self.num as int, rhs.den as int);
            lemma_nd_prod(rhs.num as int, self.den as int);
            lemma_dd_prod(self.den as int, rhs.den as int);
        }
        let nn: i128 = (self.num as i128) * (rhs.den as i128) - (rhs.num as i128) * (self.den
            as i128);
        let dd: i128 = (self.den as i128) * (rhs.den as i128);
        if i64::MIN as i128 <= nn && nn <= i64::MAX as i128 && dd <= i64::MAX as i128 {
            Some(Rat { num: nn as i64, den: dd as i64 })
        } else {
            None
        }
    }

    /// Exact multiplication; `None` when the unreduced result leaves `i64`.
    pub fn mul(self, rhs: Rat) -> (r: Option<Rat>)
        requires
            self.wf(),
            rhs.wf(),
        ensures
            r matches Some(v) ==> v@ == q_mul(self@, rhs@) && v.wf(),
            r is Some <==> i64_fits(q_mul(self@, rhs@).n) && i64_fits(q_mul(self@, rhs@).d),
    {
        proof {
            lemma_nn_prod(self.num as int, rhs.num as int);
            lemma_dd_prod(self.den as int, rhs.den as int);
        }
        let nn: i128 = (self.num as i128) * (rhs.num as i128);
        let dd: i128 = (self.den as i128) * (rhs.den as i128);
        if i64::MIN as i128 <= nn && nn <= i64::MAX as i128 && dd <= i64::MAX as i128 {
            Some(Rat { num: nn as i64, den: dd as i64 })
        } else {
            None
        }
    }

    /// Exact division; the divisor must be nonzero.  `None` when the
    /// unreduced result leaves `i64`.
    pub fn div(self, rhs: Rat) -> (r: Option<Rat>)
        requires
            self.wf(),
            rhs.wf(),
            rhs@.n != 0,
        ensures
            r matches Some(v) ==> v@ == q_div(self@, rhs@) && v.wf(),
            r is Some <==> i64_fits(q_div(self@, rhs@).n) && i64_fits(q_div(self@, rhs@).d),
    {
        proof {
            lemma_nd_prod(self.num as int, rhs.den as int);
            lemma_nd_prod(rhs.num as int, self.den as int);
            assert(rhs.num as int * self.den as int == self.den as int * rhs.num as int)
                by (nonlinear_arith);
            assert(self.den as int * -(rhs.num as int) == -(self.den as int * rhs.num as int))
                by (nonlinear_arith);
            assert(rhs.num > 0 ==> self.den as int * rhs.num as int >= 1) by (nonlinear_arith)
                requires self.den as int >= 1;
            assert(rhs.num < 0 ==> self.den as int * rhs.num as int <= -1) by (nonlinear_arith)
                requires self.den as int >= 1;
        }
        let pn: i128 = (self.num as i128) * (rhs.den as i128);
        let pd: i128 = (self.den as i128) * (rhs.num as i128);
        let nn: i128 = if rhs.num >= 0 { pn } else { -pn };
        let dd: i128 = if rhs.num >= 0 { pd } else { -pd };
        if i64::MIN as i128 <= nn && nn <= i64::MAX as i128 && dd <= i64::MAX as i128 {
            Some(Rat { num: nn as i64, den: dd as i64 })
        } else {
            None
        }
    }

    /// Divide out the greatest common divisor.  Always succeeds and keeps
    /// the value: the result is `q_eq` to the input.
    pub fn normalize(self) -> (r: Rat)
        requires
            self.wf(),
        ensures
            r.wf(),
            q_eq(r@, self@),
            self.num == 0 ==> r@ == q_zero(),
    {
        let neg = self.num < 0;
        let m: i128 = if neg {
            -(self.num as i128)
        } else {
            self.num as i128
        };
        let d: i128 = self.den as i128;
        let g = gcd_i128(m, d);
        let mr = m / g;
        let dr = d / g;
        proof {
            if self.num == 0 {
                vstd::arithmetic::div_mod::lemma_div_of0(g as int);
                vstd::arithmetic::div_mod::lemma_div_by_self(g as int);
            }
            lemma_fundamental_div_mod(m as int, g as int);
            lemma_fundamental_div_mod(d as int, g as int);
            assert(m as int == g as int * (mr as int));
            assert(d as int == g as int * (dr as int));
            assert(0 <= mr as int <= m as int && 1 <= dr as int <= d as int)
                by (nonlinear_arith)
                requires
                    m as int == g as int * (mr as int),
                    d as int == g as int * (dr as int),
                    g as int > 0,
                    m as int >= 0,
                    d as int > 0;
            assert(mr as int * (self.den as int) == (if neg { -(m as int) } else { m as int })
                * (dr as int) * (if neg { -1int } else { 1int })) by (nonlinear_arith)
                requires
                    m as int == g as int * (mr as int),
                    self.den as int == g as int * (dr as int);
        }
        let num2: i64 = if neg {
            (-mr) as i64
        } else {
            mr as i64
        };
        let r = Rat { num: num2, den: dr as i64 };
        proof {
            assert(r@.n * self@.d == self@.n * r@.d) by (nonlinear_arith)
                requires
                    m as int == g as int * (mr as int),
                    self.den as int == g as int * (dr as int),
                    r@.d == dr as int,
                    r@.n == if neg { -(mr as int) } else { mr as int },
                    self@.n == if neg { -(m as int) } else { m as int },
                    self@.d == self.den as int;
        }
        r
    }
}

/// Turn an arithmetic overflow into the library's numerical-failure error.
pub fn checked(o: Option<Rat>) -> (r: Result<Rat, Error>)
    ensures
        r matches Ok(v) ==> o == Some(v),
        r is Err <==> o is None,
        r matches Err(e) ==> e == Error::NumericalFailure,
{
    match o {
        Some(v) => Ok(v),
        None => Err(Error::NumericalFailure),
    }
}

/// A vector of `n` exact zeros.
pub fn rat_zeros(n: usize) -> (v: Vec<Rat>)
    ensures
        v@.len() == n,
        forall|i: int| 0 <= i < n ==> (#[trigger] v@[i])@ == q_zero() && v@[i].wf(),
{
    let mut v: Vec<Rat> = Vec::new();
    let mut k: usize = 0;
    while k < n
        invariant
            k <= n,
            v@.len() == k,
            forall|i: int| 0 <= i < k ==> (#[trigger] v@[i])@ == q_zero() && v@[i].wf(),
        decreases n - k,
    {
        v.push(Rat::from_int(0));
        k = k + 1;
    }
    v
}

} // verus!
