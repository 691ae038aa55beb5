//! Dual numbers `real + eps·ε` with `ε² = 0`: carrying a derivative along with a
//! value, so that every arithmetic step applies the matching differentiation rule.
use vstd::prelude::*;
use std::ops::{Add, Div, Mul, Neg, Sub};
use vstd::std_specs::ops::{AddSpec, DivSpec, MulSpec, NegSpec, SubSpec};
use vstd::std_specs::cmp::PartialEqSpec;
use crate::matrix::Matrix;
use crate::arith::{Arith, add_total, exact, mul_total, sub_total, total};

verus! {

/// A dual number: `real` is the value, `eps` the derivative carried along with it.
#[derive(Clone, Copy, PartialEq, Debug)]
pub struct Dual<T> {
    pub real: T,
    pub eps: T,
}

impl<T: Add<Output = T>> Add for Dual<T> {
    type Output = Dual<T>;

    /// Sum rule: values and derivatives add componentwise.
    fn add(self, rhs: Self) -> (r: Dual<T>) {
        Dual { real: self.real + rhs.real, eps: self.eps + rhs.eps }
    }
}

impl<T: Add<Output = T>> vstd::std_specs::ops::AddSpecImpl for Dual<T> {
    open spec fn obeys_add_spec() -> bool {
        T::obeys_add_spec()
    }

    open spec fn add_req(self, rhs: Dual<T>) -> bool {
        self.real.add_req(rhs.real) && self.eps.add_req(rhs.eps)
    }

    open spec fn add_spec(self, rhs: Dual<T>) -> Dual<T> {
        Dual { real: self.real.add_spec(rhs.real), eps: self.eps.add_spec(rhs.eps) }
    }
}


impl<T: Sub<Output = T>> Sub for Dual<T> {
    type Output = Dual<T>;

    /// Difference rule: values and derivatives subtract componentwise.
    fn sub(self, rhs: Self) -> (r: Dual<T>) {
        Dual { real: self.real - rhs.real, eps: self.eps - rhs.eps }
    }
}

impl<T: Sub<Output = T>> vstd::std_specs::ops::SubSpecImpl for Dual<T> {
    open spec fn obeys_sub_spec() -> bool {
        T::obeys_sub_spec()
    }

    open spec fn sub_req(self, rhs: Dual<T>) -> bool {
        self.real.sub_req(rhs.real) && self.eps.sub_req(rhs.eps)
    }

    open spec fn sub_spec(self, rhs: Dual<T>) -> Dual<T> {
        Dual { real: self.real.sub_spec(rhs.real), eps: self.eps.sub_spec(rhs.eps) }
    }
}

/// The value part of a product `a·b`.
pub open spec fn product_real<T: Mul<Output = T>>(a: Dual<T>, b: Dual<T>) -> T {
    a.real.mul_spec(b.real)
}

/// The derivative part of a product `a·b` (product rule): `a.real·b.eps + a.eps·b.real`.
pub open spec fn product_eps<T: Mul<Output = T> + Add<Output = T>>(a: Dual<T>, b: Dual<T>) -> T {
    a.real.mul_spec(b.eps).add_spec(a.eps.mul_spec(b.real))
}

impl<T: Mul<Output = T> + Add<Output = T> + Copy> Mul for Dual<T> {
    type Output = Dual<T>;

    /// Product rule: `(a + a'ε)(b + b'ε) = ab + (a b' + a' b)ε`.
    fn mul(self, rhs: Self) -> (r: Dual<T>) {
        let left = self.real * rhs.eps;
        let right = self.eps * rhs.real;
        Dual { real: self.real * rhs.real, eps: left + right }
    }
}

impl<T: Mul<Output = T> + Add<Output = T> + Copy> vstd::std_specs::ops::MulSpecImpl for Dual<T> {
    open spec fn obeys_mul_spec() -> bool {
        T::obeys_mul_spec() && T::obeys_add_spec()
    }

    open spec fn mul_req(self, rhs: Dual<T>) -> bool {
        &&& self.real.mul_req(rhs.real)
        &&& self.real.mul_req(rhs.eps)
        &&& self.eps.mul_req(rhs.real)
        &&& if T::obeys_mul_spec() {
            self.real.mul_spec(rhs.eps).add_req(self.eps.mul_spec(rhs.real))
        } else {
            add_total::<T>()
        }
    }

    open spec fn mul_spec(self, rhs: Dual<T>) -> Dual<T> {
        Dual { real: product_real(self, rhs), eps: product_eps(self, rhs) }
    }
}

/// The value part of a quotient `a / b`.
pub open spec fn quotient_real<T: Div<Output = T>>(a: Dual<T>, b: Dual<T>) -> T {
    a.real.div_spec(b.real)
}

/// The derivative part of a quotient `a / b` (quotient rule):
/// `(a.eps·b.real − a.real·b.eps) / (b.real·b.real)`.
pub open spec fn quotient_eps<T: Mul<Output = T> + Div<Output = T> + Sub<Output = T>>(
    a: Dual<T>,
    b: Dual<T>,
) -> T {
    a.eps.mul_spec(b.real).sub_spec(a.real.mul_spec(b.eps)).div_spec(b.real.mul_spec(b.real))
}

impl<T: Mul<Output = T> + Div<Output = T> + Sub<Output = T> + Copy> Div for Dual<T> {
    type Output = Dual<T>;

    /// Quotient rule: `(a + a'ε)/(b + b'ε) = a/b + ((a' b − a b') / b²)ε`.
    fn div(self, rhs: Dual<T>) -> (r: Dual<T>) {
        let p = self.eps * rhs.real;
        let q = self.real * rhs.eps;
        let num = p - q;
        let den = rhs.real * rhs.real;
        Dual { real: self.real / rhs.real, eps: num / den }
    }
}

impl<T: Mul<Output = T> + Div<Output = T> + Sub<Output = T> + Copy> vstd::std_specs::ops::DivSpecImpl for Dual<T> {
    open spec fn obeys_div_spec() -> bool {
        T::obeys_div_spec() && T::obeys_mul_spec() && T::obeys_sub_spec()
    }

    open spec fn div_req(self, rhs: Dual<T>) -> bool {
        &&& self.real.div_req(rhs.real)
        &&& self.eps.mul_req(rhs.real)
        &&& self.real.mul_req(rhs.eps)
        &&& rhs.real.mul_req(rhs.real)
        &&& if T::obeys_mul_spec() && T::obeys_sub_spec() {
            &&& self.eps.mul_spec(rhs.real).sub_req(self.real.mul_spec(rhs.eps))
            &&& self.eps.mul_spec(rhs.real).sub_spec(self.real.mul_spec(rhs.eps)).div_req(
                rhs.real.mul_spec(rhs.real),
            )
        } else {
            &&& sub_total::<T>()
            &&& forall|a: T, b: T| #[trigger] a.div_req(b)
        }
    }

    open spec fn div_spec(self, rhs: Dual<T>) -> Dual<T> {
        Dual { real: quotient_real(self, rhs), eps: quotient_eps(self, rhs) }
    }
}

/// What `sin` returns, given `sin(x.real)` and `cos(x.real)`: `sin_real + x.eps·cos_real·ε`.
pub open spec fn sin_dual<T: Mul<Output = T>>(x: Dual<T>, sin_real: T, cos_real: T) -> Dual<T> {
    Dual { real: sin_real, eps: x.eps.mul_spec(cos_real) }
}

/// What `cos` returns, given `cos(x.real)` and `sin(x.real)`: `cos_real + x.eps·(−sin_real)·ε`.
pub open spec fn cos_dual<T: Mul<Output = T> + Neg<Output = T>>(x: Dual<T>, cos_real: T, sin_real: T) -> Dual<T> {
    Dual { real: cos_real, eps: x.eps.mul_spec(sin_real.neg_spec()) }
}

/// What `ln` returns, given `ln(x.real)`: `ln_real + (x.eps / x.real)·ε`.
pub open spec fn ln_dual<T: Div<Output = T>>(x: Dual<T>, ln_real: T) -> Dual<T> {
    Dual { real: ln_real, eps: x.eps.div_spec(x.real) }
}

/// What `powi` and `powf` return, given `n`, `x.real^n` and `x.real^(n−1)`:
/// `pow_n + (n·pow_n_minus_1·x.eps)·ε`.
pub open spec fn power_dual<T: Mul<Output = T>>(x: Dual<T>, n: T, pow_n: T, pow_n_minus_1: T) -> Dual<T> {
    Dual { real: pow_n, eps: n.mul_spec(pow_n_minus_1).mul_spec(x.eps) }
}

/// What `exp` returns, given `exp(x.real)`: `exp_real + (exp_real·x.eps)·ε`.
pub open spec fn exp_dual<T: Mul<Output = T>>(x: Dual<T>, exp_real: T) -> Dual<T> {
    Dual { real: exp_real, eps: exp_real.mul_spec(x.eps) }
}

impl<T: Copy> Dual<T> {
    /// The dual number whose value and derivative are both `zero`, the additive
    /// identity of `Dual<T>` when `zero` is that of `T`.
    pub fn zero(zero: T) -> (r: Dual<T>)
        ensures
            r.real == zero,
            r.eps == zero,
    {
        Dual { real: zero, eps: zero }
    }

    /// A constant: the value `value`, carrying the derivative `zero`.
    /// Lifts the result of a conversion into `T`, keeping its absence.
    pub fn from_converted(value: Option<T>, zero: T) -> (r: Option<Dual<T>>)
        ensures
            value is None <==> r is None,
            value is Some ==> r == Some(Dual { real: value->0, eps: zero }),
    {
        match value {
            Some(v) => Some(Dual { real: v, eps: zero }),
            None => None,
        }
    }

    /// Whether both parts equal `zero`.
    pub fn is_zero(&self, zero: &T) -> (r: bool)
        where T: PartialEq,
        ensures
            T::obeys_eq_spec() ==> r == (self.real.eq_spec(zero) && self.eps.eq_spec(zero)),
    {
        self.real == *zero && self.eps == *zero
    }

    /// Multiplies both parts by a scalar `rhs` (a constant factor scales the derivative).
    pub fn mul_scalar<S: Copy>(self, rhs: S) -> (r: Dual<T>)
        where T: Mul<S, Output = T>,
        requires
            self.real.mul_req(rhs),
            self.eps.mul_req(rhs),
        ensures
            T::obeys_mul_spec() ==> r.real == self.real.mul_spec(rhs),
            T::obeys_mul_spec() ==> r.eps == self.eps.mul_spec(rhs),
    {
        Dual { real: self.real * rhs, eps: self.eps * rhs }
    }

    /// Subtracts a scalar `rhs` from the value; the derivative of a constant
    /// shift is unchanged.
    pub fn sub_scalar<S>(self, rhs: S) -> (r: Dual<T>)
        where T: Sub<S, Output = T>,
        requires
            self.real.sub_req(rhs),
        ensures
            T::obeys_sub_spec() ==> r.real == self.real.sub_spec(rhs),
            r.eps == self.eps,
    {
        Dual { real: self.real - rhs, eps: self.eps }
    }

    /// Chain rule for `sin`: given `sin_real = sin(self.real)` and
    /// `cos_real = cos(self.real)`, returns `sin(self.real) + self.eps·cos(self.real)·ε`.
    pub fn sin(self, sin_real: T, cos_real: T) -> (r: Dual<T>)
        where T: Mul<Output = T>,
        requires
            self.eps.mul_req(cos_real),
        ensures
            r.real == sin_real,
            T::obeys_mul_spec() ==> r.eps == self.eps.mul_spec(cos_real),
            T::obeys_mul_spec() ==> r == sin_dual(self, sin_real, cos_real),
    {
        Dual { real: sin_real, eps: self.eps * cos_real }
    }

    /// Chain rule for `cos`: given `cos_real = cos(self.real)` and
    /// `sin_real = sin(self.real)`, returns `cos(self.real) + self.eps·(−sin(self.real))·ε`.
    pub fn cos(self, cos_real: T, sin_real: T) -> (r: Dual<T>)
        where T: Mul<Output = T> + Neg<Output = T>,
        requires
            sin_real.neg_req(),
            T::obeys_neg_spec() ==> self.eps.mul_req(sin_real.neg_spec()),
            !T::obeys_neg_spec() ==> forall|b: T| #[trigger] self.eps.mul_req(b),
        ensures
            r.real == cos_real,
            T::obeys_mul_spec() && T::obeys_neg_spec() ==> r.eps == self.eps.mul_spec(
                sin_real.neg_spec(),
            ),
            T::obeys_mul_spec() && T::obeys_neg_spec() ==> r == cos_dual(self, cos_real, sin_real),
    {
        let minus_sin = sin_real.neg();
        Dual { real: cos_real, eps: self.eps * minus_sin }
    }

    /// Chain rule for `ln`: given `ln_real = ln(self.real)`, returns
    /// `ln(self.real) + (self.eps / self.real)·ε`.
    pub fn ln(self, ln_real: T) -> (r: Dual<T>)
        where T: Div<Output = T>,
        requires
            self.eps.div_req(self.real),
        ensures
            r.real == ln_real,
            T::obeys_div_spec() ==> r.eps == self.eps.div_spec(self.real),
            T::obeys_div_spec() ==> r == ln_dual(self, ln_real),
    {
        Dual { real: ln_real, eps: self.eps / self.real }
    }

    /// Chain rule for an integer power `x^n`: given `n` as a `T`,
    /// `pow_n = self.real^n` and `pow_n_minus_1 = self.real^(n−1)`, returns
    /// `self.real^n + (n·self.real^(n−1)·self.eps)·ε`.
    pub fn powi(self, n: T, pow_n: T, pow_n_minus_1: T) -> (r: Dual<T>)
        where T: Mul<Output = T>,
        requires
            n.mul_req(pow_n_minus_1),
            T::obeys_mul_spec() ==> n.mul_spec(pow_n_minus_1).mul_req(self.eps),
            !T::obeys_mul_spec() ==> mul_total::<T>(),
        ensures
            r.real == pow_n,
            T::obeys_mul_spec() ==> r.eps == n.mul_spec(pow_n_minus_1).mul_spec(self.eps),
            T::obeys_mul_spec() ==> r == power_dual(self, n, pow_n, pow_n_minus_1),
    {
        let factor = n * pow_n_minus_1;
        Dual { real: pow_n, eps: factor * self.eps }
    }

    /// Chain rule for a real power `x^n`: given `pow_n = self.real^n` and
    /// `pow_n_minus_1 = self.real^(n−1)`, returns
    /// `self.real^n + (n·self.real^(n−1)·self.eps)·ε`.
    pub fn powf(self, n: T, pow_n: T, pow_n_minus_1: T) -> (r: Dual<T>)
        where T: Mul<Output = T>,
        requires
            n.mul_req(pow_n_minus_1),
            T::obeys_mul_spec() ==> n.mul_spec(pow_n_minus_1).mul_req(self.eps),
            !T::obeys_mul_spec() ==> mul_total::<T>(),
        ensures
            r.real == pow_n,
            T::obeys_mul_spec() ==> r.eps == n.mul_spec(pow_n_minus_1).mul_spec(self.eps),
            T::obeys_mul_spec() ==> r == power_dual(self, n, pow_n, pow_n_minus_1),
    {
        let factor = n * pow_n_minus_1;
        Dual { real: pow_n, eps: factor * self.eps }
    }

    /// Chain rule for `exp`: given `exp_real = exp(self.real)`, returns
    /// `exp(self.real) + (exp(self.real)·self.eps)·ε`.
    pub fn exp(self, exp_real: T) -> (r: Dual<T>)
        where T: Mul<Output = T>,
        requires
            exp_real.mul_req(self.eps),
        ensures
            r.real == exp_real,
            T::obeys_mul_spec() ==> r.eps == exp_real.mul_spec(self.eps),
            T::obeys_mul_spec() ==> r == exp_dual(self, exp_real),
    {
        Dual { real: exp_real, eps: exp_real * self.eps }
    }
}


/// `v` taken as constants: every entry `x` becomes `x + zero·ε`.
pub open spec fn constants<T>(v: Seq<T>, zero: T) -> Seq<Dual<T>> {
    Seq::new(v.len(), |i: int| Dual { real: v[i], eps: zero })
}

/// Every entry of `v` taken as a constant `x + zero·ε`.
pub fn lift_vec<T: Copy>(v: &Vec<T>, zero: T) -> (r: Vec<Dual<T>>)
    ensures
        r@ == constants(v@, zero),
{
    let mut out: Vec<Dual<T>> = Vec::new();
    let mut k: usize = 0;
    while k < v.len()
        invariant
            k <= v@.len(),
            out@ == constants(v@, zero).subrange(0, k as int),
        decreases v@.len() - k,
    {
        out.push(Dual { real: v[k], eps: zero });
        k += 1;
        assert(out@ =~= constants(v@, zero).subrange(0, k as int));
    }
    assert(out@ =~= constants(v@, zero));
    out
}

/// Every entry of `d` taken as a constant `x + zero·ε`.
pub fn lift_matrix<T: Copy>(d: &Matrix<T>, zero: T) -> (r: Matrix<Dual<T>>)
    requires
        d.wf(),
    ensures
        r.wf(),
        r.ncols == d.ncols,
        r@.len() == d@.len(),
        forall|i: int| 0 <= i < d@.len() ==> #[trigger] r@[i] == constants(d@[i], zero),
{
    let mut rows: Vec<Vec<Dual<T>>> = Vec::new();
    let mut i: usize = 0;
    while i < d.rows.len()
        invariant
            d.wf(),
            i <= d@.len(),
            rows@.len() == i,
            forall|a: int| 0 <= a < i ==> (#[trigger] rows@[a])@ == constants(d@[a], zero),
        decreases d@.len() - i,
    {
        assert(d.rows@[i as int]@ == d@[i as int]);
        rows.push(lift_vec(&d.rows[i], zero));
        i += 1;
    }
    let r = Matrix { ncols: d.ncols, rows };
    assert forall|a: int| 0 <= a < r@.len() implies #[trigger] r@[a] == rows@[a]@ by {}
    r
}

/// When the ring operations of `T` are defined everywhere, so are those of `Dual<T>`.
pub proof fn lemma_dual_total<T: Arith>()
    requires
        total::<T>(),
    ensures
        total::<Dual<T>>(),
{
}

/// When the ring operations of `T` compute their specifications, so do those of `Dual<T>`.
pub proof fn lemma_dual_exact<T: Arith>()
    requires
        exact::<T>(),
    ensures
        exact::<Dual<T>>(),
{
}

} // verus!
