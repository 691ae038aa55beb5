//! Identities of dual-number arithmetic: the chain rules that `Dual` applies
//! agree with the product and quotient rules, for a scalar type whose
//! operations obey the laws of a field and for values of the elementary
//! functions that obey their own identities. The functions themselves
//! (`sin`, `cos`, `exp`, `ln`, powers) are computed by the caller; these
//! lemmas say what their dual extensions then satisfy.
use vstd::prelude::*;
use vstd::std_specs::ops::{AddSpec, DivSpec, MulSpec, NegSpec, SubSpec};
use crate::arith::{Arith, FieldOps};
use crate::dual::{Dual, cos_dual, exp_dual, ln_dual, power_dual, sin_dual};

verus! {

/// `one` is a unit for `·` on the left.
pub open spec fn left_unit<T: Arith>(one: T) -> bool {
    forall|a: T| #[trigger] one.mul_spec(a) == a
}

/// `·` is commutative.
#[verifier::opaque]
pub open spec fn mul_commutes<T: Arith>() -> bool {
    forall|a: T, b: T| #[trigger] a.mul_spec(b) == b.mul_spec(a)
}

/// `·` is associative.
#[verifier::opaque]
pub open spec fn mul_associates<T: Arith>() -> bool {
    forall|a: T, b: T, c: T| #[trigger] a.mul_spec(b).mul_spec(c) == a.mul_spec(b.mul_spec(c))
}

/// `·` distributes over `+` (on the right).
#[verifier::opaque]
pub open spec fn distributes<T: Arith>() -> bool {
    forall|a: T, b: T, c: T| #[trigger] a.add_spec(b).mul_spec(c) == a.mul_spec(c).add_spec(b.mul_spec(c))
}

/// `+` is commutative and associative.
#[verifier::opaque]
pub open spec fn add_commutes_associates<T: Arith>() -> bool {
    &&& forall|a: T, b: T| #[trigger] a.add_spec(b) == b.add_spec(a)
    &&& forall|a: T, b: T, c: T| #[trigger] a.add_spec(b).add_spec(c) == a.add_spec(b.add_spec(c))
}

/// `zero` is the unit of `+`, `−a` its inverse, `a − b` is `a + (−b)`, and
/// negation moves out of a product.
#[verifier::opaque]
pub open spec fn additive_group<T: FieldOps>(zero: T) -> bool {
    &&& forall|a: T| #[trigger] a.add_spec(zero) == a
    &&& forall|a: T| #[trigger] a.add_spec(a.neg_spec()) == zero
    &&& forall|a: T, b: T| #[trigger] a.sub_spec(b) == a.add_spec(b.neg_spec())
    &&& forall|a: T, b: T| #[trigger] a.mul_spec(b.neg_spec()) == a.mul_spec(b).neg_spec()
}

/// Dividing by a nonzero `q` undoes multiplying by it, and a product of
/// nonzero values is nonzero.
pub open spec fn cancels<T: FieldOps>(zero: T) -> bool {
    &&& forall|p: T, q: T| q != zero ==> #[trigger] p.mul_spec(q).div_spec(q) == p
    &&& forall|p: T, q: T| p != zero && q != zero ==> #[trigger] p.mul_spec(q) != zero
}

/// The power rule with exponent one gives `x` back: `x^1 = x`, when `one` is a
/// unit for `·`.
pub proof fn lemma_power_one<T: Arith>(x: Dual<T>, one: T)
    requires
        left_unit(one),
    ensures
        power_dual(x, one, x.real, one) == x,
{
    assert(one.mul_spec(one) == one);
    assert(one.mul_spec(x.eps) == x.eps);
}

/// The power rule with exponent two agrees with the product rule:
/// `x^2 = x·x`, in value and derivative.
pub proof fn lemma_power_two<T: Arith>(x: Dual<T>, one: T)
    requires
        left_unit(one),
        mul_commutes::<T>(),
        distributes::<T>(),
    ensures
        power_dual(x, one.add_spec(one), x.real.mul_spec(x.real), x.real) == x.mul_spec(x),
{
    reveal(mul_commutes);
    reveal(distributes);
    let a = x.real;
    let b = x.eps;
    assert(one.add_spec(one).mul_spec(a) == one.mul_spec(a).add_spec(one.mul_spec(a)));
    assert(a.add_spec(a).mul_spec(b) == a.mul_spec(b).add_spec(a.mul_spec(b)));
    assert(b.mul_spec(a) == a.mul_spec(b));
}

/// The power rule with exponent three agrees with the product rule:
/// `x^3 = (x·x)·x`, in value and derivative.
pub proof fn lemma_power_three<T: Arith>(x: Dual<T>, one: T)
    requires
        left_unit(one),
        mul_commutes::<T>(),
        mul_associates::<T>(),
        distributes::<T>(),
        add_commutes_associates::<T>(),
    ensures
        power_dual(
            x,
            one.add_spec(one).add_spec(one),
            x.real.mul_spec(x.real).mul_spec(x.real),
            x.real.mul_spec(x.real),
        ) == x.mul_spec(x).mul_spec(x),
{
    reveal(mul_commutes);
    reveal(mul_associates);
    reveal(distributes);
    reveal(add_commutes_associates);
    let a = x.real;
    let b = x.eps;
    let aa = a.mul_spec(a);
    let t = aa.mul_spec(b);
    // n·a² = a² + a² + a²
    assert(one.add_spec(one).mul_spec(aa) == one.mul_spec(aa).add_spec(one.mul_spec(aa)));
    assert(one.add_spec(one).add_spec(one).mul_spec(aa) == one.add_spec(one).mul_spec(aa).add_spec(
        one.mul_spec(aa),
    ));
    // (a² + a² + a²)·b = t + t + t
    assert(aa.add_spec(aa).mul_spec(b) == t.add_spec(t));
    assert(aa.add_spec(aa).add_spec(aa).mul_spec(b) == aa.add_spec(aa).mul_spec(b).add_spec(t));
    // the product rule: a²·b + (a·b + b·a)·a, where (a·b)·a = (b·a)·a = t
    assert(a.mul_spec(b).mul_spec(a) == a.mul_spec(b.mul_spec(a)));
    assert(b.mul_spec(a) == a.mul_spec(b));
    assert(a.mul_spec(a.mul_spec(b)) == aa.mul_spec(b));
    assert(a.mul_spec(b).add_spec(b.mul_spec(a)).mul_spec(a) == a.mul_spec(b).mul_spec(a).add_spec(
        b.mul_spec(a).mul_spec(a),
    ));
    assert(t.add_spec(t).add_spec(t) == t.add_spec(t.add_spec(t)));
}

/// The exponential turns sums into products also on dual numbers: given
/// `exp(a)`, `exp(b)` and `exp(a + b)` with `exp(a + b) = exp(a)·exp(b)`,
/// `exp(x + y) = exp(x)·exp(y)` in value and derivative.
pub proof fn lemma_exp_of_sum<T: Arith>(x: Dual<T>, y: Dual<T>, exp_x: T, exp_y: T, exp_sum: T)
    requires
        exp_sum == exp_x.mul_spec(exp_y),
        mul_commutes::<T>(),
        mul_associates::<T>(),
        distributes::<T>(),
        add_commutes_associates::<T>(),
    ensures
        exp_dual(x.add_spec(y), exp_sum) == exp_dual(x, exp_x).mul_spec(exp_dual(y, exp_y)),
{
    reveal(mul_commutes);
    reveal(mul_associates);
    reveal(distributes);
    reveal(add_commutes_associates);
    let (xe, ye) = (x.eps, y.eps);
    assert(exp_sum.mul_spec(xe.add_spec(ye)) == xe.add_spec(ye).mul_spec(exp_sum));
    assert(xe.add_spec(ye).mul_spec(exp_sum) == xe.mul_spec(exp_sum).add_spec(ye.mul_spec(exp_sum)));
    assert(xe.mul_spec(exp_x).mul_spec(exp_y) == xe.mul_spec(exp_x.mul_spec(exp_y)));
    assert(xe.mul_spec(exp_x) == exp_x.mul_spec(xe));
    assert(ye.mul_spec(exp_sum) == exp_x.mul_spec(exp_y).mul_spec(ye));
    assert(exp_x.mul_spec(exp_y).mul_spec(ye) == exp_x.mul_spec(exp_y.mul_spec(ye)));
    assert(exp_y.mul_spec(ye) == ye.mul_spec(exp_y));
}

/// `exp(0) = 1`: with `exp(zero) = one`, the exponential of the dual zero is
/// the dual one.
pub proof fn lemma_exp_of_zero<T: Arith>(zero: T, one: T)
    requires
        left_unit(one),
    ensures
        exp_dual(Dual { real: zero, eps: zero }, one) == (Dual { real: one, eps: zero }),
{
    assert(one.mul_spec(zero) == zero);
}

/// The numerator of the quotient rule for `(x·y)/y`:
/// `(a·d + b·c)·c − (a·c)·d = b·(c·c)` over a commutative ring.
proof fn lemma_quotient_numerator<T: FieldOps>(a: T, b: T, c: T, d: T, zero: T)
    requires
        mul_commutes::<T>(),
        mul_associates::<T>(),
        distributes::<T>(),
        add_commutes_associates::<T>(),
        additive_group(zero),
    ensures
        a.mul_spec(d).add_spec(b.mul_spec(c)).mul_spec(c).sub_spec(a.mul_spec(c).mul_spec(d)) == b.mul_spec(
            c.mul_spec(c),
        ),
{
    reveal(mul_commutes);
    reveal(mul_associates);
    reveal(distributes);
    reveal(add_commutes_associates);
    reveal(additive_group);
    let q = a.mul_spec(c).mul_spec(d);
    let r = b.mul_spec(c).mul_spec(c);
    assert(a.mul_spec(d).mul_spec(c) == q) by {
        assert(a.mul_spec(d).mul_spec(c) == a.mul_spec(d.mul_spec(c)));
        assert(q == a.mul_spec(c.mul_spec(d)));
        assert(d.mul_spec(c) == c.mul_spec(d));
    }
    assert(a.mul_spec(d).add_spec(b.mul_spec(c)).mul_spec(c) == q.add_spec(r));
    assert(q.add_spec(r).sub_spec(q) == r) by {
        assert(q.add_spec(r).sub_spec(q) == q.add_spec(r).add_spec(q.neg_spec()));
        assert(q.add_spec(r) == r.add_spec(q));
        assert(r.add_spec(q).add_spec(q.neg_spec()) == r.add_spec(q.add_spec(q.neg_spec())));
        assert(q.add_spec(q.neg_spec()) == zero);
        assert(r.add_spec(zero) == r);
    }
    assert(r == b.mul_spec(c.mul_spec(c)));
}

/// The quotient rule undoes the product rule: `(x·y)/y = x` wherever
/// `y.real` is nonzero, over a field.
pub proof fn lemma_quotient_undoes_product<T: FieldOps>(x: Dual<T>, y: Dual<T>, zero: T)
    requires
        y.real != zero,
        mul_commutes::<T>(),
        mul_associates::<T>(),
        distributes::<T>(),
        add_commutes_associates::<T>(),
        additive_group(zero),
        cancels(zero),
    ensures
        x.mul_spec(y).div_spec(y) == x,
{
    let (a, b, c, d) = (x.real, x.eps, y.real, y.eps);
    lemma_quotient_numerator(a, b, c, d, zero);
    let cc = c.mul_spec(c);
    assert(cc != zero);
    assert(b.mul_spec(cc).div_spec(cc) == b);
    assert(a.mul_spec(c).div_spec(c) == a);
}

/// The four derivative terms of `s·s + c·c`: those of the sine are `t`, those of
/// the cosine `−t`, with `t = (b·cos a)·sin a`.
proof fn lemma_sin_cos_products<T: FieldOps>(b: T, sin_a: T, cos_a: T, zero: T)
    requires
        mul_commutes::<T>(),
        mul_associates::<T>(),
        additive_group(zero),
    ensures
        sin_a.mul_spec(b.mul_spec(cos_a)) == b.mul_spec(cos_a).mul_spec(sin_a),
        cos_a.mul_spec(b.mul_spec(sin_a.neg_spec())) == b.mul_spec(cos_a).mul_spec(sin_a).neg_spec(),
        b.mul_spec(sin_a.neg_spec()).mul_spec(cos_a) == b.mul_spec(cos_a).mul_spec(sin_a).neg_spec(),
{
    reveal(mul_commutes);
    reveal(mul_associates);
    reveal(additive_group);
    let t = b.mul_spec(cos_a).mul_spec(sin_a);
    let bs = b.mul_spec(sin_a.neg_spec());
    assert(bs == b.mul_spec(sin_a).neg_spec());
    assert(cos_a.mul_spec(b.mul_spec(sin_a).neg_spec()) == cos_a.mul_spec(b.mul_spec(sin_a)).neg_spec());
    assert(cos_a.mul_spec(b.mul_spec(sin_a)) == b.mul_spec(sin_a).mul_spec(cos_a));
    assert(b.mul_spec(sin_a).mul_spec(cos_a) == b.mul_spec(sin_a.mul_spec(cos_a)));
    assert(sin_a.mul_spec(cos_a) == cos_a.mul_spec(sin_a));
    assert(b.mul_spec(cos_a.mul_spec(sin_a)) == t);
    assert(bs.mul_spec(cos_a) == cos_a.mul_spec(bs));
}

/// `(t + t) + (−t + −t) = zero`.
proof fn lemma_twice_cancels<T: FieldOps>(t: T, zero: T)
    requires
        add_commutes_associates::<T>(),
        additive_group(zero),
    ensures
        t.add_spec(t).add_spec(t.neg_spec().add_spec(t.neg_spec())) == zero,
{
    reveal(add_commutes_associates);
    reveal(additive_group);
    let m = t.neg_spec();
    assert(t.add_spec(t).add_spec(m.add_spec(m)) == t.add_spec(t.add_spec(m.add_spec(m))));
    assert(t.add_spec(m.add_spec(m)) == t.add_spec(m).add_spec(m));
    assert(t.add_spec(m) == zero);
    assert(zero.add_spec(m) == m.add_spec(zero));
    assert(m.add_spec(zero) == m);
}

/// `sin² + cos² = 1` also on dual numbers: given `sin(a)` and `cos(a)` with
/// `sin(a)² + cos(a)² = 1`, the dual sine and cosine of `x` satisfy
/// `s·s + c·c = 1 + 0ε`.
pub proof fn lemma_sin_cos_squares<T: FieldOps>(x: Dual<T>, sin_a: T, cos_a: T, zero: T, one: T)
    requires
        sin_a.mul_spec(sin_a).add_spec(cos_a.mul_spec(cos_a)) == one,
        mul_commutes::<T>(),
        mul_associates::<T>(),
        add_commutes_associates::<T>(),
        additive_group(zero),
    ensures
        ({
            let s = sin_dual(x, sin_a, cos_a);
            let c = cos_dual(x, cos_a, sin_a);
            s.mul_spec(s).add_spec(c.mul_spec(c)) == (Dual { real: one, eps: zero })
        }),
{
    lemma_sin_cos_products(x.eps, sin_a, cos_a, zero);
    lemma_twice_cancels(x.eps.mul_spec(cos_a).mul_spec(sin_a), zero);
}

/// The logarithm undoes the exponential on dual numbers: given `exp(a) ≠ 0`
/// and a logarithm of it equal to `a`, `ln(exp(x)) = x`.
pub proof fn lemma_ln_undoes_exp<T: FieldOps>(x: Dual<T>, exp_a: T, zero: T)
    requires
        exp_a != zero,
        mul_commutes::<T>(),
        cancels(zero),
    ensures
        ln_dual(exp_dual(x, exp_a), x.real) == x,
{
    reveal(mul_commutes);
    assert(exp_a.mul_spec(x.eps) == x.eps.mul_spec(exp_a));
    assert(x.eps.mul_spec(exp_a).div_spec(exp_a) == x.eps);
}

} // verus!
