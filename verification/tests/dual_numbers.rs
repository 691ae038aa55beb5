use collocation::dual::{Dual, lift_matrix, lift_vec};
use collocation::matrix::Matrix;

fn d(real: f64, eps: f64) -> Dual<f64> {
    Dual { real, eps }
}

#[test]
fn dual_add_sums_parts() {
    assert_eq!(d(1.5, 2.0) + d(0.25, -1.0), d(1.75, 1.0));
}

#[test]
fn dual_sub_subtracts_parts() {
    assert_eq!(d(1.5, 2.0) - d(0.25, -1.0), d(1.25, 3.0));
}

#[test]
fn dual_mul_follows_product_rule() {
    // (3 + 2ε)(5 + 7ε) = 15 + (3·7 + 2·5)ε
    assert_eq!(d(3.0, 2.0) * d(5.0, 7.0), d(15.0, 31.0));
}

#[test]
fn dual_div_follows_quotient_rule() {
    // (6 + 1ε)/(2 + 3ε) = 3 + ((1·2 − 6·3)/4)ε = 3 − 4ε
    assert_eq!(d(6.0, 1.0) / d(2.0, 3.0), d(3.0, -4.0));
}

#[test]
fn dual_integer_arithmetic_is_exact() {
    let a = Dual { real: 4i64, eps: 1i64 };
    let b = Dual { real: -3i64, eps: 2i64 };
    assert_eq!(a * b, Dual { real: -12, eps: 4 * 2 + 1 * -3 });
    assert_eq!(a + b, Dual { real: 1, eps: 3 });
    assert_eq!(a - b, Dual { real: 7, eps: -1 });
}

#[test]
fn dual_squares_differentiate_like_x_squared() {
    // d/dx x² at x = 3 is 6
    let x = d(3.0, 1.0);
    assert_eq!(x * x, d(9.0, 6.0));
    // d/dx x³ at x = 2 is 12
    let y = d(2.0, 1.0);
    assert_eq!(y * y * y, d(8.0, 12.0));
}

#[test]
fn dual_zero_and_constants() {
    assert_eq!(Dual::zero(0.0), d(0.0, 0.0));
    assert_eq!(Dual::from_converted(Some(2.5), 0.0), Some(d(2.5, 0.0)));
    assert_eq!(Dual::<f64>::from_converted(None, 0.0), None);
}

#[test]
fn dual_is_zero() {
    assert!(d(0.0, 0.0).is_zero(&0.0));
    assert!(d(-0.0, 0.0).is_zero(&0.0));
    assert!(!d(0.0, 1.0).is_zero(&0.0));
    assert!(!d(1.0, 0.0).is_zero(&0.0));
}

#[test]
fn dual_scalar_ops() {
    assert_eq!(d(1.5, -2.0).mul_scalar(4.0), d(6.0, -8.0));
    assert_eq!(d(1.5, -2.0).sub_scalar(0.5), d(1.0, -2.0));
}

#[test]
fn dual_sin_applies_chain_rule() {
    let x = d(0.5, 3.0);
    let r = x.sin(0.5f64.sin(), 0.5f64.cos());
    assert_eq!(r.real, 0.5f64.sin());
    assert_eq!(r.eps, 3.0 * 0.5f64.cos());
}

#[test]
fn dual_cos_applies_chain_rule() {
    let x = d(0.5, 3.0);
    let r = x.cos(0.5f64.cos(), 0.5f64.sin());
    assert_eq!(r.real, 0.5f64.cos());
    assert_eq!(r.eps, 3.0 * -(0.5f64.sin()));
}

#[test]
fn dual_ln_applies_chain_rule() {
    let x = d(4.0, 2.0);
    let r = x.ln(4.0f64.ln());
    assert_eq!(r, d(4.0f64.ln(), 0.5));
}

#[test]
fn dual_exp_applies_chain_rule() {
    let x = d(1.0, 2.0);
    let r = x.exp(1.0f64.exp());
    assert_eq!(r, d(1.0f64.exp(), 1.0f64.exp() * 2.0));
}

#[test]
fn dual_powi_applies_chain_rule() {
    // x³ at x = 2 with derivative 1: 8 + 12ε
    let x = d(2.0, 1.0);
    let r = x.powi(3.0, 2.0f64.powi(3), 2.0f64.powi(2));
    assert_eq!(r, d(8.0, 12.0));
}

#[test]
fn dual_powf_applies_chain_rule() {
    // x^0.5 at x = 4 with derivative 2: 2 + 0.5·4^(−0.5)·2 = 2 + 0.5ε
    let x = d(4.0, 2.0);
    let r = x.powf(0.5, 4.0f64.powf(0.5), 4.0f64.powf(-0.5));
    assert_eq!(r, d(2.0, 0.5));
}

#[test]
fn lifting_makes_constants() {
    assert_eq!(lift_vec(&vec![1.0, -2.0], 0.0), vec![d(1.0, 0.0), d(-2.0, 0.0)]);
    let m = Matrix::from_rows(2, vec![vec![1.0, 2.0], vec![3.0, 4.0]]).unwrap();
    let l = lift_matrix(&m, 0.0);
    assert_eq!(l.ncols, 2);
    assert_eq!(l.rows, vec![vec![d(1.0, 0.0), d(2.0, 0.0)], vec![d(3.0, 0.0), d(4.0, 0.0)]]);
}

#[test]
fn dual_powers_agree_with_repeated_products() {
    let x = d(3.0, 2.0);
    assert_eq!(x.powi(1.0, 3.0, 1.0), x);
    assert_eq!(x.powi(2.0, 9.0, 3.0), x * x);
    assert_eq!(x.powi(3.0, 27.0, 9.0), x * x * x);
}

#[test]
fn dual_quotient_undoes_product() {
    let (x, y) = (d(6.0, 1.0), d(2.0, 1.0));
    assert_eq!(x / y, d(3.0, -1.0));
    assert_eq!((x * y) / y, x);
}

#[test]
fn dual_exp_turns_sums_into_products() {
    // exp values 2, 4 and 8 = 2·4 stand in for exp(a), exp(b), exp(a + b)
    let (x, y) = (d(1.0, 3.0), d(2.0, 5.0));
    assert_eq!((x + y).exp(8.0), x.exp(2.0) * y.exp(4.0));
    assert_eq!(d(0.0, 0.0).exp(1.0), d(1.0, 0.0));
}

#[test]
fn dual_sin_cos_squares_sum_to_one() {
    let x = d(0.3, 2.0);
    let (sa, ca) = (x.real.sin(), x.real.cos());
    let s = x.sin(sa, ca);
    let c = x.cos(ca, sa);
    let sum = s * s + c * c;
    assert!((sum.real - 1.0).abs() < 1e-15);
    assert!(sum.eps.abs() < 1e-15);
    // with values whose squares add to one exactly
    let y = Dual { real: 7i64, eps: 3 };
    let s = y.sin(1, 0);
    let c = y.cos(0, 1);
    assert_eq!(s * s + c * c, Dual { real: 1, eps: 0 });
}

#[test]
fn dual_ln_undoes_exp() {
    // exp(2) stands in as 4, and its logarithm as 2
    let x = d(2.0, 3.0);
    assert_eq!(x.exp(4.0).ln(2.0), x);
}
