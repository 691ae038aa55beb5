use collocation::automatic_derivative::ODE;
use collocation::dual::Dual;
use collocation::matrix::Matrix;
use collocation::multi_interval_domain::MultiIntervalDomain;
use collocation::plotting::{interior_breakpoints, plot_points};
use collocation::test_odes::{ConvectionDiffusionODE, ImportantOde};

fn shift3() -> Matrix<f64> {
    Matrix::from_rows(3, vec![vec![0.0, 1.0, 0.0], vec![0.0, 0.0, 1.0], vec![0.0, 0.0, 0.0]]).unwrap()
}

fn lift(v: &[f64]) -> Vec<Dual<f64>> {
    v.iter().map(|&x| Dual { real: x, eps: 0.0 }).collect()
}

fn lift_matrix(m: &Matrix<f64>) -> Matrix<Dual<f64>> {
    let rows = m.rows.iter().map(|r| lift(r)).collect();
    Matrix::from_rows(m.ncols, rows).unwrap()
}

const ZERO: Dual<f64> = Dual { real: 0.0, eps: 0.0 };
const ONE: Dual<f64> = Dual { real: 1.0, eps: 0.0 };

#[test]
fn convection_diffusion_plain_form() {
    // du = [2, 3, 0], d2u = [3, 0, 0]: row 0 gives u'' − u·u'' + u' = 3 − 3 + 2.
    let u = vec![1.0, 2.0, 3.0];
    assert_eq!(ConvectionDiffusionODE::eval(0, 0.0, &u, &shift3(), 0.0, 1.0), 2.0);
    // row 1: d2u = 0, du = 3: 0 − 0 + 3
    assert_eq!(ConvectionDiffusionODE::eval(1, 0.0, &u, &shift3(), 0.0, 1.0), 3.0);
}

#[test]
fn convection_diffusion_plain_form_rounds_as_written() {
    // Each form is evaluated as written; in floating point the two may round differently.
    let u = vec![0.1, 0.7, 0.3];
    let d = shift3();
    let (du0, d2u0) = (0.7, 0.3);
    let plain = ConvectionDiffusionODE::eval(0, 0.0, &u, &d, 0.0, 1.0);
    assert_eq!(plain, d2u0 - 0.1 * d2u0 + du0);
    let dual = ConvectionDiffusionODE::eval(0, ZERO, &lift(&u), &lift_matrix(&d), ZERO, ONE);
    assert_eq!(dual.real, d2u0 * (1.0 - 0.1) + du0);
}

#[test]
fn convection_diffusion_dual_form_differentiates() {
    // Seeding u₀: the derivative of u''·(1 − u) + u' at row 0 is −u'' = −3.
    let mut u = lift(&[1.0, 2.0, 3.0]);
    u[0].eps = 1.0;
    let r = ConvectionDiffusionODE::eval(0, ZERO, &u, &lift_matrix(&shift3()), ZERO, ONE);
    assert_eq!(r, Dual { real: 2.0, eps: -3.0 });
}

#[test]
fn important_ode_plain_form() {
    // u = 1, u' = 2, u'' = 3, s = 3/2, δ̄ = 5:
    // 0.75 − 1 − 0.25 − 7.5 + 5 = −3
    let u = vec![1.0, 2.0, 3.0];
    assert_eq!(ImportantOde::eval(0, 0.0, &u, &shift3(), 0.0, 1.0), -3.0);
    let ur: f64 = 0.4;
    let (du, d2u) = (0.9, 0.2);
    let (s, delta_bar) = (1.5, 5.0);
    let expected = -s * ur * (ur - s) - ur + 0.5 * ur * ur * (ur - s) + delta_bar * (ur - s) * d2u
        - delta_bar * (ur - s) * du;
    assert_eq!(ImportantOde::eval(0, 0.0, &vec![ur, du, d2u], &shift3(), 0.0, 1.0), expected);
}

#[test]
fn important_ode_dual_form() {
    // Value −3 as above; derivative in u₀ at u = 1:
    // −s(2u − s) − 1 + ½(3u² − 2su) + δ̄u'' − δ̄u' = −0.75 − 1 + 0 + 15 − 10 = 3.25
    let mut u = lift(&[1.0, 2.0, 3.0]);
    u[0].eps = 1.0;
    let r = ImportantOde::eval(0, ZERO, &u, &lift_matrix(&shift3()), ZERO, ONE);
    assert_eq!(r, Dual { real: -3.0, eps: 3.25 });
}

#[test]
fn plot_points_skip_repeated_interface_nodes() {
    let domain = MultiIntervalDomain::new(2, vec![0.0, 1.0, 2.0], 3, &vec![-1.0, 0.0, 1.0], 0.0, 1.0, 2.0);
    let u = vec![10.0, 11.0, 12.0, 13.0, 14.0, 15.0];
    let (xs, us) = plot_points(&u, &domain, 0.5, 1.0);
    assert_eq!(xs, vec![0.0, 0.5, 1.0, 1.5, 2.0]);
    assert_eq!(us, vec![10.0, 11.0, 12.0, 14.0, 15.0]);
}

#[test]
fn plot_points_of_one_interval_are_all_its_nodes() {
    let domain = MultiIntervalDomain::new(1, vec![-1.0, 1.0], 3, &vec![-1.0, 0.0, 1.0], 0.0, 1.0, 2.0);
    let (xs, us) = plot_points(&vec![1.0, 2.0, 3.0], &domain, 0.5, 1.0);
    assert_eq!(xs, vec![-1.0, 0.0, 1.0]);
    assert_eq!(us, vec![1.0, 2.0, 3.0]);
}

#[test]
fn interior_breakpoints_drop_the_ends() {
    assert_eq!(interior_breakpoints(&vec![0.0, 1.0, 2.0]), vec![1.0]);
    assert_eq!(interior_breakpoints(&vec![0.0, 0.5, 1.0, 2.0]), vec![0.5, 1.0]);
    assert_eq!(interior_breakpoints(&vec![0.0, 2.0]), Vec::<f64>::new());
}
