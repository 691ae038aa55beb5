use collocation::automatic_derivative::ODE;
use collocation::boundary_conditions::BoundaryCondition;
use collocation::dual::Dual;
use collocation::jacobian::build_J_R;
use collocation::matrix::Matrix;
use collocation::multi_interval_domain::{CollocationDomain, MultiIntervalDomain};
use nalgebra::{DMatrix, DVector};

struct QuadraticODE;

impl ODE<Dual<f64>> for QuadraticODE {
    fn eval(
        row: usize,
        x: Dual<f64>,
        u: &Vec<Dual<f64>>,
        _d: &Matrix<Dual<f64>>,
        _zero: Dual<f64>,
        _one: Dual<f64>,
    ) -> Dual<f64> {
        let ur = u[row];
        ur * ur + ur - x - x * x
    }
}

fn chebyshev_nodes(n: usize) -> Vec<f64> {
    (0..n)
        .map(|j| -(std::f64::consts::PI * (j as f64) / ((n - 1) as f64)).cos())
        .collect()
}

fn domain(n_interval: usize, a: f64, b: f64, n_collocate: usize) -> MultiIntervalDomain<f64> {
    let h = (b - a) / n_interval as f64;
    let breakpoints: Vec<f64> = (0..=n_interval).map(|i| a + i as f64 * h).collect();
    MultiIntervalDomain::new(n_interval, breakpoints, n_collocate, &chebyshev_nodes(n_collocate), 0.0, 1.0, 2.0)
}

fn dual_collocation(domain: &MultiIntervalDomain<f64>) -> CollocationDomain<Dual<f64>> {
    domain.collocation(0.5, 1.0, 2.0).to_dual(0.0)
}

fn dirichlet(a: f64, b: f64) -> (BoundaryCondition<Dual<f64>>, BoundaryCondition<Dual<f64>>) {
    (
        BoundaryCondition::Dirichlet(Dual { real: a, eps: 0.0 }),
        BoundaryCondition::Dirichlet(Dual { real: b, eps: 0.0 }),
    )
}

fn to_dmatrix(m: &Matrix<f64>) -> DMatrix<f64> {
    DMatrix::from_fn(m.rows.len(), m.ncols, |i, j| m.rows[i][j])
}

fn newton_from(
    domain: &MultiIntervalDomain<f64>,
    start: Vec<f64>,
    bc_a: f64,
    bc_b: f64,
    tol: f64,
    max_iter: usize,
) -> (Vec<f64>, f64) {
    let coll = dual_collocation(domain);
    let n = start.len();
    let mut u = start;
    let mut norm = f64::MAX;
    for _ in 0..max_iter {
        let (bc_left, bc_right) = dirichlet(bc_a, bc_b);
        let (j, r) = build_J_R(&QuadraticODE, &u, &coll, None, bc_left, bc_right, 0.0, 1.0);
        let r = DVector::from_vec(r);
        norm = r.norm();
        if norm < tol {
            break;
        }
        let delta = to_dmatrix(&j).lu().solve(&(-&r)).expect("singular Jacobian in Newton");
        for i in 0..n {
            u[i] += delta[i];
        }
    }
    (u, norm)
}

fn newton(
    domain: &MultiIntervalDomain<f64>,
    bc_a: f64,
    bc_b: f64,
    tol: f64,
    max_iter: usize,
) -> (Vec<f64>, f64) {
    let n = domain.global_collocation_points_raw(0.5, 1.0).len();
    newton_from(domain, vec![0.0; n], bc_a, bc_b, tol, max_iter)
}

fn max_error(x_nodes: &[f64], u: &[f64]) -> f64 {
    x_nodes.iter().zip(u.iter()).map(|(xi, ui)| (ui - xi).abs()).fold(0.0_f64, f64::max)
}

#[test]
fn exact_solution_satisfies_collocation_equations() {
    let (a, b) = (-1.0_f64, 1.0_f64);
    let domain = domain(4, a, b, 4);
    let coll = dual_collocation(&domain);
    let x_nodes = domain.global_collocation_points_raw(0.5, 1.0);
    let (bc_left, bc_right) = dirichlet(a, b);
    let (_, r) = build_J_R(&QuadraticODE, &x_nodes, &coll, None, bc_left, bc_right, 0.0, 1.0);
    let norm = DVector::from_vec(r).norm();
    assert!(norm < 1e-12, "|R(x)| = {norm:.3e}");
}

#[test]
fn newton_from_zero_drives_residual_below_tolerance() {
    // u² + u − x − x² = (u − x)(u + x + 1) has two roots, u = x and u = −1 − x.
    // From the zero start Newton settles on u = −1 − x at the interior nodes left
    // of x = −1/2, so from this start only the residual is checked; the error
    // against u = x is checked from a start near it below.
    let (a, b) = (-1.0_f64, 1.0_f64);
    let domain = domain(4, a, b, 4);
    let tol = 1e-10;
    let (_, residual_norm) = newton(&domain, a, b, tol, 30);
    assert!(residual_norm < tol, "Newton did not converge: |R| = {residual_norm:.3e}");
}

#[test]
fn test_newton_converges_to_exact_solution() {
    // Started at u = x + 0.05: from zero Newton settles on the other root
    // u = −1 − x at interior nodes left of x = −1/2 (see the test above).
    let (a, b) = (-1.0_f64, 1.0_f64);
    let domain = domain(4, a, b, 4);
    let x_nodes = domain.global_collocation_points_raw(0.5, 1.0);
    let start: Vec<f64> = x_nodes.iter().map(|x| x + 0.05).collect();
    let (u, residual_norm) = newton_from(&domain, start, a, b, 1e-12, 30);
    assert!(residual_norm < 1e-10, "Newton did not converge: |R| = {residual_norm:.3e}");
    let max_err = max_error(&x_nodes, &u);
    assert!(max_err < 1e-9, "Solution deviates from u(x)=x: max pointwise error = {max_err:.3e}");
}

#[test]
fn test_collocation_error_decreases_with_refinement() {
    // Started near u = x (from zero Newton may settle on the other root
    // u = −1 − x at some nodes). The exact solution u = x is a polynomial that
    // every refinement reproduces in exact arithmetic, so what is left is
    // rounding: it stays below 1e-10 and grows by no more than 1e-12 from one
    // refinement to the next (about 7e-13 at eight intervals against 1e-16 at two).
    let (a, b) = (-1.0_f64, 1.0_f64);
    let mut prev_err = 0.0_f64;
    for n_intervals in [2, 4, 8] {
        let domain = domain(n_intervals, a, b, 4);
        let x_nodes = domain.global_collocation_points_raw(0.5, 1.0);
        let start: Vec<f64> = x_nodes.iter().map(|x| x + 0.05).collect();
        let (u, _) = newton_from(&domain, start, a, b, 1e-13, 30);
        let max_err = max_error(&x_nodes, &u);
        assert!(max_err < 1e-10, "error {max_err:.3e} at n_intervals={n_intervals}");
        assert!(
            max_err <= prev_err + 1e-12,
            "Error grew with refinement at n_intervals={n_intervals}: {max_err:.3e} > prev {prev_err:.3e}"
        );
        prev_err = max_err;
    }
}

#[test]
fn test_ad_jacobian_matches_finite_differences() {
    let (a, b) = (-1.0_f64, 1.0_f64);
    let domain = domain(3, a, b, 3);
    let coll = dual_collocation(&domain);
    let n = domain.global_collocation_points_raw(0.5, 1.0).len();

    let u: Vec<f64> = (0..n).map(|i| 0.3 * (i as f64 - n as f64 / 2.0) / n as f64).collect();

    let (j_ad, r_base) = {
        let (bc_left, bc_right) = dirichlet(a, b);
        build_J_R(&QuadraticODE, &u, &coll, None, bc_left, bc_right, 0.0, 1.0)
    };

    let h = 1e-6;
    let mut j_fd = DMatrix::zeros(n, n);
    for k in 0..n {
        let mut u_pert = u.clone();
        u_pert[k] += h;
        let (bc_left, bc_right) = dirichlet(a, b);
        let (_, r_pert) = build_J_R(&QuadraticODE, &u_pert, &coll, None, bc_left, bc_right, 0.0, 1.0);
        for i in 0..n {
            j_fd[(i, k)] = (r_pert[i] - r_base[i]) / h;
        }
    }

    let j_ad = to_dmatrix(&j_ad);
    let abs_err = (&j_ad - &j_fd).norm();
    let rel_err = abs_err / j_fd.norm().max(1e-15);
    assert!(rel_err < 1e-4, "AD Jacobian disagrees with FD: relative error = {rel_err:.3e}");
}

