use collocation::boundary_conditions::BoundaryCondition;
use collocation::dual::Dual;
use collocation::jacobian::{build_J_R, residual_values};
use collocation::matrix::Matrix;
use collocation::multi_interval_domain::{CollocationDomain, CollocationInterval, copy_vec, scale_matrix};
use collocation::automatic_derivative::ODE;
use collocation::test_odes::{BurgersODE, ConvectionDiffusionODE, ImportantOde, NonlinearDiffusionODE, PoissonODE};

/// Two intervals of three points with integer differentiation matrices.
fn integer_domain() -> CollocationDomain<i64> {
    let d = || Matrix::from_rows(3, vec![vec![-1i64, 1, 0], vec![-1, 0, 1], vec![0, -1, 1]]).unwrap();
    CollocationDomain {
        intervals: vec![
            CollocationInterval { points: vec![0, 1, 2], dmatrix: d() },
            CollocationInterval { points: vec![2, 3, 4], dmatrix: d() },
        ],
    }
}

fn dual_bc(v: i64) -> BoundaryCondition<Dual<i64>> {
    BoundaryCondition::Dirichlet(Dual { real: v, eps: 0 })
}

fn mat_mul(a: &Vec<Vec<i64>>, b: &Vec<Vec<i64>>) -> Vec<Vec<i64>> {
    (0..a.len()).map(|i| (0..b[0].len()).map(|j| (0..b.len()).map(|k| a[i][k] * b[k][j]).sum()).collect()).collect()
}

#[test]
fn linear_problem_jacobian_equals_unit_differences() {
    // For the linear Poisson operator with exact arithmetic, R(u + e_k) − R(u)
    // is exactly column k of the Jacobian.
    let dual = integer_domain().to_dual(0);
    let u = vec![3i64, -1, 4, 1, -5, 9];
    let (j, r) = build_J_R(&PoissonODE, &u, &dual, None, dual_bc(2), dual_bc(-7), 0, 1);
    for k in 0..6 {
        let mut up = u.clone();
        up[k] += 1;
        let rp = residual_values(&PoissonODE, &up, &dual, None, &dual_bc(2), &dual_bc(-7), 0, 1);
        for g in 0..6 {
            assert_eq!(rp[g] - r[g], j.rows[g][k], "row {g}, column {k}");
        }
    }
}

#[test]
fn nonlinear_jacobian_is_the_linearization() {
    // u'' + u²: on interior rows the derivative in direction e_c is
    // (D·D)[r][c] + 2·u_r·δ(r, c) within the row's interval.
    let dom = integer_domain();
    let dual = dom.to_dual(0);
    let u = vec![3i64, -1, 4, 1, -5, 9];
    let (j, _) = build_J_R(&NonlinearDiffusionODE, &u, &dual, None, dual_bc(0), dual_bc(0), 0, 1);
    let d = &dom.intervals[0].dmatrix.rows;
    let d2 = mat_mul(d, d);
    for (g, i, r) in [(1usize, 0usize, 1usize), (4, 1, 1)] {
        for c in 0..3 {
            let expected = d2[r][c] + if c == r { 2 * u[g] } else { 0 };
            assert_eq!(j.rows[g][i * 3 + c], expected);
        }
        for c in 0..6 {
            if c / 3 != i {
                assert_eq!(j.rows[g][c], 0);
            }
        }
    }
}

#[test]
fn residual_values_match_direct_evaluation() {
    let dom = integer_domain();
    let dual = dom.to_dual(0);
    let u = vec![3i64, -1, 4, 1, -5, 9];
    let r = residual_values(&NonlinearDiffusionODE, &u, &dual, None, &dual_bc(1), &dual_bc(2), 0, 1);
    let direct = collocation::automatic_derivative::residual(
        &NonlinearDiffusionODE,
        &u,
        &dom,
        None,
        &BoundaryCondition::Dirichlet(1),
        &BoundaryCondition::Dirichlet(2),
        0,
        1,
    );
    assert_eq!(r, direct);
}

#[test]
fn from_columns_transposes() {
    let m = Matrix::from_columns(2, &vec![vec![1, 2], vec![3, 4]]);
    assert_eq!(m.rows, vec![vec![1, 3], vec![2, 4]]);
}

#[test]
fn scale_and_copy() {
    let m = Matrix::from_rows(2, vec![vec![1, 2], vec![3, 4]]).unwrap();
    assert_eq!(scale_matrix(&m, 3).rows, vec![vec![3, 6], vec![9, 12]]);
    assert_eq!(copy_vec(&vec![5, 6, 7]), vec![5, 6, 7]);
}

/// Three intervals of three points with integer differentiation matrices.
fn three_interval_domain() -> CollocationDomain<i64> {
    let d = || Matrix::from_rows(3, vec![vec![-1i64, 1, 0], vec![-1, 0, 1], vec![0, -1, 1]]).unwrap();
    CollocationDomain {
        intervals: vec![
            CollocationInterval { points: vec![0, 1, 2], dmatrix: d() },
            CollocationInterval { points: vec![2, 3, 4], dmatrix: d() },
            CollocationInterval { points: vec![4, 5, 6], dmatrix: d() },
        ],
    }
}

#[test]
fn jacobian_is_banded_with_half_width_n_per() {
    let dual = three_interval_domain().to_dual(0);
    let u = vec![3i64, -1, 4, 1, -5, 9, 2, -6, 5];
    let (j, _) = build_J_R(&BurgersODE, &u, &dual, None, dual_bc(1), dual_bc(-2), 0, 1);
    let n_per = 3;
    let mut nonzero_off_diagonal = false;
    for g in 0..9 {
        for k in 0..9 {
            if k > g + n_per || g > k + n_per {
                assert_eq!(j.rows[g][k], 0, "entry ({g}, {k}) outside the band");
            } else if g != k && j.rows[g][k] != 0 {
                nonzero_off_diagonal = true;
            }
        }
    }
    assert!(nonzero_off_diagonal);
    // the derivative-continuity row of the first interval reaches into the next interval
    assert_eq!(j.rows[2][4], -1);
}

#[test]
fn constant_forcing_shifts_residual_and_leaves_jacobian() {
    let dual = integer_domain().to_dual(0);
    let u = vec![3i64, -1, 4, 1, -5, 9];
    let f: Vec<Vec<Dual<i64>>> =
        vec![vec![Dual { real: 7, eps: 0 }, Dual { real: 11, eps: 0 }, Dual { real: 13, eps: 0 }]; 2];
    let (j0, r0) = build_J_R(&NonlinearDiffusionODE, &u, &dual, None, dual_bc(1), dual_bc(2), 0, 1);
    let (j1, r1) = build_J_R(&NonlinearDiffusionODE, &u, &dual, Some(&f), dual_bc(1), dual_bc(2), 0, 1);
    assert_eq!(j0.rows, j1.rows);
    for g in 0..6 {
        let r = g % 3;
        if r == 1 {
            assert_eq!(r1[g], r0[g] - f[g / 3][r].real);
        } else {
            assert_eq!(r1[g], r0[g]);
        }
    }
}

#[test]
fn plain_and_dual_forms_agree_on_integers() {
    // With exact integer arithmetic u'' − u·u'' + u' and u''·(1 − u) + u' agree,
    // so the value parts of the dual evaluation are the plain evaluation.
    let d = Matrix::from_rows(3, vec![vec![-1i64, 1, 0], vec![-1, 0, 1], vec![0, -1, 1]]).unwrap();
    let u = vec![3i64, -1, 4];
    let ud: Vec<Dual<i64>> = u.iter().map(|&x| Dual { real: x, eps: 0 }).collect();
    let dd = Matrix::from_rows(
        3,
        d.rows.iter().map(|r| r.iter().map(|&x| Dual { real: x, eps: 0 }).collect()).collect(),
    )
    .unwrap();
    let zero = Dual { real: 0, eps: 0 };
    let one = Dual { real: 1, eps: 0 };
    for row in 0..3 {
        let plain = ConvectionDiffusionODE::eval(row, 0, &u, &d, 0, 1);
        let dual = ConvectionDiffusionODE::eval(row, zero, &ud, &dd, zero, one);
        assert_eq!(dual.real, plain);
        // integer multiplication commutes and associates, so the two forms of
        // the traveling-front operator agree as well
        let plain = ImportantOde::eval(row, 0, &u, &d, 0, 1);
        let dual = ImportantOde::eval(row, zero, &ud, &dd, zero, one);
        assert_eq!(dual.real, plain);
    }
}
