use collocation::automatic_derivative::{ODE, local_u, residual};
use collocation::banded::band_storage;
use collocation::boundary_conditions::{BoundaryCondition, Endpoint};
use collocation::dual::Dual;
use collocation::jacobian::{build_J_R, jacobian_column};
use collocation::matrix::Matrix;
use collocation::matrix_op::apply_matrix;
use collocation::multi_interval_domain::{Chebyshev, Interval, MultiIntervalDomain};
use collocation::test_odes::{
    AllenCahnODE, BurgersODE, ConvectionDiffusionODE, DuffingODE, FisherODE, NonlinearDiffusionODE,
    PoissonODE, QuadraticNonlinearODE,
};

fn m(rows: Vec<Vec<f64>>) -> Matrix<f64> {
    let n = rows[0].len();
    Matrix::from_rows(n, rows).unwrap()
}

fn shift3() -> Matrix<f64> {
    m(vec![vec![0.0, 1.0, 0.0], vec![0.0, 0.0, 1.0], vec![0.0, 0.0, 0.0]])
}

fn two_interval_domain() -> MultiIntervalDomain<f64> {
    MultiIntervalDomain::new(2, vec![0.0, 1.0, 2.0], 3, &vec![-1.0, 0.0, 1.0], 0.0, 1.0, 2.0)
}

#[test]
fn matrix_from_rows_checks_lengths() {
    let a = Matrix::from_rows(2, vec![vec![1.0, 2.0], vec![3.0, 4.0]]).unwrap();
    assert_eq!(a.nrows(), 2);
    assert_eq!(a.get(1, 0), 3.0);
    assert!(Matrix::from_rows(2, vec![vec![1.0, 2.0], vec![3.0]]).is_none());
    assert!(Matrix::<f64>::from_rows(3, vec![]).is_some());
}

#[test]
fn apply_matrix_multiplies_rows_by_vector() {
    let a = m(vec![vec![1.0, 2.0], vec![3.0, 4.0]]);
    assert_eq!(apply_matrix(&a, &vec![5.0, 6.0], 0.0), vec![17.0, 39.0]);
}

#[test]
fn apply_matrix_pairs_only_as_many_entries_as_both_have() {
    let a = m(vec![vec![1.0, 2.0, 3.0]]);
    assert_eq!(apply_matrix(&a, &vec![1.0, 1.0], 0.0), vec![3.0]);
    assert_eq!(apply_matrix(&a, &vec![1.0, 1.0, 1.0, 1.0], 0.0), vec![6.0]);
}

#[test]
fn apply_matrix_on_duals_differentiates_linearly() {
    let a = m(vec![vec![1.0, 2.0], vec![3.0, 4.0]]);
    let ad = collocation::dual::lift_matrix(&a, 0.0);
    let u = vec![Dual { real: 1.0, eps: 1.0 }, Dual { real: 2.0, eps: 0.0 }];
    let r = apply_matrix(&ad, &u, Dual { real: 0.0, eps: 0.0 });
    assert_eq!(r, vec![Dual { real: 5.0, eps: 1.0 }, Dual { real: 11.0, eps: 3.0 }]);
}

#[test]
fn dirichlet_condition_compares_endpoint_values() {
    let u = vec![1.0, 2.0, 5.0];
    let d = shift3();
    assert_eq!(BoundaryCondition::Dirichlet(0.5).apply(&u, &d, Endpoint::Left, 0.0), 0.5);
    assert_eq!(BoundaryCondition::Dirichlet(0.5).apply(&u, &d, Endpoint::Right, 0.0), 4.5);
}

#[test]
fn neumann_condition_compares_endpoint_derivatives() {
    let u = vec![1.0, 2.0, 5.0];
    let d = shift3();
    // d·u = [2, 5, 0]
    assert_eq!(BoundaryCondition::Neumann(1.0).apply(&u, &d, Endpoint::Left, 0.0), 1.0);
    assert_eq!(BoundaryCondition::Neumann(1.0).apply(&u, &d, Endpoint::Right, 0.0), -1.0);
}

#[test]
fn chebyshev_two_point_matrix() {
    let c = Chebyshev::new(2);
    assert_eq!(c.n, 2);
    let d = c.dmatrix(&vec![-1.0, 1.0], 0.0, 1.0, 2.0);
    assert_eq!(d.rows, vec![vec![-0.5, 0.5], vec![-0.5, 0.5]]);
}

#[test]
fn chebyshev_three_point_matrix() {
    let d = Chebyshev::new(3).dmatrix(&vec![-1.0, 0.0, 1.0], 0.0, 1.0, 2.0);
    assert_eq!(
        d.rows,
        vec![vec![-1.5, 2.0, -0.5], vec![-0.5, 0.0, 0.5], vec![0.5, -2.0, 1.5]]
    );
}

#[test]
fn chebyshev_matrix_differentiates_quadratics_exactly() {
    let d = Chebyshev::new(3).dmatrix(&vec![-1.0, 0.0, 1.0], 0.0, 1.0, 2.0);
    // u = x², u' = 2x
    assert_eq!(apply_matrix(&d, &vec![1.0, 0.0, 1.0], 0.0), vec![-2.0, 0.0, 2.0]);
}

#[test]
fn interval_maps_and_scales() {
    let iv = Interval::new(Chebyshev::new(3), vec![-1.0, 0.0, 1.0], 2.0, 6.0, 0.0, 1.0, 2.0);
    assert_eq!(iv.get_local_collocation_point(1), 0.0);
    assert_eq!(iv.collocation_points(), &vec![-1.0, 0.0, 1.0]);
    assert_eq!(iv.local_dmatrix.rows[0], vec![-1.5, 2.0, -0.5]);
    assert_eq!(iv.map_to_physical(0.5, 1.0), vec![2.0, 4.0, 6.0]);
    // factor 2 / (6 − 2) = 0.5
    assert_eq!(iv.scaled_dmatrix(2.0).rows[0], vec![-0.75, 1.0, -0.25]);
}

#[test]
fn domain_points_and_intervals() {
    let dom = two_interval_domain();
    assert_eq!(dom.interval.len(), 2);
    assert_eq!(dom.breakpoints, vec![0.0, 1.0, 2.0]);
    assert_eq!(dom.get_interval(1).global_a, 1.0);
    assert_eq!(dom.global_collocation_points_raw(0.5, 1.0), vec![0.0, 0.5, 1.0, 1.0, 1.5, 2.0]);
}

#[test]
fn global_diff_matrix_adds_overlapping_blocks() {
    let dom = two_interval_domain();
    let d = dom.diff_matrix(2.0, 0.0);
    assert_eq!(d.nrows(), 5);
    assert_eq!(d.ncols, 5);
    // each block is the reference matrix times 2
    assert_eq!(d.rows[0], vec![-3.0, 4.0, -1.0, 0.0, 0.0]);
    // the shared node gets the last row of block 0 plus the first row of block 1
    assert_eq!(d.rows[2], vec![1.0, -4.0, 3.0 - 3.0, 4.0, -1.0]);
    assert_eq!(d.rows[4], vec![0.0, 0.0, 1.0, -4.0, 3.0]);
}

#[test]
fn collocation_data_and_lift() {
    let dom = two_interval_domain();
    let coll = dom.collocation(0.5, 1.0, 2.0);
    assert_eq!(coll.intervals[1].points, vec![1.0, 1.5, 2.0]);
    assert_eq!(coll.intervals[1].dmatrix.rows[1], vec![-1.0, 0.0, 1.0]);
    let dual = coll.to_dual(0.0);
    assert_eq!(dual.intervals[0].points[1], Dual { real: 0.5, eps: 0.0 });
}

#[test]
fn local_u_takes_a_block() {
    assert_eq!(local_u(&vec![1, 2, 3, 4, 5, 6], 1, 3), vec![4, 5, 6]);
}

#[test]
fn operators_evaluate_their_formulas() {
    let u = vec![1.0, 2.0, 3.0];
    let d = shift3();
    // du = [2, 3, 0], d2u = [3, 0, 0]
    assert_eq!(BurgersODE::eval(0, 0.0, &u, &d, 0.0, 1.0), 5.0);
    assert_eq!(NonlinearDiffusionODE::eval(0, 0.0, &u, &d, 0.0, 1.0), 4.0);
    assert_eq!(FisherODE::eval(1, 0.0, &u, &d, 0.0, 1.0), -2.0);
    assert_eq!(ConvectionDiffusionODE::eval(0, 0.0, &u, &d, 0.0, 1.0), 2.0);
    assert_eq!(PoissonODE::eval(0, 0.0, &u, &d, 0.0, 1.0), 3.0);
    assert_eq!(AllenCahnODE::eval(1, 0.0, &u, &d, 0.0, 1.0), -6.0);
    assert_eq!(QuadraticNonlinearODE::eval(1, 0.0, &u, &d, 0.0, 1.0), -4.0);
    assert_eq!(DuffingODE::eval(1, 0.0, &u, &d, 0.0, 1.0), 10.0);
}

#[test]
fn residual_rows_carry_their_equations() {
    let dom = two_interval_domain();
    let coll = dom.collocation(0.5, 1.0, 2.0);
    let u = vec![1.0, 2.0, 4.0, 5.0, 7.0, 11.0];
    let forcing = vec![vec![0.0, 10.0, 0.0], vec![0.0, 20.0, 0.0]];
    let f = residual(
        &PoissonODE,
        &u,
        &coll,
        Some(&forcing),
        &BoundaryCondition::Dirichlet(0.5),
        &BoundaryCondition::Neumann(1.0),
        0.0,
        1.0,
    );
    let d0 = &coll.intervals[0].dmatrix;
    let d1 = &coll.intervals[1].dmatrix;
    let du0 = apply_matrix(d0, &vec![1.0, 2.0, 4.0], 0.0);
    let du1 = apply_matrix(d1, &vec![5.0, 7.0, 11.0], 0.0);
    let d2u0 = apply_matrix(d0, &du0, 0.0);
    let d2u1 = apply_matrix(d1, &du1, 0.0);
    assert_eq!(f.len(), 6);
    assert_eq!(f[0], 1.0 - 0.5);
    assert_eq!(f[1], d2u0[1] - 10.0);
    assert_eq!(f[2], du0[2] - du1[0]);
    assert_eq!(f[3], 4.0 - 5.0);
    assert_eq!(f[4], d2u1[1] - 20.0);
    assert_eq!(f[5], du1[2] - 1.0);
}

#[test]
fn homogeneous_residual_subtracts_zero() {
    let dom = two_interval_domain();
    let coll = dom.collocation(0.5, 1.0, 2.0);
    let u = vec![1.0, 2.0, 4.0, 5.0, 7.0, 11.0];
    let bc = BoundaryCondition::Dirichlet(0.0);
    let f = residual(&PoissonODE, &u, &coll, None, &bc, &bc, 0.0, 1.0);
    let d0 = &coll.intervals[0].dmatrix;
    let du0 = apply_matrix(d0, &vec![1.0, 2.0, 4.0], 0.0);
    assert_eq!(f[1], apply_matrix(d0, &du0, 0.0)[1]);
    assert_eq!(f[5], 11.0);
}

#[test]
fn jacobian_residual_is_the_residual_of_the_values() {
    let dom = two_interval_domain();
    let coll = dom.collocation(0.5, 1.0, 2.0);
    let dual = coll.to_dual(0.0);
    let u = vec![0.5, 1.0, -2.0, -2.0, 3.0, 0.25];
    let forcing = vec![vec![1.0, 2.0, 3.0], vec![4.0, 5.0, 6.0]];
    let dual_forcing: Vec<Vec<Dual<f64>>> = forcing
        .iter()
        .map(|row| row.iter().map(|&v| Dual { real: v, eps: 0.0 }).collect())
        .collect();
    let (_, r) = build_J_R(
        &BurgersODE,
        &u,
        &dual,
        Some(&dual_forcing),
        BoundaryCondition::Dirichlet(Dual { real: 1.0, eps: 0.0 }),
        BoundaryCondition::Neumann(Dual { real: 2.0, eps: 0.0 }),
        0.0,
        1.0,
    );
    let direct = residual(
        &BurgersODE,
        &u,
        &coll,
        Some(&forcing),
        &BoundaryCondition::Dirichlet(1.0),
        &BoundaryCondition::Neumann(2.0),
        0.0,
        1.0,
    );
    assert_eq!(r, direct);
}

#[test]
fn jacobian_columns_are_seeded_derivatives() {
    let dom = two_interval_domain();
    let dual = dom.collocation(0.5, 1.0, 2.0).to_dual(0.0);
    let u = vec![0.5, 1.0, -2.0, -2.0, 3.0, 0.25];
    let bc = BoundaryCondition::Dirichlet(Dual { real: 0.0, eps: 0.0 });
    let (j, _) = build_J_R(&NonlinearDiffusionODE, &u, &dual, None, bc, bc, 0.0, 1.0);
    for k in 0..6 {
        let col = jacobian_column(&NonlinearDiffusionODE, &u, &dual, None, &bc, &bc, k, 0.0, 1.0);
        for g in 0..6 {
            assert_eq!(j.rows[g][k], col[g]);
        }
    }
    // Dirichlet rows: ∂(u₀ − 0)/∂u₀ = 1; value-continuity row: ∂(u₂ − u₃) = (1, −1)
    assert_eq!(j.rows[0], vec![1.0, 0.0, 0.0, 0.0, 0.0, 0.0]);
    assert_eq!(j.rows[3], vec![0.0, 0.0, 1.0, -1.0, 0.0, 0.0]);
    assert_eq!(j.rows[5], vec![0.0, 0.0, 0.0, 0.0, 0.0, 1.0]);
}

#[test]
fn jacobian_of_integer_problem_is_exact() {
    // On integers every operation is exact: the Poisson Jacobian is the
    // (integer) second-difference structure of the differentiation matrices.
    let d = Matrix::from_rows(3, vec![vec![0i64, 1, 0], vec![0, 0, 1], vec![0, 0, 0]]).unwrap();
    let dom = collocation::multi_interval_domain::CollocationDomain {
        intervals: vec![collocation::multi_interval_domain::CollocationInterval {
            points: vec![0i64, 1, 2],
            dmatrix: d,
        }],
    };
    let dual = dom.to_dual(0);
    let bc = BoundaryCondition::Dirichlet(Dual { real: 0i64, eps: 0 });
    let (j, r) = build_J_R(&PoissonODE, &vec![1i64, 2, 3], &dual, None, bc, bc, 0, 1);
    // row 1 is u'' at node 1 = (d·d·u)[1] = 0; it does not depend on u
    assert_eq!(r, vec![1, 0, 3]);
    assert_eq!(j.rows, vec![vec![1, 0, 0], vec![0, 0, 0], vec![0, 0, 1]]);
}

#[test]
fn band_storage_packs_columns() {
    let a = m(vec![vec![1.0, 2.0, 0.0], vec![3.0, 4.0, 5.0], vec![0.0, 6.0, 7.0]]);
    // kl = ku = 1: ldab = 4, row kl + ku + i − j = 2 + i − j of column j
    let ab = band_storage(&a, 1, 1, 0.0);
    assert_eq!(
        ab,
        vec![
            0.0, 0.0, 1.0, 3.0, // column 0: rows 2 (i = 0), 3 (i = 1)
            0.0, 2.0, 4.0, 6.0, // column 1: i = 0, 1, 2
            0.0, 5.0, 7.0, 0.0, // column 2: i = 1, 2
        ]
    );
}

#[test]
fn band_storage_of_empty_matrix_is_empty() {
    let a = Matrix::<f64>::from_rows(0, vec![]).unwrap();
    assert!(band_storage(&a, 2, 1, 0.0).is_empty());
}
