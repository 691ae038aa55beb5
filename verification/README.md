# collocation

Multi-interval Chebyshev collocation for nonlinear two-point boundary-value
problems, with the Newton Jacobian computed by forward-mode automatic
differentiation over dual numbers.

The library in `src/` is generic over the scalar type and verified with Verus:

- `dual` — dual numbers and their arithmetic (sum, product and quotient rules,
  chain rules for elementary functions given their values);
- `dual_laws` — identities of the dual-number rules (powers, quotients, `exp`,
  `sin`/`cos`, `ln`) over a field;
- `matrix`, `matrix_op` — dense matrices and matrix–vector products;
- `multi_interval_domain` — Chebyshev differentiation matrices, intervals,
  domains, their collocation data and the global differentiation matrix;
- `boundary_conditions` — Dirichlet and Neumann conditions;
- `automatic_derivative` — the operator trait and the collocation residual;
- `jacobian` — residual and Jacobian by automatic differentiation, and how a
  forcing term moves them;
- `test_odes` — model operators;
- `banded` — LAPACK band storage;
- `sparsity` — the band structure of the Jacobian;
- `plotting` — the nodes and values a plot of the solution shows;
- `primal`, `tangent` — proofs that evaluation on dual numbers gives the
  residual in its value parts and the residual's derivative in its derivative
  parts.

`app/` holds the program: the floating-point construction of the domain, the
forcing terms, the Newton loop with a banded LAPACK solve, parallel Jacobian
columns and the plot.
