# convex-rs

Convex optimization in Rust: gradient descent, Newton's method, barrier methods,
the simplex method, an active-set QP solver, duality checks, proximal operators and
resource allocation.

## Layout

- `src/` — the verified core (Verus). It holds the combinatorial decisions of the
  solvers, each with a contract proved by Verus:
  - `iteration`: `DescentRun`, the iteration control shared by gradient descent,
    Newton's method, the proximal gradient and lasso solvers and the outer loop
    of the barrier method: iteration count, recorded values, convergence on the
    first passing test, exhaustion of the budget;
  - `selection`: the pivot rule "first position of the least key below a bound"
    (simplex entering column and ratio test, active-set blocking and release), the
    last flagged position, and the stable descending order used by the projection
    onto the probability simplex (with a proof that this order is unique);
  - `linear_programming`: the basis of the big-M simplex tableau, the row that
    holds each basic variable, the rows where an artificial column stays basic, and `SimplexRun` (entering and leaving choices,
    pivots, optimal / unbounded / iteration-limit termination);
  - `quadratic_programming`: the working set of the active-set method, which never
    lists a constraint twice and never outgrows the number of constraints, and
    `QpRun` (converge, release, blocking step, iteration limit);
  - `resource_allocation`: the block layout of the stacked allocation vector, with
    a proof that it is a bijection.
- `app/` — the numerical library built on `nalgebra` and `serde`. All of its
  arithmetic is floating point, which Verus does not reason about here; it turns
  floating-point values into order-preserving integer keys and calls the verified
  core for every decision listed above.
- `tests/` — tests of the verified core, including checks that the keyed rules
  decide as the plain floating-point comparisons do.
