//! Discrete core of a convex optimization toolkit.
//!
//! The numerical solvers (gradient descent, Newton's method, barrier methods, the
//! simplex method, the active-set QP solver, proximal operators, resource
//! allocation) work on floating-point vectors. The decisions that steer them are
//! combinatorial and are stated and proved here:
//!
//! - `iteration`: the iteration control of the descent methods (iteration count,
//!   recorded values, convergence tests on keys, exhaustion of the budget);
//! - `selection`: the pivoting rules (first strict minimum below a bound) and the
//!   stable descending order used by the simplex projection, over integer keys;
//! - `linear_programming`: the basis of the big-M simplex tableau, the rows where
//!   artificial columns stay basic, and the pivoting control of the simplex
//!   method (optimal, unbounded, iteration limit);
//! - `quadratic_programming`: the working set of the active-set method and its
//!   iteration control (converge, release, step, iteration limit);
//! - `resource_allocation`: the block layout of the stacked allocation vector.
//!
//! Everything here is proved over the integer keys themselves. The callers derive
//! each key from a floating-point value by a mapping meant to order keys as the
//! values compare (NaN gets no key); that mapping works on float bit patterns,
//! stands outside this crate, and is checked by tests on sample values only, not
//! proved.

pub mod iteration;
pub mod selection;
pub mod linear_programming;
pub mod quadratic_programming;
pub mod resource_allocation;
