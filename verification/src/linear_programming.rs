//! The basis of the big-M simplex tableau.
//!
//! For a problem `min cᵀx  s.t.  Ax = b, x ≥ 0` with `m` constraints and `n`
//! variables, the tableau has the `n` original columns followed by one artificial
//! column per constraint (column `n + i` for row `i`). The basis records, for each
//! constraint row, the column that is basic in it.

use vstd::prelude::*;
use crate::selection::{first_min_below, picks};

verus! {

/// The basic column of each constraint row of a simplex tableau.
pub struct Basis {
    rows: Vec<usize>,
}

/// Row `i` is the last row of `basis` whose basic column is `j`.
pub open spec fn is_last_row_of(basis: Seq<usize>, j: usize, i: int) -> bool {
    &&& 0 <= i < basis.len()
    &&& basis[i] == j
    &&& forall|k: int| i < k < basis.len() ==> basis[k] != j
}

/// No row of `basis` has `j` as its basic column.
pub open spec fn is_nonbasic(basis: Seq<usize>, j: usize) -> bool {
    forall|k: int| 0 <= k < basis.len() ==> basis[k] != j
}

/// What the row of a variable means: row `i` holds `j` as its basic column and
/// no later row does; a nonbasic variable is basic in no row. A variable is
/// either nonbasic or has exactly one last row.
pub proof fn lemma_variable_row_meaning(basis: Seq<usize>, j: usize, i: int, i2: int)
    ensures
        is_last_row_of(basis, j, i) <==> (0 <= i < basis.len() && basis[i] == j && forall|k: int|
            i < k < basis.len() ==> #[trigger] basis[k] != j),
        is_nonbasic(basis, j) <==> !basis.contains(j),
        is_last_row_of(basis, j, i) ==> !is_nonbasic(basis, j),
        is_last_row_of(basis, j, i) && is_last_row_of(basis, j, i2) ==> i == i2,
{
    if is_nonbasic(basis, j) && basis.contains(j) {
        let k = choose|k: int| 0 <= k < basis.len() && basis[k] == j;
        assert(basis[k] != j);
    }
    if is_last_row_of(basis, j, i) && is_last_row_of(basis, j, i2) {
        if i < i2 {
            assert(basis[i2] == j);
        } else if i2 < i {
            assert(basis[i] == j);
        }
    }
}

impl View for Basis {
    type V = Seq<usize>;

    closed spec fn view(&self) -> Seq<usize> {
        self.rows@
    }
}

impl Basis {
    /// The starting basis of the big-M method: row `i` holds its artificial
    /// column `n + i`.
    pub fn artificial(n: usize, m: usize) -> (basis: Basis)
        requires
            n + m <= usize::MAX,
        ensures
            basis@ == Seq::new(m as nat, |i: int| (n + i) as usize),
    {
        let mut rows: Vec<usize> = Vec::new();
        let mut i: usize = 0;
        while i < m
            invariant
                i <= m,
                n + m <= usize::MAX,
                rows@ == Seq::new(i as nat, |k: int| (n + k) as usize),
            decreases m - i,
        {
            rows.push(n + i);
            i = i + 1;
        }
        Basis { rows }
    }

    /// The number of constraint rows.
    pub fn len(&self) -> (r: usize)
        ensures
            r == self@.len(),
    {
        self.rows.len()
    }

    /// The column that is basic in `row`.
    pub fn column(&self, row: usize) -> (c: usize)
        requires
            row < self@.len(),
        ensures
            c == self@[row as int],
    {
        self.rows[row]
    }

    /// A pivot on (`row`, `col`): `col` enters the basis in place of the column
    /// that was basic in `row`.
    pub fn pivot(&mut self, row: usize, col: usize)
        requires
            row < old(self)@.len(),
        ensures
            final(self)@ == old(self)@.update(row as int, col),
    {
        self.rows.set(row, col);
    }

    /// For each original variable `j < n`, the tableau row whose right-hand side
    /// holds its value: the last row in which `j` is basic, or `None` when `j` is
    /// nonbasic (its value is zero). Artificial columns (`≥ n`) are not listed.
    pub fn variable_rows(&self, n: usize) -> (r: Vec<Option<usize>>)
        ensures
            r@.len() == n,
            forall|j: int|
                0 <= j < n ==> match #[trigger] r@[j] {
                    Some(i) => is_last_row_of(self@, j as usize, i as int),
                    None => is_nonbasic(self@, j as usize),
                },
            forall|j1: int, j2: int|
                0 <= j1 < n && 0 <= j2 < n && #[trigger] r@[j1] is Some && #[trigger] r@[j2] is Some
                    && r@[j1] == r@[j2] ==> j1 == j2,
    {
        let mut r: Vec<Option<usize>> = Vec::new();
        let mut j: usize = 0;
        while j < n
            invariant
                j <= n,
                r@ == Seq::new(j as nat, |k: int| None::<usize>),
            decreases n - j,
        {
            r.push(None);
            j = j + 1;
        }
        let rows_len = self.rows.len();
        let mut i: usize = 0;
        while i < rows_len
            invariant
                rows_len == self@.len(),
                i <= rows_len,
                r@.len() == n,
                forall|j: int|
                    0 <= j < n ==> match #[trigger] r@[j] {
                        Some(row) => {
                            &&& 0 <= row < i
                            &&& self@[row as int] == j
                            &&& forall|k: int| row < k < i ==> self@[k] != j
                        },
                        None => forall|k: int| 0 <= k < i ==> self@[k] != j,
                    },
            decreases rows_len - i,
        {
            let col = self.rows[i];
            if col < n {
                r.set(col, Some(i));
            }
            i = i + 1;
        }
        proof {
            assert forall|j1: int, j2: int|
                0 <= j1 < n && 0 <= j2 < n && #[trigger] r@[j1] is Some && #[trigger] r@[j2] is Some
                    && r@[j1] == r@[j2] implies j1 == j2 by {
                let row = r@[j1]->0;
                assert(self@[row as int] == j1);
                assert(self@[row as int] == j2);
            }
        }
        r
    }
}

impl Basis {
    /// The rows, in increasing order, whose basic column is artificial (index at
    /// least `n`). A solution is feasible only if every such row has a zero
    /// right-hand side.
    pub fn artificial_rows(&self, n: usize) -> (r: Vec<usize>)
        ensures
            forall|k: int| 0 <= k < r@.len() ==> #[trigger] r@[k] < self@.len() && self@[r@[k] as int] >= n,
            forall|k: int, l: int| 0 <= k < l < r@.len() ==> #[trigger] r@[k] < #[trigger] r@[l],
            forall|i: int| 0 <= i < self@.len() && self@[i] >= n ==> #[trigger] r@.contains(i as usize),
    {
        let mut r: Vec<usize> = Vec::new();
        let rows_len = self.rows.len();
        let mut i: usize = 0;
        while i < rows_len
            invariant
                rows_len == self@.len(),
                i <= rows_len,
                forall|k: int| 0 <= k < r@.len() ==> #[trigger] r@[k] < i && self@[r@[k] as int] >= n,
                forall|k: int, l: int| 0 <= k < l < r@.len() ==> #[trigger] r@[k] < #[trigger] r@[l],
                forall|j: int| 0 <= j < i && self@[j] >= n ==> #[trigger] r@.contains(j as usize),
            decreases rows_len - i,
        {
            if self.rows[i] >= n {
                let ghost before = r@;
                r.push(i);
                proof {
                    assert forall|j: int| 0 <= j < i + 1 && self@[j] >= n implies #[trigger] r@.contains(j as usize) by {
                        if j < i {
                            assert(before.contains(j as usize));
                            let q = choose|q: int| 0 <= q < before.len() && before[q] == j as usize;
                            assert(r@[q] == j as usize);
                        } else {
                            assert(r@[before.len() as int] == i);
                        }
                    }
                }
            }
            i = i + 1;
        }
        r
    }
}

/// Where a simplex run stands.
#[derive(PartialEq, Eq, Structural, Clone, Copy, Debug)]
pub enum SimplexStatus {
    /// An entering column has to be chosen.
    Entering,
    /// A column has been chosen to enter; the leaving row has to be chosen.
    Leaving,
    /// No reduced cost lies below the threshold: the basis is optimal.
    Optimal,
    /// The entering column has no row that limits it: the problem is unbounded.
    Unbounded,
    /// Every iteration of the budget pivoted.
    IterationLimit,
}

/// The pivoting control of the big-M simplex method: the basis, the iteration
/// count and the termination status.
///
/// Each iteration first chooses the entering column (the most negative reduced
/// cost below `-tol`, first on ties); if there is none the run is optimal. It then
/// chooses the leaving row by the ratio test (the least ratio, first on ties); if
/// there is none the run is unbounded. Otherwise the pair is pivoted into the
/// basis and the next iteration starts, until the budget is spent.
pub struct SimplexRun {
    basis: Basis,
    columns: usize,
    max_iter: usize,
    iteration: usize,
    entering: usize,
    status: SimplexStatus,
}

impl SimplexRun {
    #[verifier::type_invariant]
    spec fn consistent(self) -> bool {
        &&& self.iteration <= self.max_iter
        &&& self.status == SimplexStatus::IterationLimit <==> self.iteration == self.max_iter
        &&& self.status == SimplexStatus::Leaving ==> self.entering < self.columns
    }

    /// The basis.
    pub closed spec fn basis_view(self) -> Seq<usize> {
        self.basis@
    }

    /// The number of tableau columns that may enter (original and artificial).
    pub closed spec fn columns(self) -> nat {
        self.columns as nat
    }

    pub closed spec fn max_iter(self) -> nat {
        self.max_iter as nat
    }

    /// The number of pivots done.
    pub closed spec fn iteration(self) -> nat {
        self.iteration as nat
    }

    /// The column chosen to enter, while the leaving row is being chosen.
    pub closed spec fn entering(self) -> nat {
        self.entering as nat
    }

    pub closed spec fn state(self) -> SimplexStatus {
        self.status
    }

    /// A run for `m` constraints over `n` variables with budget `max_iter`,
    /// starting from the artificial basis. With an empty budget the run is at its
    /// iteration limit at once.
    pub fn new(n: usize, m: usize, max_iter: usize) -> (run: SimplexRun)
        requires
            n + m <= usize::MAX,
        ensures
            run.basis_view() == Seq::new(m as nat, |i: int| (n + i) as usize),
            run.columns() == n + m,
            run.max_iter() == max_iter,
            run.iteration() == 0,
            run.state() == if max_iter == 0 {
                SimplexStatus::IterationLimit
            } else {
                SimplexStatus::Entering
            },
    {
        SimplexRun {
            basis: Basis::artificial(n, m),
            columns: n + m,
            max_iter,
            iteration: 0,
            entering: 0,
            status: if max_iter == 0 {
                SimplexStatus::IterationLimit
            } else {
                SimplexStatus::Entering
            },
        }
    }

    /// The basis.
    pub fn basis(&self) -> (b: &Basis)
        ensures
            b@ == self.basis_view(),
    {
        &self.basis
    }

    pub fn status(&self) -> (r: SimplexStatus)
        ensures
            r == self.state(),
    {
        self.status
    }

    /// The number of pivots done, which is the budget exactly when the run hit
    /// its iteration limit.
    pub fn iterations(&self) -> (r: usize)
        ensures
            r == self.iteration(),
            r <= self.max_iter(),
            (r == self.max_iter()) == (self.state() == SimplexStatus::IterationLimit),
    {
        proof {
            use_type_invariant(self);
        }
        self.iteration
    }

    /// Whether the run found an optimal basis.
    pub fn converged(&self) -> (r: bool)
        ensures
            r == (self.state() == SimplexStatus::Optimal),
    {
        self.status == SimplexStatus::Optimal
    }

    /// Chooses the entering column from the reduced-cost keys: the first least
    /// key below `bound`. Without one the run is optimal.
    pub fn choose_entering(&mut self, cost_keys: &Vec<Option<i64>>, bound: Option<i64>) -> (r: Option<usize>)
        requires
            old(self).state() == SimplexStatus::Entering,
            cost_keys@.len() == old(self).columns(),
        ensures
            picks(cost_keys@, bound, r),
            r is None ==> final(self).state() == SimplexStatus::Optimal,
            r matches Some(c) ==> final(self).state() == SimplexStatus::Leaving && final(self).entering() == c,
            final(self).basis_view() == old(self).basis_view(),
            final(self).iteration() == old(self).iteration(),
            final(self).columns() == old(self).columns(),
            final(self).max_iter() == old(self).max_iter(),
    {
        proof {
            use_type_invariant(&*self);
        }
        let r = match bound {
            Some(b) => first_min_below(cost_keys, b),
            None => None,
        };
        match r {
            Some(c) => {
                self.entering = c;
                self.status = SimplexStatus::Leaving;
            },
            None => {
                self.status = SimplexStatus::Optimal;
            },
        }
        r
    }

    /// Chooses the leaving row from the ratio keys of the entering column: the
    /// first least key below `bound`. Without one the run is unbounded; with one
    /// the entering column becomes basic in that row and the iteration is done.
    pub fn choose_leaving(&mut self, ratio_keys: &Vec<Option<i64>>, bound: Option<i64>) -> (r: Option<usize>)
        requires
            old(self).state() == SimplexStatus::Leaving,
            ratio_keys@.len() == old(self).basis_view().len(),
        ensures
            picks(ratio_keys@, bound, r),
            r is None ==> {
                &&& final(self).state() == SimplexStatus::Unbounded
                &&& final(self).basis_view() == old(self).basis_view()
                &&& final(self).iteration() == old(self).iteration()
            },
            r matches Some(row) ==> {
                &&& final(self).basis_view() == old(self).basis_view().update(
                    row as int,
                    old(self).entering() as usize,
                )
                &&& final(self).iteration() == old(self).iteration() + 1
                &&& final(self).state() == if final(self).iteration() == old(self).max_iter() {
                    SimplexStatus::IterationLimit
                } else {
                    SimplexStatus::Entering
                }
            },
            final(self).columns() == old(self).columns(),
            final(self).max_iter() == old(self).max_iter(),
    {
        proof {
            use_type_invariant(&*self);
        }
        let r = match bound {
            Some(b) => first_min_below(ratio_keys, b),
            None => None,
        };
        match r {
            Some(row) => {
                let mut basis = Basis::artificial(0, 0);
                std::mem::swap(&mut basis, &mut self.basis);
                basis.pivot(row, self.entering);
                let next = self.iteration + 1;
                *self = SimplexRun {
                    basis,
                    columns: self.columns,
                    max_iter: self.max_iter,
                    iteration: next,
                    entering: self.entering,
                    status: if next == self.max_iter {
                        SimplexStatus::IterationLimit
                    } else {
                        SimplexStatus::Entering
                    },
                };
            },
            None => {
                self.status = SimplexStatus::Unbounded;
            },
        }
        r
    }
}

} // verus!
