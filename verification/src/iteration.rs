//! Iteration control of the descent methods.
//!
//! Gradient descent, Newton's method, the proximal gradient method, the lasso
//! solver and the outer loop of the barrier method share one control scheme: each
//! iteration records one value (an objective value, or a point of the central
//! path), then runs a convergence test (a norm or a duality gap strictly below a
//! tolerance). The run stops at the first iteration, from `min_stop` on, whose test
//! passes; otherwise it goes on until the iteration budget is spent. Some methods
//! record one more value after the budget is spent, and some test convergence once
//! more at the final point.
//!
//! `DescentRun` is that scheme as a state machine: the caller evaluates, reports
//! each record and each test, and reads back the iteration count, the number of
//! recorded values and the convergence status.

use vstd::prelude::*;

verus! {

/// `value` lies strictly below `threshold`; a missing key (an unordered value)
/// is below nothing and nothing is below it.
pub open spec fn below(value: Option<i64>, threshold: Option<i64>) -> bool {
    &&& value is Some
    &&& threshold is Some
    &&& value->0 < threshold->0
}

/// Decides a convergence test `value < threshold` on the keys of both sides.
pub fn is_below(value: Option<i64>, threshold: Option<i64>) -> (r: bool)
    ensures
        r == below(value, threshold),
{
    match (value, threshold) {
        (Some(v), Some(t)) => v < t,
        _ => false,
    }
}

/// The convergence test is strict less-than on keys: for every pair of keys,
/// `v` is below `t` exactly when `v < t`, and a missing key on either side never
/// passes. Below is irreflexive and transitive, like `<` on the values.
pub proof fn lemma_below_is_strict_less_than(v: i64, t: i64, u: i64)
    ensures
        below(Some(v), Some(t)) <==> v < t,
        !below(None, Some(t)),
        !below(Some(v), None),
        !below(None, None),
        !below(Some(v), Some(v)),
        below(Some(v), Some(t)) && below(Some(t), Some(u)) ==> below(Some(v), Some(u)),
        below(Some(v), Some(t)) ==> !below(Some(t), Some(v)),
{
}

/// A run stops at test `k` exactly when `k` is at least `min_stop` and that test
/// passed; a failed test, or a test before `min_stop`, never stops it.
pub proof fn lemma_stops_at_meaning(outcomes: Seq<bool>, min_stop: nat, k: int)
    requires
        0 <= k < outcomes.len(),
    ensures
        stops_at(outcomes, min_stop, k) <==> (k >= min_stop && outcomes[k]),
        !outcomes[k] ==> !stops_at(outcomes, min_stop, k),
        k < min_stop ==> !stops_at(outcomes, min_stop, k),
{
}

/// Where a run stands.
#[derive(PartialEq, Eq, Structural, Clone, Copy, Debug)]
pub enum Phase {
    /// The next iteration has to record its value.
    Evaluate,
    /// The current iteration has recorded its value and has to run its test.
    Test,
    /// The test of the current iteration passed: the run has converged.
    Converged,
    /// Every iteration of the budget ran without a passing test.
    Exhausted,
}

/// The run stops at test `k` exactly when `k` is at least `min_stop` and the test
/// passed.
pub open spec fn stops_at(outcomes: Seq<bool>, min_stop: nat, k: int) -> bool {
    k >= min_stop && outcomes[k]
}

/// The state of a descent run.
pub struct DescentRun {
    max_iter: usize,
    min_stop: usize,
    iteration: usize,
    recorded: usize,
    phase: Phase,
    final_recorded: bool,
    final_converged: bool,
    outcomes: Ghost<Seq<bool>>,
}

impl DescentRun {
    #[verifier::type_invariant]
    spec fn consistent(self) -> bool {
        &&& self.iteration <= self.max_iter
        &&& self.final_recorded ==> self.phase == Phase::Exhausted
        &&& self.final_converged ==> self.phase == Phase::Exhausted
        &&& forall|k: int| 0 <= k < self.outcomes@.len() && k != self.iteration ==> !#[trigger] stops_at(
            self.outcomes@,
            self.min_stop as nat,
            k,
        )
        &&& match self.phase {
            Phase::Evaluate => {
                &&& self.iteration < self.max_iter
                &&& self.recorded == self.iteration
                &&& self.outcomes@.len() == self.iteration
            },
            Phase::Test => {
                &&& self.iteration < self.max_iter
                &&& self.recorded == self.iteration + 1
                &&& self.outcomes@.len() == self.iteration
            },
            Phase::Converged => {
                &&& self.iteration < self.max_iter
                &&& self.recorded == self.iteration + 1
                &&& self.outcomes@.len() == self.iteration + 1
                &&& stops_at(self.outcomes@, self.min_stop as nat, self.iteration as int)
            },
            Phase::Exhausted => {
                &&& self.iteration == self.max_iter
                &&& self.recorded == self.iteration + (if self.final_recorded { 1int } else { 0 })
                &&& self.outcomes@.len() == self.max_iter
            },
        }
    }

    /// The iteration budget.
    pub closed spec fn max_iter(self) -> nat {
        self.max_iter as nat
    }

    /// The first iteration whose passing test stops the run.
    pub closed spec fn min_stop(self) -> nat {
        self.min_stop as nat
    }

    /// The current iteration (after the run: the iteration it stopped at, or the
    /// budget).
    pub closed spec fn iteration(self) -> nat {
        self.iteration as nat
    }

    /// The number of values recorded so far.
    pub closed spec fn recorded(self) -> nat {
        self.recorded as nat
    }

    pub closed spec fn phase(self) -> Phase {
        self.phase
    }

    /// Whether the value after the budget has been recorded.
    pub closed spec fn final_recorded(self) -> bool {
        self.final_recorded
    }

    /// Whether the test at the final point passed.
    pub closed spec fn final_converged(self) -> bool {
        self.final_converged
    }

    /// The outcome of every test run so far, in order.
    pub closed spec fn outcomes(self) -> Seq<bool> {
        self.outcomes@
    }

    /// A run with budget `max_iter` whose tests can stop it from iteration
    /// `min_stop` on. With an empty budget the run is exhausted at once.
    pub fn new(max_iter: usize, min_stop: usize) -> (run: DescentRun)
        ensures
            run.max_iter() == max_iter,
            run.min_stop() == min_stop,
            run.iteration() == 0,
            run.recorded() == 0,
            run.outcomes() == Seq::<bool>::empty(),
            !run.final_recorded(),
            !run.final_converged(),
            run.phase() == if max_iter == 0 { Phase::Exhausted } else { Phase::Evaluate },
    {
        DescentRun {
            max_iter,
            min_stop,
            iteration: 0,
            recorded: 0,
            phase: if max_iter == 0 { Phase::Exhausted } else { Phase::Evaluate },
            final_recorded: false,
            final_converged: false,
            outcomes: Ghost(Seq::empty()),
        }
    }

    /// Whether another iteration has to run.
    pub fn is_running(&self) -> (r: bool)
        ensures
            r == (self.phase() == Phase::Evaluate),
    {
        self.phase == Phase::Evaluate
    }

    /// The current iteration: while running, the index of the iteration under
    /// way; after a convergence, the iteration whose test passed; after the
    /// budget is spent, the budget.
    pub fn iterations(&self) -> (r: usize)
        ensures
            r == self.iteration(),
            r <= self.max_iter(),
            self.phase() == Phase::Converged ==> r < self.max_iter() && r >= self.min_stop(),
            self.phase() == Phase::Exhausted ==> r == self.max_iter(),
            // The run is decided by the outcomes of its tests: it converged at the
            // first test, from `min_stop` on, that passed, and it is exhausted when
            // no such test passed within the budget.
            self.phase() == Phase::Converged ==> stops_at(self.outcomes(), self.min_stop(), r as int),
            self.phase() == Phase::Converged || self.phase() == Phase::Exhausted ==> forall|k: int|
                0 <= k < r ==> !#[trigger] stops_at(self.outcomes(), self.min_stop(), k),
            self.phase() == Phase::Exhausted ==> self.outcomes().len() == self.max_iter(),
            self.phase() == Phase::Converged ==> self.outcomes().len() == r + 1,
    {
        proof {
            use_type_invariant(self);
        }
        self.iteration
    }

    /// The number of recorded values: one per iteration that has run, plus one if
    /// the value after the budget was recorded.
    pub fn recorded_count(&self) -> (r: usize)
        ensures
            r == self.recorded(),
            self.phase() == Phase::Evaluate ==> r == self.iteration(),
            self.phase() == Phase::Test ==> r == self.iteration() + 1,
            self.phase() == Phase::Converged ==> r == self.iteration() + 1,
            self.phase() == Phase::Exhausted ==> r == self.max_iter() + (if self.final_recorded() {
                1int
            } else {
                0
            }),
    {
        proof {
            use_type_invariant(self);
        }
        self.recorded
    }

    /// Whether the run converged: its test passed at some iteration, or the test
    /// at the final point passed.
    pub fn converged(&self) -> (r: bool)
        ensures
            r == (self.phase() == Phase::Converged || self.final_converged()),
    {
        self.phase == Phase::Converged || self.final_converged
    }

    /// The current iteration has recorded its value.
    pub fn record(&mut self)
        requires
            old(self).phase() == Phase::Evaluate,
        ensures
            final(self).phase() == Phase::Test,
            final(self).recorded() == old(self).recorded() + 1,
            final(self).iteration() == old(self).iteration(),
            final(self).max_iter() == old(self).max_iter(),
            final(self).min_stop() == old(self).min_stop(),
            final(self).outcomes() == old(self).outcomes(),
            !final(self).final_recorded(),
            !final(self).final_converged(),
    {
        proof {
            use_type_invariant(&*self);
        }
        *self = DescentRun { recorded: self.recorded + 1, phase: Phase::Test, ..*self };
    }

    /// Runs the convergence test `value < threshold` of the current iteration.
    /// The run stops when the test passes at an iteration from `min_stop` on;
    /// otherwise it moves to the next iteration, or is exhausted when that was
    /// the last one. Returns whether the run stopped.
    pub fn test(&mut self, value: Option<i64>, threshold: Option<i64>) -> (stop: bool)
        requires
            old(self).phase() == Phase::Test,
        ensures
            final(self).outcomes() == old(self).outcomes().push(below(value, threshold)),
            stop == (below(value, threshold) && old(self).iteration() >= old(self).min_stop()),
            stop ==> final(self).phase() == Phase::Converged && final(self).iteration()
                == old(self).iteration(),
            !stop ==> final(self).iteration() == old(self).iteration() + 1,
            !stop ==> final(self).phase() == if final(self).iteration() == old(self).max_iter() {
                Phase::Exhausted
            } else {
                Phase::Evaluate
            },
            final(self).recorded() == old(self).recorded(),
            final(self).max_iter() == old(self).max_iter(),
            final(self).min_stop() == old(self).min_stop(),
            !final(self).final_recorded(),
            !final(self).final_converged(),
    {
        proof {
            use_type_invariant(&*self);
        }
        let passed = is_below(value, threshold);
        let ghost outcomes = self.outcomes@.push(passed);
        proof {
            assert forall|k: int| 0 <= k < self.iteration implies !#[trigger] stops_at(
                outcomes,
                self.min_stop as nat,
                k,
            ) by {
                assert(outcomes[k] == self.outcomes@[k]);
                assert(!stops_at(self.outcomes@, self.min_stop as nat, k));
            }
        }
        if passed && self.iteration >= self.min_stop {
            *self = DescentRun { phase: Phase::Converged, outcomes: Ghost(outcomes), ..*self };
            true
        } else {
            let next = self.iteration + 1;
            proof {
                assert(!stops_at(outcomes, self.min_stop as nat, self.iteration as int));
            }
            *self = DescentRun {
                iteration: next,
                phase: if next == self.max_iter { Phase::Exhausted } else { Phase::Evaluate },
                outcomes: Ghost(outcomes),
                ..*self
            };
            false
        }
    }

    /// The value at the final point has been recorded after the budget was spent.
    pub fn record_final(&mut self)
        requires
            old(self).phase() == Phase::Exhausted,
            !old(self).final_recorded(),
            old(self).max_iter() < usize::MAX,
        ensures
            final(self).final_recorded(),
            final(self).recorded() == old(self).recorded() + 1,
            final(self).phase() == Phase::Exhausted,
            final(self).iteration() == old(self).iteration(),
            final(self).max_iter() == old(self).max_iter(),
            final(self).min_stop() == old(self).min_stop(),
            final(self).outcomes() == old(self).outcomes(),
            final(self).final_converged() == old(self).final_converged(),
    {
        proof {
            use_type_invariant(&*self);
        }
        *self = DescentRun { recorded: self.recorded + 1, final_recorded: true, ..*self };
    }

    /// Runs the convergence test `value < threshold` once more at the final point,
    /// after the budget was spent; the run counts as converged when it passes.
    pub fn settle(&mut self, value: Option<i64>, threshold: Option<i64>)
        requires
            old(self).phase() == Phase::Exhausted,
        ensures
            final(self).final_converged() == below(value, threshold),
            final(self).phase() == Phase::Exhausted,
            final(self).recorded() == old(self).recorded(),
            final(self).final_recorded() == old(self).final_recorded(),
            final(self).iteration() == old(self).iteration(),
            final(self).max_iter() == old(self).max_iter(),
            final(self).min_stop() == old(self).min_stop(),
            final(self).outcomes() == old(self).outcomes(),
    {
        proof {
            use_type_invariant(&*self);
        }
        let passed = is_below(value, threshold);
        *self = DescentRun { final_converged: passed, ..*self };
    }
}

} // verus!
