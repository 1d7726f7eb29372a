//! The working set of the active-set method for quadratic programs.
//!
//! The set lists, in the order they became active, the inequality constraints
//! `aᵢᵀx ≤ bᵢ` (indices below the number of constraints) that are currently held
//! as equalities. A constraint is added only when it blocks a step and is not
//! already active, so no constraint is listed twice.

use vstd::prelude::*;
use crate::selection::{first_min_below, is_candidate, is_first_min_below, picks};

verus! {

/// The working set of the active-set method.
pub struct ActiveSet {
    members: Vec<usize>,
    constraints: usize,
}

/// The keys of the inactive constraints; active constraints take no part.
pub open spec fn inactive_keys(keys: Seq<Option<i64>>, active: Seq<usize>) -> Seq<Option<i64>> {
    Seq::new(keys.len(), |i: int| if active.contains(i as usize) { None } else { keys[i] })
}

/// The keys of the active constraints, listed by position in the working set.
pub open spec fn keys_by_position(keys: Seq<Option<i64>>, active: Seq<usize>) -> Seq<Option<i64>> {
    Seq::new(active.len(), |p: int| keys[active[p] as int])
}

/// A sequence of distinct indices below `m` has at most `m` entries.
pub proof fn lemma_distinct_indices_bounded(s: Seq<usize>, m: usize)
    requires
        s.no_duplicates(),
        forall|i: int| 0 <= i < s.len() ==> #[trigger] s[i] < m,
    ensures
        s.len() <= m,
{
    s.unique_seq_to_set();
    let range = Set::<usize>::range(0, m);
    vstd::set_lib::range_set_properties::<usize>(0, m);
    assert(s.to_set().subset_of(range));
    vstd::set_lib::lemma_len_subset(s.to_set(), range);
}

impl View for ActiveSet {
    type V = Seq<usize>;

    closed spec fn view(&self) -> Seq<usize> {
        self.members@
    }
}

impl ActiveSet {
    #[verifier::type_invariant]
    spec fn well_formed(self) -> bool {
        &&& self.members@.no_duplicates()
        &&& forall|p: int| 0 <= p < self.members@.len() ==> #[trigger] self.members@[p] < self.constraints
    }

    /// The number of inequality constraints of the problem.
    pub closed spec fn constraint_count(self) -> nat {
        self.constraints as nat
    }

    /// An empty working set for a problem with `constraints` inequalities.
    pub fn new(constraints: usize) -> (s: ActiveSet)
        ensures
            s@ == Seq::<usize>::empty(),
            s.constraint_count() == constraints,
    {
        ActiveSet { members: Vec::new(), constraints }
    }

    /// The number of active constraints, which never exceeds the number of
    /// constraints of the problem.
    pub fn len(&self) -> (r: usize)
        ensures
            r == self@.len(),
            r <= self.constraint_count(),
    {
        proof {
            use_type_invariant(self);
            lemma_distinct_indices_bounded(self.members@, self.constraints);
        }
        self.members.len()
    }

    /// Whether no constraint is active.
    pub fn is_empty(&self) -> (r: bool)
        ensures
            r == (self@.len() == 0),
    {
        self.members.len() == 0
    }

    /// The constraint at position `pos` of the working set.
    pub fn member(&self, pos: usize) -> (c: usize)
        requires
            pos < self@.len(),
        ensures
            c == self@[pos as int],
            c < self.constraint_count(),
    {
        proof {
            use_type_invariant(self);
        }
        self.members[pos]
    }

    /// Whether constraint `c` is active.
    pub fn contains(&self, c: usize) -> (r: bool)
        ensures
            r == self@.contains(c),
    {
        let mut p: usize = 0;
        while p < self.members.len()
            invariant
                p <= self.members@.len(),
                forall|q: int| 0 <= q < p ==> self.members@[q] != c,
            decreases self.members@.len() - p,
        {
            if self.members[p] == c {
                return true;
            }
            p = p + 1;
        }
        false
    }

    /// The ratio test of a step: among the inactive constraints, picks the first
    /// one whose step ratio key is the least below `bound` and makes it active.
    /// Returns the constraint that was added, or `None` when no inactive
    /// constraint blocks the step (the set is then unchanged).
    pub fn block(&mut self, ratio_keys: &Vec<Option<i64>>, bound: i64) -> (r: Option<usize>)
        requires
            ratio_keys@.len() == old(self).constraint_count(),
        ensures
            final(self).constraint_count() == old(self).constraint_count(),
            r is None <==> forall|i: int|
                !#[trigger] is_candidate(inactive_keys(ratio_keys@, old(self)@), bound, i),
            r is None ==> final(self)@ == old(self)@,
            r matches Some(c) ==> {
                &&& is_first_min_below(inactive_keys(ratio_keys@, old(self)@), bound, c as int)
                &&& !old(self)@.contains(c)
                &&& final(self)@ == old(self)@.push(c)
            },
    {
        proof {
            use_type_invariant(&*self);
        }
        let ghost masked = inactive_keys(ratio_keys@, self@);
        let mut keys: Vec<Option<i64>> = Vec::new();
        let mut i: usize = 0;
        while i < ratio_keys.len()
            invariant
                i <= ratio_keys@.len(),
                masked == inactive_keys(ratio_keys@, self@),
                keys@ == masked.take(i as int),
            decreases ratio_keys@.len() - i,
        {
            if self.contains(i) {
                keys.push(None);
            } else {
                keys.push(ratio_keys[i]);
            }
            proof {
                assert(keys@ =~= masked.take(i + 1));
            }
            i = i + 1;
        }
        assert(keys@ =~= masked);
        let chosen = first_min_below(&keys, bound);
        match chosen {
            Some(c) => {
                assert(is_candidate(masked, bound, c as int));
                assert(!self@.contains(c));
                let mut members: Vec<usize> = Vec::new();
                std::mem::swap(&mut members, &mut self.members);
                let ghost before = members@;
                members.push(c);
                proof {
                    assert forall|p: int, q: int|
                        0 <= p < members@.len() && 0 <= q < members@.len() && p != q implies members@[p]
                        != members@[q] by {
                        if p == before.len() as int {
                            assert(members@[q] == before[q]);
                        } else if q == before.len() as int {
                            assert(members@[p] == before[p]);
                        }
                    }
                }
                self.members = members;
                Some(c)
            },
            None => None,
        }
    }

    /// Whether every active constraint has a multiplier key at or above `bound`
    /// (a missing key counts as failing).
    pub fn multipliers_at_least(&self, multiplier_keys: &Vec<Option<i64>>, bound: i64) -> (r: bool)
        requires
            multiplier_keys@.len() == self.constraint_count(),
        ensures
            r == forall|p: int|
                0 <= p < self@.len() ==> {
                    let key = #[trigger] multiplier_keys@[self@[p] as int];
                    key is Some && key->0 >= bound
                },
    {
        proof {
            use_type_invariant(self);
        }
        let mut p: usize = 0;
        while p < self.members.len()
            invariant
                p <= self.members@.len(),
                multiplier_keys@.len() == self.constraints,
                forall|q: int| 0 <= q < self.members@.len() ==> #[trigger] self.members@[q] < self.constraints,
                forall|q: int|
                    0 <= q < p ==> {
                        let key = #[trigger] multiplier_keys@[self.members@[q] as int];
                        key is Some && key->0 >= bound
                    },
            decreases self.members@.len() - p,
        {
            let c = self.members[p];
            let key: Option<i64> = multiplier_keys[c];
            match key {
                Some(k) => {
                    if k < bound {
                        return false;
                    }
                },
                None => {
                    return false;
                },
            }
            p = p + 1;
        }
        true
    }

    /// Drops the active constraint whose multiplier key is the least below
    /// `bound` (the first such in the working set). Returns its position in the
    /// working set before removal, or `None` when no active multiplier lies below
    /// `bound` (the set is then unchanged).
    pub fn release(&mut self, multiplier_keys: &Vec<Option<i64>>, bound: i64) -> (r: Option<usize>)
        requires
            multiplier_keys@.len() == old(self).constraint_count(),
        ensures
            final(self).constraint_count() == old(self).constraint_count(),
            r is None <==> forall|p: int|
                !#[trigger] is_candidate(keys_by_position(multiplier_keys@, old(self)@), bound, p),
            r is None ==> final(self)@ == old(self)@,
            r matches Some(p) ==> {
                &&& is_first_min_below(keys_by_position(multiplier_keys@, old(self)@), bound, p as int)
                &&& final(self)@ == old(self)@.remove(p as int)
            },
    {
        proof {
            use_type_invariant(&*self);
        }
        let ghost by_pos = keys_by_position(multiplier_keys@, self@);
        let mut keys: Vec<Option<i64>> = Vec::new();
        let mut p: usize = 0;
        while p < self.members.len()
            invariant
                p <= self.members@.len(),
                multiplier_keys@.len() == self.constraints,
                forall|q: int| 0 <= q < self.members@.len() ==> #[trigger] self.members@[q] < self.constraints,
                by_pos == keys_by_position(multiplier_keys@, self@),
                keys@ == by_pos.take(p as int),
            decreases self.members@.len() - p,
        {
            let c = self.members[p];
            keys.push(multiplier_keys[c]);
            proof {
                assert(keys@ =~= by_pos.take(p + 1));
            }
            p = p + 1;
        }
        assert(keys@ =~= by_pos);
        let chosen = first_min_below(&keys, bound);
        match chosen {
            Some(pos) => {
                let mut members: Vec<usize> = Vec::new();
                std::mem::swap(&mut members, &mut self.members);
                let ghost before = members@;
                members.remove(pos);
                proof {
                    assert forall|a: int, b: int|
                        0 <= a < members@.len() && 0 <= b < members@.len() && a != b implies members@[a]
                        != members@[b] by {
                        let oa = if a < pos { a } else { a + 1 };
                        let ob = if b < pos { b } else { b + 1 };
                        assert(members@[a] == before[oa]);
                        assert(members@[b] == before[ob]);
                    }
                    assert forall|a: int| 0 <= a < members@.len() implies #[trigger] members@[a] < self.constraints by {
                        let oa = if a < pos { a } else { a + 1 };
                        assert(members@[a] == before[oa]);
                    }
                }
                self.members = members;
                Some(pos)
            },
            None => None,
        }
    }
}

/// Where an active-set run stands.
#[derive(PartialEq, Eq, Structural, Clone, Copy, Debug)]
pub enum QpStatus {
    /// Another iteration has to run.
    Running,
    /// The step vanished and every active multiplier is nonnegative.
    Converged,
    /// Every iteration of the budget ran without converging.
    IterationLimit,
}

/// Every active constraint has a multiplier key at or above the bound; without
/// a bound (an unordered tolerance) this holds only of an empty working set.
pub open spec fn multipliers_pass(keys: Seq<Option<i64>>, active: Seq<usize>, bound: Option<i64>) -> bool {
    match bound {
        Some(b) => forall|p: int|
            0 <= p < active.len() ==> {
                let key = #[trigger] keys[active[p] as int];
                key is Some && key->0 >= b
            },
        None => active.len() == 0,
    }
}

/// What the optimality check of a vanished step means. An empty working set
/// passes it under every bound (there is no active multiplier to fail). A working
/// set passes a bound exactly when no active constraint has a missing multiplier
/// key or a key below the bound; without a bound only the empty set passes.
/// Passing a bound implies passing every smaller bound, and adding a constraint
/// whose key is below the bound makes any working set fail.
pub proof fn lemma_multipliers_pass_meaning(
    keys: Seq<Option<i64>>,
    active: Seq<usize>,
    b: i64,
    smaller: i64,
    c: usize,
)
    requires
        forall|p: int| 0 <= p < active.len() ==> #[trigger] active[p] < keys.len(),
        c < keys.len(),
    ensures
        multipliers_pass(keys, Seq::empty(), Some(b)),
        multipliers_pass(keys, active, None) <==> active.len() == 0,
        multipliers_pass(keys, active, Some(b)) <==> !exists|p: int|
            0 <= p < active.len() && (#[trigger] keys[active[p] as int] is None || keys[active[p] as int]->0 < b),
        multipliers_pass(keys, active, Some(b)) && smaller <= b ==> multipliers_pass(keys, active, Some(smaller)),
        (keys[c as int] is None || keys[c as int]->0 < b) ==> !multipliers_pass(keys, active.push(c), Some(b)),
{
    let pushed = active.push(c);
    if keys[c as int] is None || keys[c as int]->0 < b {
        assert(pushed[active.len() as int] == c);
        let key = keys[pushed[active.len() as int] as int];
        assert(!(key is Some && key->0 >= b));
    }
    if multipliers_pass(keys, active, Some(b)) {
        assert forall|p: int| 0 <= p < active.len() implies !(#[trigger] keys[active[p] as int] is None
            || keys[active[p] as int]->0 < b) by {
            let key = keys[active[p] as int];
            assert(key is Some && key->0 >= b);
        }
    } else {
        let p = choose|p: int|
            0 <= p < active.len() && !({
                let key = #[trigger] keys[active[p] as int];
                key is Some && key->0 >= b
            });
        assert(keys[active[p] as int] is None || keys[active[p] as int]->0 < b);
    }
}

/// The ratio test of a step looks only at inactive constraints: in the masked
/// keys an active constraint carries no key, and an inactive one keeps its own.
/// The multiplier keys by position give position `p` the key of the constraint
/// listed at `p`.
pub proof fn lemma_masks_meaning(keys: Seq<Option<i64>>, active: Seq<usize>, i: int, p: int)
    ensures
        inactive_keys(keys, active).len() == keys.len(),
        0 <= i < keys.len() && active.contains(i as usize) ==> inactive_keys(keys, active)[i] is None,
        0 <= i < keys.len() && !active.contains(i as usize) ==> inactive_keys(keys, active)[i] == keys[i],
        keys_by_position(keys, active).len() == active.len(),
        0 <= p < active.len() ==> keys_by_position(keys, active)[p] == keys[active[p] as int],
{
}

/// The iteration control of the active-set method: the working set, the
/// iteration count and the termination status.
///
/// Each iteration computes a step on the working set. When the step vanishes the
/// run converges if every active multiplier is nonnegative, and otherwise drops
/// the constraint with the most negative multiplier. When the step does not
/// vanish, the first inactive constraint with the least ratio below a full step
/// blocks it and becomes active. The run ends when the budget is spent.
pub struct QpRun {
    active: ActiveSet,
    max_iter: usize,
    iteration: usize,
    status: QpStatus,
}

impl QpRun {
    #[verifier::type_invariant]
    spec fn consistent(self) -> bool {
        &&& self.iteration <= self.max_iter
        &&& self.status == QpStatus::IterationLimit <==> self.iteration == self.max_iter
    }

    /// The working set.
    pub closed spec fn active_view(self) -> Seq<usize> {
        self.active@
    }

    /// The number of inequality constraints.
    pub closed spec fn constraint_count(self) -> nat {
        self.active.constraint_count()
    }

    pub closed spec fn max_iter(self) -> nat {
        self.max_iter as nat
    }

    /// The number of iterations done.
    pub closed spec fn iteration(self) -> nat {
        self.iteration as nat
    }

    pub closed spec fn state(self) -> QpStatus {
        self.status
    }

    /// A run for `constraints` inequalities with budget `max_iter` and an empty
    /// working set. With an empty budget the run is at its limit at once.
    pub fn new(constraints: usize, max_iter: usize) -> (run: QpRun)
        ensures
            run.active_view() == Seq::<usize>::empty(),
            run.constraint_count() == constraints,
            run.max_iter() == max_iter,
            run.iteration() == 0,
            run.state() == if max_iter == 0 { QpStatus::IterationLimit } else { QpStatus::Running },
    {
        QpRun {
            active: ActiveSet::new(constraints),
            max_iter,
            iteration: 0,
            status: if max_iter == 0 { QpStatus::IterationLimit } else { QpStatus::Running },
        }
    }

    /// The working set.
    pub fn active(&self) -> (a: &ActiveSet)
        ensures
            a@ == self.active_view(),
            a.constraint_count() == self.constraint_count(),
    {
        &self.active
    }

    /// Whether another iteration has to run.
    pub fn is_running(&self) -> (r: bool)
        ensures
            r == (self.state() == QpStatus::Running),
    {
        self.status == QpStatus::Running
    }

    /// The number of iterations done; after a convergence, the iteration at which
    /// it converged; at the limit, the budget.
    pub fn iterations(&self) -> (r: usize)
        ensures
            r == self.iteration(),
            r <= self.max_iter(),
            (r == self.max_iter()) == (self.state() == QpStatus::IterationLimit),
    {
        proof {
            use_type_invariant(self);
        }
        self.iteration
    }

    /// Whether the run converged.
    pub fn converged(&self) -> (r: bool)
        ensures
            r == (self.state() == QpStatus::Converged),
    {
        self.status == QpStatus::Converged
    }

    /// The step of this iteration vanished. Converges when every active
    /// multiplier key is at or above `bound`; otherwise drops the active
    /// constraint whose multiplier key is the least below `bound` (the first such
    /// in the working set), if any, and ends the iteration. Returns whether the
    /// run converged.
    pub fn conclude_or_release(&mut self, multiplier_keys: &Vec<Option<i64>>, bound: Option<i64>) -> (optimal: bool)
        requires
            old(self).state() == QpStatus::Running,
            multiplier_keys@.len() == old(self).constraint_count(),
        ensures
            optimal == multipliers_pass(multiplier_keys@, old(self).active_view(), bound),
            optimal ==> {
                &&& final(self).state() == QpStatus::Converged
                &&& final(self).active_view() == old(self).active_view()
                &&& final(self).iteration() == old(self).iteration()
            },
            !optimal ==> {
                &&& final(self).iteration() == old(self).iteration() + 1
                &&& final(self).state() == if final(self).iteration() == old(self).max_iter() {
                    QpStatus::IterationLimit
                } else {
                    QpStatus::Running
                }
                &&& match bound {
                    None => final(self).active_view() == old(self).active_view(),
                    Some(b) => {
                        let by_pos = keys_by_position(multiplier_keys@, old(self).active_view());
                        &&& (forall|p: int| !#[trigger] is_candidate(by_pos, b, p)) ==> final(self).active_view()
                            == old(self).active_view()
                        &&& forall|p: int|
                            is_first_min_below(by_pos, b, p) ==> final(self).active_view()
                                == old(self).active_view().remove(p)
                    },
                }
            },
            final(self).constraint_count() == old(self).constraint_count(),
            final(self).max_iter() == old(self).max_iter(),
    {
        proof {
            use_type_invariant(&*self);
        }
        let optimal = match bound {
            Some(b) => self.active.multipliers_at_least(multiplier_keys, b),
            None => self.active.is_empty(),
        };
        if optimal {
            self.status = QpStatus::Converged;
            return true;
        }
        let mut active = ActiveSet::new(0);
        std::mem::swap(&mut active, &mut self.active);
        let ghost before = active@;
        if let Some(b) = bound {
            let released = active.release(multiplier_keys, b);
            proof {
                let by_pos = keys_by_position(multiplier_keys@, before);
                assert forall|p: int| is_first_min_below(by_pos, b, p) implies active@ == before.remove(p) by {
                    let q = released->0 as int;
                    if q < p {
                        assert(is_candidate(by_pos, b, q));
                    } else if p < q {
                        assert(is_candidate(by_pos, b, p));
                    }
                }
            }
        }
        let next = self.iteration + 1;
        *self = QpRun {
            active,
            max_iter: self.max_iter,
            iteration: next,
            status: if next == self.max_iter { QpStatus::IterationLimit } else { QpStatus::Running },
        };
        false
    }

    /// The step of this iteration did not vanish: the first inactive constraint
    /// whose ratio key is the least below `bound` blocks the step and becomes
    /// active (none does without a bound), and the iteration ends. Returns the
    /// blocking constraint.
    pub fn take_step(&mut self, ratio_keys: &Vec<Option<i64>>, bound: Option<i64>) -> (r: Option<usize>)
        requires
            old(self).state() == QpStatus::Running,
            ratio_keys@.len() == old(self).constraint_count(),
        ensures
            picks(inactive_keys(ratio_keys@, old(self).active_view()), bound, r),
            r is None ==> final(self).active_view() == old(self).active_view(),
            r matches Some(c) ==> final(self).active_view() == old(self).active_view().push(c),
            final(self).iteration() == old(self).iteration() + 1,
            final(self).state() == if final(self).iteration() == old(self).max_iter() {
                QpStatus::IterationLimit
            } else {
                QpStatus::Running
            },
            final(self).constraint_count() == old(self).constraint_count(),
            final(self).max_iter() == old(self).max_iter(),
    {
        proof {
            use_type_invariant(&*self);
        }
        let mut active = ActiveSet::new(0);
        std::mem::swap(&mut active, &mut self.active);
        let r = match bound {
            Some(b) => active.block(ratio_keys, b),
            None => None,
        };
        let next = self.iteration + 1;
        *self = QpRun {
            active,
            max_iter: self.max_iter,
            iteration: next,
            status: if next == self.max_iter { QpStatus::IterationLimit } else { QpStatus::Running },
        };
        r
    }
}

} // verus!
