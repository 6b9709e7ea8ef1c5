//! The sequential minimal optimization (SMO) solver for the SVM dual problem
//!
//!   minimize    f(a) = a^T Q a / 2 + p^T a
//!   subject to  0 <= a_t <= C_t,  and the linear target constraint,
//!
//! iterated by optimizing one pair of coordinates at a time, with a shrinking
//! heuristic and an optional nu-formulation with two linear equalities.

use vstd::prelude::*;
use crate::float::Float;
use crate::permutable_kernel::{swap_image, Permutable};

verus! {

/// Parameters of the solver routine.
#[derive(Clone, Copy)]
pub struct SolverParams<A> {
    /// Stopping condition.
    pub eps: A,
    /// Whether bounded coordinates are shrunk out of the working domain.
    pub shrinking: bool,
}

/// A dual variable together with its box bound.
#[derive(Clone, Copy)]
pub struct Alpha<A> {
    /// Current value of the variable.
    pub value: A,
    /// Per-coordinate upper bound.
    pub upper_bound: A,
}

impl<A: Float> Alpha<A> {
    /// Whether the value sits at (or beyond) its upper bound.
    pub open spec fn reached_upper_s(&self) -> bool {
        self.value.ge_s(self.upper_bound)
    }

    /// Whether the value sits strictly inside the box.
    pub open spec fn free_floating_s(&self) -> bool {
        self.value.lt_s(self.upper_bound) && self.value.gt_s(A::zero_s())
    }

    /// Whether the value sits at the lower bound 0.
    pub open spec fn reached_lower_s(&self) -> bool {
        self.value.eq_s(A::zero_s())
    }

    /// Pairs a value with its bound.
    pub fn from(value: A, upper_bound: A) -> (r: Alpha<A>)
        ensures
            r.value == value,
            r.upper_bound == upper_bound,
    {
        Alpha { value, upper_bound }
    }

    /// Whether the value sits at (or beyond) its upper bound.
    pub fn reached_upper(&self) -> (r: bool)
        ensures
            r == self.reached_upper_s(),
    {
        self.value.ge(self.upper_bound)
    }

    /// Whether the value sits strictly inside the box.
    pub fn free_floating(&self) -> (r: bool)
        ensures
            r == self.free_floating_s(),
    {
        self.value.lt(self.upper_bound) && self.value.gt(A::zero())
    }

    /// Whether the value sits at the lower bound 0.
    pub fn reached_lower(&self) -> (r: bool)
        ensures
            r == self.reached_lower_s(),
    {
        self.value.eq_v(A::zero())
    }

    /// The current value.
    pub fn val(&self) -> (r: A)
        ensures
            r == self.value,
    {
        self.value
    }
}

/// Current state of the SMO solver over `n` coordinates.
///
/// The first `nactive` positions are the current working domain; positions
/// beyond are shrunk and temporarily ignored. `active_set` maps each
/// position back to the original index of the coordinate standing there, so
/// the final variables can be reordered, and the ghost `orig_*` fields hold
/// the constructor's arrays so the permutation invariant can be stated.
pub struct SolverState<A, K> {
    /// Gradient of each variable.
    pub gradient: Vec<A>,
    /// Cached gradient contribution of the upper-bounded variables.
    pub gradient_fixed: Vec<A>,
    /// Current value of each variable with respect to its bounds.
    pub alpha: Vec<Alpha<A>>,
    /// Original index of the coordinate at each position.
    pub active_set: Vec<usize>,
    /// Number of active variables.
    pub nactive: usize,
    /// Latch, set once a full restoration of the active set has occurred.
    pub unshrink: bool,
    /// Protocol variant selector for the nu-formulation.
    pub nu_constraint: bool,
    /// The nu-residual; meaningful only under `nu_constraint`.
    pub r: A,
    /// Quadratic term of the problem.
    pub kernel: K,
    /// Linear term of the problem.
    pub p: Vec<A>,
    /// Targets to predict, encoding +1/-1.
    pub targets: Vec<bool>,
    /// Per-coordinate upper bound.
    pub bounds: Vec<A>,
    /// Stopping condition and shrinking switch.
    pub params: SolverParams<A>,
    /// The linear term as handed to the constructor, in original order.
    pub orig_p: Ghost<Seq<A>>,
    /// The targets as handed to the constructor, in original order.
    pub orig_targets: Ghost<Seq<bool>>,
}

impl<A: Float, K: Permutable<A>> SolverState<A, K> {
    /// Number of total variables.
    pub open spec fn ntotal_s(&self) -> nat {
        self.alpha@.len()
    }

    /// The parallel arrays agree in length, the kernel is a matching
    /// symmetric matrix, and the positions carry a permutation of the
    /// original coordinates. The bounds keep their original order
    /// throughout: swaps leave them in place.
    pub open spec fn wf(&self) -> bool {
        let n = self.alpha@.len() as int;
        &&& self.gradient@.len() == n
        &&& self.gradient_fixed@.len() == n
        &&& self.p@.len() == n
        &&& self.targets@.len() == n
        &&& self.bounds@.len() == n
        &&& self.active_set@.len() == n
        &&& self.nactive <= n
        &&& n <= isize::MAX as int
        &&& self.kernel.wf_s()
        &&& self.kernel.n_s() == n
        &&& forall|a: int, b: int|
            0 <= a < n && 0 <= b < n ==> self.kernel.k_s(a, b) == self.kernel.k_s(b, a)
        &&& self.orig_p@.len() == n
        &&& self.orig_targets@.len() == n
        &&& forall|i: int| 0 <= i < n ==> (#[trigger] self.active_set@[i]) < n
        &&& forall|i: int, j: int|
            0 <= i < n && 0 <= j < n && i != j ==> self.active_set@[i] != self.active_set@[j]
        &&& forall|i: int|
            0 <= i < n ==> #[trigger] self.p@[i] == self.orig_p@[self.active_set@[i] as int]
        &&& forall|i: int|
            0 <= i < n ==> #[trigger] self.targets@[i] == self.orig_targets@[self.active_set@[i] as int]
    }

    /// The current logical kernel matrix, materialized.
    pub open spec fn kmat_s(&self) -> Seq<Seq<A>> {
        Seq::new(
            self.ntotal_s(),
            |i: int| Seq::new(self.ntotal_s(), |j: int| self.kernel.k_s(i, j)),
        )
    }

    /// Mirror of `target`: the position's label as a signed unit.
    pub open spec fn target_s(&self, idx: int) -> A {
        if self.targets@[idx] {
            A::one_s()
        } else {
            A::one_s().neg_s()
        }
    }

    /// Initialize a solver state.
    ///
    /// The gradient starts from the linear term and accumulates, for every
    /// coordinate away from its lower bound, its scaled kernel row; the
    /// fixed-gradient cache accumulates the rows of the upper-bounded
    /// coordinates, scaled by their bounds.
    pub fn new(
        alpha: Vec<A>,
        p: Vec<A>,
        targets: Vec<bool>,
        kernel: K,
        bounds: Vec<A>,
        params: SolverParams<A>,
        nu_constraint: bool,
    ) -> (r: SolverState<A, K>)
        requires
            p@.len() == alpha@.len(),
            targets@.len() == alpha@.len(),
            bounds@.len() == alpha@.len(),
            kernel.wf_s(),
            kernel.n_s() == alpha@.len(),
            alpha@.len() <= isize::MAX as int,
            forall|a: int, b: int|
                0 <= a < alpha@.len() && 0 <= b < alpha@.len() ==> kernel.k_s(a, b) == kernel.k_s(
                    b,
                    a,
                ),
        ensures
            r.wf(),
            r.ntotal_s() == alpha@.len(),
            r.nactive == alpha@.len(),
            r.unshrink == false,
            r.nu_constraint == nu_constraint,
            r.r == A::zero_s(),
            r.params == params,
            r.p@ == p@,
            r.targets@ == targets@,
            r.bounds@ == bounds@,
            r.orig_p@ == p@,
            r.orig_targets@ == targets@,
            r.kernel == kernel,
            forall|i: int| 0 <= i < alpha@.len() ==> #[trigger] r.active_set@[i] == i,
            forall|i: int|
                0 <= i < alpha@.len() ==> (#[trigger] r.alpha@[i]).value == alpha@[i]
                    && r.alpha@[i].upper_bound == bounds@[i],
            r.gradient@ == init_gradient_rec(p@, r.alpha@, r.kmat_s(), alpha@.len() as int),
            r.gradient_fixed@ == init_gfixed_rec(
                Seq::new(alpha@.len(), |j: int| A::zero_s()),
                r.alpha@,
                bounds@,
                r.kmat_s(),
                alpha@.len() as int,
            ),
    {
        let n = alpha.len();
        let ghost km = Seq::new(n as nat, |i: int| Seq::new(n as nat, |j: int| kernel.k_s(i, j)));

        // initialize alpha status according to bound
        let mut alpha_v: Vec<Alpha<A>> = Vec::new();
        let mut i: usize = 0;
        while i < n
            invariant
                i <= n,
                alpha@.len() == n,
                bounds@.len() == n,
                alpha_v@.len() == i,
                forall|t: int|
                    0 <= t < i ==> (#[trigger] alpha_v@[t]).value == alpha@[t]
                        && alpha_v@[t].upper_bound == bounds@[t],
            decreases n - i,
        {
            alpha_v.push(Alpha::from(alpha[i], bounds[i]));
            i += 1;
        }

        // initialize full active set
        let mut active_set: Vec<usize> = Vec::new();
        let mut i: usize = 0;
        while i < n
            invariant
                i <= n,
                active_set@.len() == i,
                forall|t: int| 0 <= t < i ==> #[trigger] active_set@[t] == t,
            decreases n - i,
        {
            active_set.push(i);
            i += 1;
        }

        // initialize gradient
        let mut gradient: Vec<A> = Vec::new();
        let mut i: usize = 0;
        while i < n
            invariant
                i <= n,
                p@.len() == n,
                gradient@.len() == i,
                forall|t: int| 0 <= t < i ==> #[trigger] gradient@[t] == p@[t],
            decreases n - i,
        {
            gradient.push(p[i]);
            i += 1;
        }
        assert(gradient@ =~= p@);
        let mut gradient_fixed: Vec<A> = Vec::new();
        let mut i: usize = 0;
        while i < n
            invariant
                i <= n,
                gradient_fixed@.len() == i,
                forall|t: int| 0 <= t < i ==> #[trigger] gradient_fixed@[t] == A::zero_s(),
            decreases n - i,
        {
            gradient_fixed.push(A::zero());
            i += 1;
        }
        proof {
            assert(gradient_fixed@ =~= Seq::new(n as nat, |j: int| A::zero_s()));
        }

        let ghost al = alpha_v@;
        let mut i: usize = 0;
        while i < n
            invariant
                i <= n,
                alpha_v@ == al,
                al.len() == n,
                bounds@.len() == n,
                kernel.wf_s(),
                kernel.n_s() == n,
                km == Seq::new(n as nat, |a: int| Seq::new(n as nat, |b: int| kernel.k_s(a, b))),
                gradient@.len() == n,
                gradient_fixed@.len() == n,
                gradient@ == init_gradient_rec(p@, al, km, i as int),
                gradient_fixed@ == init_gfixed_rec(
                    Seq::new(n as nat, |j: int| A::zero_s()),
                    al,
                    bounds@,
                    km,
                    i as int,
                ),
            decreases n - i,
        {
            // when a coordinate rests at its lower bound it contributes nothing
            if !alpha_v[i].reached_lower() {
                let dist_i = kernel.distances(i, n);
                let alpha_i = alpha_v[i].val();

                let ghost g_prev = gradient@;
                let mut j: usize = 0;
                while j < n
                    invariant
                        j <= n,
                        i < n,
                        g_prev.len() == n,
                        gradient@.len() == n,
                        dist_i@.len() == n,
                        km.len() == n,
                        km[i as int].len() == n,
                        forall|t: int| 0 <= t < n ==> #[trigger] dist_i@[t] == km[i as int][t],
                        forall|t: int|
                            0 <= t < j ==> #[trigger] gradient@[t] == g_prev[t].add_s(
                                alpha_i.mul_s(km[i as int][t]),
                            ),
                        forall|t: int| j <= t < n ==> #[trigger] gradient@[t] == g_prev[t],
                    decreases n - j,
                {
                    gradient[j] = gradient[j].add(alpha_i.mul(dist_i[j]));
                    j += 1;
                }
                proof {
                    assert(gradient@ =~= Seq::new(
                        g_prev.len(),
                        |t: int| g_prev[t].add_s(al[i as int].value.mul_s(km[i as int][t])),
                    ));
                }

                // cache the row of a variable that rests at its upper bound
                if alpha_v[i].reached_upper() {
                    let bound_i = bounds[i];
                    let ghost f_prev = gradient_fixed@;
                    let mut j: usize = 0;
                    while j < n
                        invariant
                            j <= n,
                            i < n,
                            bound_i == bounds@[i as int],
                            f_prev.len() == n,
                            gradient_fixed@.len() == n,
                            dist_i@.len() == n,
                            km.len() == n,
                            km[i as int].len() == n,
                            forall|t: int| 0 <= t < n ==> #[trigger] dist_i@[t] == km[i as int][t],
                            forall|t: int|
                                0 <= t < j ==> #[trigger] gradient_fixed@[t] == f_prev[t].add_s(
                                    bound_i.mul_s(km[i as int][t]),
                                ),
                            forall|t: int| j <= t < n ==> #[trigger] gradient_fixed@[t] == f_prev[t],
                        decreases n - j,
                    {
                        gradient_fixed[j] = gradient_fixed[j].add(bound_i.mul(dist_i[j]));
                        j += 1;
                    }
                    proof {
                        assert(gradient_fixed@ =~= Seq::new(
                            f_prev.len(),
                            |t: int| f_prev[t].add_s(bounds@[i as int].mul_s(km[i as int][t])),
                        ));
                    }
                }
            }
            i += 1;
        }

        let ghost op = p@;
        let ghost ot = targets@;
        let r = SolverState {
            gradient,
            gradient_fixed,
            alpha: alpha_v,
            p,
            nactive: n,
            unshrink: false,
            active_set,
            kernel,
            targets,
            bounds,
            params,
            nu_constraint,
            r: A::zero(),
            orig_p: Ghost(op),
            orig_targets: Ghost(ot),
        };
        proof {
            assert(r.kmat_s() =~~= km);
            assert(r.wf());
        }
        r
    }

    /// Return number of active variables.
    pub fn nactive(&self) -> (r: usize)
        ensures
            r == self.nactive,
    {
        self.nactive
    }

    /// Return number of total variables.
    pub fn ntotal(&self) -> (r: usize)
        ensures
            r == self.ntotal_s(),
    {
        self.alpha.len()
    }

    /// Return target as positive/negative indicator.
    pub fn target(&self, idx: usize) -> (r: A)
        requires
            idx < self.targets@.len(),
        ensures
            r == self.target_s(idx as int),
    {
        if self.targets[idx] {
            A::one()
        } else {
            A::one().neg()
        }
    }

    /// Return the idx-th bound.
    pub fn bound(&self, idx: usize) -> (r: A)
        requires
            idx < self.bounds@.len(),
        ensures
            r == self.bounds@[idx as int],
    {
        self.bounds[idx]
    }

    /// The two states agree on everything but the gradient.
    pub open spec fn eq_but_gradient(a: Self, b: Self) -> bool {
        &&& a.gradient_fixed@ == b.gradient_fixed@
        &&& a.alpha@ == b.alpha@
        &&& a.active_set@ == b.active_set@
        &&& a.p@ == b.p@
        &&& a.targets@ == b.targets@
        &&& a.bounds@ == b.bounds@
        &&& a.kernel == b.kernel
        &&& a.nactive == b.nactive
        &&& a.unshrink == b.unshrink
        &&& a.nu_constraint == b.nu_constraint
        &&& a.r == b.r
        &&& a.params == b.params
        &&& a.orig_p == b.orig_p
        &&& a.orig_targets == b.orig_targets
    }

    /// The two states agree on everything but the fixed-gradient cache.
    pub open spec fn eq_but_gfixed(a: Self, b: Self) -> bool {
        &&& a.gradient@ == b.gradient@
        &&& a.alpha@ == b.alpha@
        &&& a.active_set@ == b.active_set@
        &&& a.p@ == b.p@
        &&& a.targets@ == b.targets@
        &&& a.bounds@ == b.bounds@
        &&& a.kernel == b.kernel
        &&& a.nactive == b.nactive
        &&& a.unshrink == b.unshrink
        &&& a.nu_constraint == b.nu_constraint
        &&& a.r == b.r
        &&& a.params == b.params
        &&& a.orig_p == b.orig_p
        &&& a.orig_targets == b.orig_targets
    }

    /// A near-singular quadratic coefficient is floored at the guard value.
    pub open spec fn quad_floor_s(q: A) -> A {
        if q.le_s(A::zero_s()) {
            A::tiny_s()
        } else {
            q
        }
    }

    /// Mirror of the pair update of `update`: the two clipped values that
    /// the working-set coordinates take, before the status refresh.
    pub open spec fn update_pair_s(&self, i: int, j: int) -> (A, A) {
        let bound_i = self.bounds@[i];
        let bound_j = self.bounds@[j];
        let ai0 = self.alpha@[i].value;
        let aj0 = self.alpha@[j].value;
        if self.targets@[i] != self.targets@[j] {
            let quad = Self::quad_floor_s(
                self.kernel.k_s(i, i).add_s(self.kernel.k_s(j, j)).add_s(
                    A::one_s().add_s(A::one_s()).mul_s(self.kernel.k_s(i, j)),
                ),
            );
            let delta = self.gradient@[i].add_s(self.gradient@[j]).neg_s().div_s(quad);
            let diff = ai0.sub_s(aj0);
            let ai1 = ai0.add_s(delta);
            let aj1 = aj0.add_s(delta);
            let mid = if diff.gt_s(A::zero_s()) {
                if aj1.lt_s(A::zero_s()) {
                    (diff, A::zero_s())
                } else {
                    (ai1, aj1)
                }
            } else {
                if ai1.lt_s(A::zero_s()) {
                    (A::zero_s(), diff.neg_s())
                } else {
                    (ai1, aj1)
                }
            };
            if diff.gt_s(bound_i.sub_s(bound_j)) {
                if mid.0.gt_s(bound_i) {
                    (bound_i, bound_i.sub_s(diff))
                } else {
                    mid
                }
            } else {
                if mid.1.gt_s(bound_j) {
                    (bound_j.add_s(diff), bound_j)
                } else {
                    mid
                }
            }
        } else {
            let quad = Self::quad_floor_s(
                self.kernel.k_s(i, i).add_s(self.kernel.k_s(j, j)).sub_s(
                    A::two_s().mul_s(self.kernel.k_s(i, j)),
                ),
            );
            let delta = self.gradient@[i].sub_s(self.gradient@[j]).div_s(quad);
            let sum = ai0.add_s(aj0);
            let ai1 = ai0.sub_s(delta);
            let aj1 = aj0.add_s(delta);
            let mid = if sum.gt_s(bound_i) {
                if ai1.gt_s(bound_i) {
                    (bound_i, sum.sub_s(bound_i))
                } else {
                    (ai1, aj1)
                }
            } else {
                if aj1.lt_s(A::zero_s()) {
                    (sum, A::zero_s())
                } else {
                    (ai1, aj1)
                }
            };
            if sum.gt_s(bound_j) {
                if mid.1.gt_s(bound_j) {
                    (sum.sub_s(bound_j), bound_j)
                } else {
                    mid
                }
            } else {
                if mid.0.lt_s(A::zero_s()) {
                    (A::zero_s(), sum)
                } else {
                    mid
                }
            }
        }
    }

    /// Mirror of the gradient refresh of `update` over the active prefix.
    pub open spec fn update_gradient_s(&self, i: int, j: int) -> Seq<A> {
        let (ai_f, aj_f) = self.update_pair_s(i, j);
        let dai = ai_f.sub_s(self.alpha@[i].value);
        let daj = aj_f.sub_s(self.alpha@[j].value);
        Seq::new(
            self.gradient@.len(),
            |k: int|
                if k < self.nactive {
                    self.gradient@[k].add_s(
                        self.kernel.k_s(i, k).mul_s(dai).add_s(self.kernel.k_s(j, k).mul_s(daj)),
                    )
                } else {
                    self.gradient@[k]
                },
        )
    }

    /// Mirror of the fixed-gradient refresh of `update`: a coordinate that
    /// crossed its upper-bound boundary moves its scaled row in or out of the
    /// cache; the first coordinate over the whole range, the second over the
    /// active prefix only.
    pub open spec fn update_gfixed_s(&self, i: int, j: int) -> Seq<A> {
        let (ai_f, aj_f) = self.update_pair_s(i, j);
        let ui0 = self.alpha@[i].reached_upper_s();
        let uj0 = self.alpha@[j].reached_upper_s();
        let ui1 = Alpha { value: ai_f, upper_bound: self.bounds@[i] }.reached_upper_s();
        let uj1 = Alpha { value: aj_f, upper_bound: self.bounds@[j] }.reached_upper_s();
        let gf = self.gradient_fixed@;
        let n = gf.len();
        let bound_i = self.bounds@[i];
        let bound_j = self.bounds@[j];
        let gf1 = if ui0 != ui1 {
            if ui0 {
                Seq::new(n, |k: int| gf[k].sub_s(bound_i.mul_s(self.kernel.k_s(i, k))))
            } else {
                Seq::new(n, |k: int| gf[k].add_s(bound_i.mul_s(self.kernel.k_s(i, k))))
            }
        } else {
            gf
        };
        if uj0 != uj1 {
            if uj0 {
                Seq::new(
                    n,
                    |k: int|
                        if k < self.nactive {
                            gf1[k].sub_s(bound_j.mul_s(self.kernel.k_s(j, k)))
                        } else {
                            gf1[k]
                        },
                )
            } else {
                Seq::new(
                    n,
                    |k: int|
                        if k < self.nactive {
                            gf1[k].add_s(bound_j.mul_s(self.kernel.k_s(j, k)))
                        } else {
                            gf1[k]
                        },
                )
            }
        } else {
            gf1
        }
    }

    /// Optimize the pair of working-set coordinates: move both along the
    /// constraint by the second-order step, clip back into the box, refresh
    /// the gradient over the active prefix and the fixed-gradient cache for
    /// any coordinate that crossed its upper-bound boundary.
    pub fn update(&mut self, working_set: (usize, usize))
        requires
            old(self).wf(),
            working_set.0 < old(self).nactive,
            working_set.1 < old(self).nactive,
            working_set.0 != working_set.1,
        ensures
            final(self).wf(),
            final(self).alpha@ == old(self).alpha@.update(
                working_set.0 as int,
                Alpha {
                    value: old(self).update_pair_s(working_set.0 as int, working_set.1 as int).0,
                    upper_bound: old(self).bounds@[working_set.0 as int],
                },
            ).update(
                working_set.1 as int,
                Alpha {
                    value: old(self).update_pair_s(working_set.0 as int, working_set.1 as int).1,
                    upper_bound: old(self).bounds@[working_set.1 as int],
                },
            ),
            final(self).gradient@ == old(self).update_gradient_s(
                working_set.0 as int,
                working_set.1 as int,
            ),
            final(self).gradient_fixed@ == old(self).update_gfixed_s(
                working_set.0 as int,
                working_set.1 as int,
            ),
            final(self).active_set@ == old(self).active_set@,
            final(self).nactive == old(self).nactive,
            final(self).p@ == old(self).p@,
            final(self).targets@ == old(self).targets@,
            final(self).bounds@ == old(self).bounds@,
            final(self).kernel == old(self).kernel,
            final(self).unshrink == old(self).unshrink,
            final(self).nu_constraint == old(self).nu_constraint,
            final(self).r == old(self).r,
            final(self).params == old(self).params,
            final(self).orig_p == old(self).orig_p,
            final(self).orig_targets == old(self).orig_targets,
    {
        // working set indices are called i, j here
        let (i, j) = working_set;

        let dist_i = self.kernel.distances(i, self.nactive);
        let dist_j = self.kernel.distances(j, self.nactive);

        let bound_i = self.bound(i);
        let bound_j = self.bound(j);

        let old_alpha_i = self.alpha[i].val();
        let old_alpha_j = self.alpha[j].val();

        // upper-bound status before the step, for the cache refresh below
        let ui = self.alpha[i].reached_upper();
        let uj = self.alpha[j].reached_upper();

        if self.targets[i] != self.targets[j] {
            let mut quad_coef = self.kernel.self_distance(i).add(self.kernel.self_distance(j)).add(
                A::one().add(A::one()).mul(dist_i[j]),
            );
            if quad_coef.le(A::zero()) {
                quad_coef = A::tiny();
            }

            let delta = self.gradient[i].add(self.gradient[j]).neg().div(quad_coef);
            let diff = self.alpha[i].val().sub(self.alpha[j].val());

            // update parameters
            self.alpha[i].value = self.alpha[i].value.add(delta);
            self.alpha[j].value = self.alpha[j].value.add(delta);

            // bound to feasible solution
            if diff.gt(A::zero()) {
                if self.alpha[j].val().lt(A::zero()) {
                    self.alpha[j].value = A::zero();
                    self.alpha[i].value = diff;
                }
            } else if self.alpha[i].val().lt(A::zero()) {
                self.alpha[i].value = A::zero();
                self.alpha[j].value = diff.neg();
            }

            if diff.gt(bound_i.sub(bound_j)) {
                if self.alpha[i].val().gt(bound_i) {
                    self.alpha[i].value = bound_i;
                    self.alpha[j].value = bound_i.sub(diff);
                }
            } else if self.alpha[j].val().gt(bound_j) {
                self.alpha[j].value = bound_j;
                self.alpha[i].value = bound_j.add(diff);
            }
        } else {
            let mut quad_coef = self.kernel.self_distance(i).add(self.kernel.self_distance(j)).sub(
                A::two().mul(dist_i[j]),
            );
            if quad_coef.le(A::zero()) {
                quad_coef = A::tiny();
            }

            let delta = self.gradient[i].sub(self.gradient[j]).div(quad_coef);
            let sum = self.alpha[i].val().add(self.alpha[j].val());

            // update parameters
            self.alpha[i].value = self.alpha[i].value.sub(delta);
            self.alpha[j].value = self.alpha[j].value.add(delta);

            // bound to feasible solution
            if sum.gt(bound_i) {
                if self.alpha[i].val().gt(bound_i) {
                    self.alpha[i].value = bound_i;
                    self.alpha[j].value = sum.sub(bound_i);
                }
            } else if self.alpha[j].val().lt(A::zero()) {
                self.alpha[j].value = A::zero();
                self.alpha[i].value = sum;
            }
            if sum.gt(bound_j) {
                if self.alpha[j].val().gt(bound_j) {
                    self.alpha[j].value = bound_j;
                    self.alpha[i].value = sum.sub(bound_j);
                }
            } else if self.alpha[i].val().lt(A::zero()) {
                self.alpha[i].value = A::zero();
                self.alpha[j].value = sum;
            }
        }
        proof {
            assert(self.alpha@ == old(self).alpha@.update(
                i as int,
                Alpha {
                    value: old(self).update_pair_s(i as int, j as int).0,
                    upper_bound: old(self).alpha@[i as int].upper_bound,
                },
            ).update(
                j as int,
                Alpha {
                    value: old(self).update_pair_s(i as int, j as int).1,
                    upper_bound: old(self).alpha@[j as int].upper_bound,
                },
            ));
        }

        // update gradient
        let delta_alpha_i = self.alpha[i].val().sub(old_alpha_i);
        let delta_alpha_j = self.alpha[j].val().sub(old_alpha_j);

        let ghost mid1 = *self;
        let ghost g_prev = self.gradient@;
        let mut k: usize = 0;
        while k < self.nactive
            invariant
                old(self).wf(),
                i < old(self).nactive,
                j < old(self).nactive,
                Self::eq_but_gradient(*self, mid1),
                self.nactive == old(self).nactive,
                self.gradient@.len() == g_prev.len(),
                g_prev.len() == old(self).ntotal_s(),
                dist_i@.len() == old(self).nactive,
                dist_j@.len() == old(self).nactive,
                forall|t: int|
                    0 <= t < old(self).nactive ==> #[trigger] dist_i@[t] == old(self).kernel.k_s(
                        i as int,
                        t,
                    ),
                forall|t: int|
                    0 <= t < old(self).nactive ==> #[trigger] dist_j@[t] == old(self).kernel.k_s(
                        j as int,
                        t,
                    ),
                delta_alpha_i == old(self).update_pair_s(i as int, j as int).0.sub_s(
                    old(self).alpha@[i as int].value,
                ),
                delta_alpha_j == old(self).update_pair_s(i as int, j as int).1.sub_s(
                    old(self).alpha@[j as int].value,
                ),
                k <= self.nactive,
                forall|t: int|
                    0 <= t < k ==> #[trigger] self.gradient@[t] == g_prev[t].add_s(
                        old(self).kernel.k_s(i as int, t).mul_s(delta_alpha_i).add_s(
                            old(self).kernel.k_s(j as int, t).mul_s(delta_alpha_j),
                        ),
                    ),
                forall|t: int| k <= t < g_prev.len() ==> #[trigger] self.gradient@[t] == g_prev[t],
            decreases self.nactive - k,
        {
            self.gradient[k] = self.gradient[k].add(
                dist_i[k].mul(delta_alpha_i).add(dist_j[k].mul(delta_alpha_j)),
            );
            k += 1;
        }
        proof {
            assert(self.gradient@ =~= old(self).update_gradient_s(i as int, j as int));
        }

        // update alpha status
        self.alpha[i] = Alpha::from(self.alpha[i].val(), self.bound(i));
        self.alpha[j] = Alpha::from(self.alpha[j].val(), self.bound(j));

        // update the cache of non-free contributions if `i` crossed its bound
        if ui != self.alpha[i].reached_upper() {
            let dist_i = self.kernel.distances(i, self.ntotal());
            let bound_i = self.bound(i);
            let ghost mid2 = *self;
            let ghost f_prev = self.gradient_fixed@;
            let n = self.ntotal();
            let mut k: usize = 0;
            while k < n
                invariant
                    Self::eq_but_gfixed(*self, mid2),
                    i < n,
                    n == old(self).ntotal_s(),
                    old(self).wf(),
                    self.gradient_fixed@.len() == n,
                    f_prev.len() == n,
                    dist_i@.len() == n,
                    bound_i == old(self).bounds@[i as int],
                    forall|t: int|
                        0 <= t < n ==> #[trigger] dist_i@[t] == old(self).kernel.k_s(i as int, t),
                    k <= n,
                    ui ==> forall|t: int|
                        0 <= t < k ==> #[trigger] self.gradient_fixed@[t] == f_prev[t].sub_s(
                            bound_i.mul_s(old(self).kernel.k_s(i as int, t)),
                        ),
                    !ui ==> forall|t: int|
                        0 <= t < k ==> #[trigger] self.gradient_fixed@[t] == f_prev[t].add_s(
                            bound_i.mul_s(old(self).kernel.k_s(i as int, t)),
                        ),
                    forall|t: int|
                        k <= t < n ==> #[trigger] self.gradient_fixed@[t] == f_prev[t],
                decreases n - k,
            {
                if ui {
                    self.gradient_fixed[k] = self.gradient_fixed[k].sub(bound_i.mul(dist_i[k]));
                } else {
                    self.gradient_fixed[k] = self.gradient_fixed[k].add(bound_i.mul(dist_i[k]));
                }
                k += 1;
            }
        }

        // update the cache over the active prefix if `j` crossed its bound
        if uj != self.alpha[j].reached_upper() {
            let dist_j = self.kernel.distances(j, self.ntotal());
            let bound_j = self.bound(j);
            let ghost mid3 = *self;
            let ghost f_prev = self.gradient_fixed@;
            let mut k: usize = 0;
            while k < self.nactive
                invariant
                    Self::eq_but_gfixed(*self, mid3),
                    j < old(self).ntotal_s(),
                    old(self).wf(),
                    self.nactive == old(self).nactive,
                    self.gradient_fixed@.len() == old(self).ntotal_s(),
                    f_prev.len() == old(self).ntotal_s(),
                    dist_j@.len() == old(self).ntotal_s(),
                    bound_j == old(self).bounds@[j as int],
                    forall|t: int|
                        0 <= t < old(self).ntotal_s() ==> #[trigger] dist_j@[t] == old(
                            self,
                        ).kernel.k_s(j as int, t),
                    k <= self.nactive,
                    uj ==> forall|t: int|
                        0 <= t < k ==> #[trigger] self.gradient_fixed@[t] == f_prev[t].sub_s(
                            bound_j.mul_s(old(self).kernel.k_s(j as int, t)),
                        ),
                    !uj ==> forall|t: int|
                        0 <= t < k ==> #[trigger] self.gradient_fixed@[t] == f_prev[t].add_s(
                            bound_j.mul_s(old(self).kernel.k_s(j as int, t)),
                        ),
                    forall|t: int|
                        k <= t < old(self).ntotal_s() ==> #[trigger] self.gradient_fixed@[t]
                            == f_prev[t],
                decreases self.nactive - k,
            {
                if uj {
                    self.gradient_fixed[k] = self.gradient_fixed[k].sub(bound_j.mul(dist_j[k]));
                } else {
                    self.gradient_fixed[k] = self.gradient_fixed[k].add(bound_j.mul(dist_j[k]));
                }
                k += 1;
            }
        }
        proof {
            assert(self.gradient_fixed@ =~= old(self).update_gfixed_s(i as int, j as int));
        }
    }

    /// Mirror of `max_violating_pair` over the first `m` positions.
    pub open spec fn mvp_rec(&self, m: int) -> ((A, isize), (A, isize)) {
        mvp_rec(self.targets@, self.alpha@, self.gradient@, m)
    }

    /// Mirror of `max_violating_pair_nu` over the first `m` positions.
    pub open spec fn mvp_nu_rec(&self, m: int) -> (
        (A, isize),
        (A, isize),
        (A, isize),
        (A, isize),
    ) {
        mvp_nu_rec(self.targets@, self.alpha@, self.gradient@, m)
    }

    /// Return max and min gradients of free variables: the largest
    /// `-y_i * grad_i` over the up-set and the largest `y_i * grad_i` over
    /// the low-set, each with its position (or -1 when the set is empty).
    pub fn max_violating_pair(&self) -> (r: ((A, isize), (A, isize)))
        requires
            self.wf(),
        ensures
            r == self.mvp_rec(self.nactive as int),
    {
        let mut gmax1: (A, isize) = (A::infinity().neg(), -1);
        let mut gmax2: (A, isize) = (A::infinity().neg(), -1);

        let mut i: usize = 0;
        while i < self.nactive
            invariant
                self.wf(),
                i <= self.nactive,
                (gmax1, gmax2) == self.mvp_rec(i as int),
            decreases self.nactive - i,
        {
            if self.targets[i] {
                if !self.alpha[i].reached_upper() && self.gradient[i].neg().ge(gmax1.0) {
                    gmax1 = (self.gradient[i].neg(), i as isize);
                }
                if !self.alpha[i].reached_lower() && self.gradient[i].ge(gmax2.0) {
                    gmax2 = (self.gradient[i], i as isize);
                }
            } else {
                if !self.alpha[i].reached_upper() && self.gradient[i].neg().ge(gmax2.0) {
                    gmax2 = (self.gradient[i].neg(), i as isize);
                }
                if !self.alpha[i].reached_lower() && self.gradient[i].ge(gmax1.0) {
                    gmax1 = (self.gradient[i], i as isize);
                }
            }
            i += 1;
        }

        (gmax1, gmax2)
    }

    /// The four extrema of the nu-formulation, partitioned by the sign of
    /// the target and by the side of the box, each with its position.
    pub fn max_violating_pair_nu(&self) -> (r: (
        (A, isize),
        (A, isize),
        (A, isize),
        (A, isize),
    ))
        requires
            self.wf(),
        ensures
            r == self.mvp_nu_rec(self.nactive as int),
    {
        let mut gmax1: (A, isize) = (A::infinity().neg(), -1);
        let mut gmax2: (A, isize) = (A::infinity().neg(), -1);
        let mut gmax3: (A, isize) = (A::infinity().neg(), -1);
        let mut gmax4: (A, isize) = (A::infinity().neg(), -1);

        let mut i: usize = 0;
        while i < self.nactive
            invariant
                self.wf(),
                i <= self.nactive,
                (gmax1, gmax2, gmax3, gmax4) == self.mvp_nu_rec(i as int),
            decreases self.nactive - i,
        {
            if self.targets[i] {
                if !self.alpha[i].reached_upper() && self.gradient[i].neg().gt(gmax1.0) {
                    gmax1 = (self.gradient[i].neg(), i as isize);
                }
                if !self.alpha[i].reached_lower() && self.gradient[i].gt(gmax3.0) {
                    gmax3 = (self.gradient[i], i as isize);
                }
            } else {
                if !self.alpha[i].reached_upper() && self.gradient[i].neg().gt(gmax4.0) {
                    gmax4 = (self.gradient[i].neg(), i as isize);
                }
                if !self.alpha[i].reached_lower() && self.gradient[i].gt(gmax2.0) {
                    gmax2 = (self.gradient[i], i as isize);
                }
            }
            i += 1;
        }

        (gmax1, gmax2, gmax3, gmax4)
    }

    /// Partial reconstruction sum for the shrunk position `t`: the cached
    /// contribution plus the linear term, then the contributions of the free
    /// active coordinates below `m`, in position order.
    pub open spec fn recon_add_rec(&self, t: int, m: int) -> A
        decreases m,
    {
        if m <= 0 {
            self.gradient_fixed@[t].add_s(self.p@[t])
        } else {
            let prev = self.recon_add_rec(t, m - 1);
            if self.alpha@[m - 1].free_floating_s() {
                prev.add_s(self.alpha@[m - 1].value.mul_s(self.kernel.k_s(m - 1, t)))
            } else {
                prev
            }
        }
    }

    /// Mirror of `reconstruct_gradient`: active positions keep their
    /// gradient; shrunk positions are rebuilt from the cache, the linear
    /// term and the free active coordinates.
    pub open spec fn recon_gradient_s(&self) -> Seq<A> {
        Seq::new(
            self.gradient@.len(),
            |t: int|
                if t < self.nactive {
                    self.gradient@[t]
                } else {
                    self.recon_add_rec(t, self.nactive as int)
                },
        )
    }

    /// Reconstruct gradients of the shrunk variables from the cache of
    /// upper-bounded contributions and the free active coordinates. Of the
    /// two equivalent accumulation orders, the cheaper one is chosen; the
    /// result is the same.
    pub fn reconstruct_gradient(&mut self)
        requires
            old(self).wf(),
        ensures
            final(self).wf(),
            final(self).gradient@ == old(self).recon_gradient_s(),
            Self::eq_but_gradient(*final(self), *old(self)),
    {
        // if no variable is inactive, skip
        if self.nactive() == self.ntotal() {
            proof {
                assert(old(self).recon_gradient_s() =~= self.gradient@);
            }
            return ;
        }

        let n = self.ntotal();
        let na = self.nactive;

        // base value for every shrunk position
        let ghost mid0 = *self;
        let mut t: usize = na;
        while t < n
            invariant
                old(self).wf(),
                Self::eq_but_gradient(*self, mid0),
                mid0 == *old(self),
                na == old(self).nactive,
                n == old(self).ntotal_s(),
                na <= t <= n,
                self.gradient@.len() == n,
                forall|q: int| 0 <= q < na ==> #[trigger] self.gradient@[q] == old(self).gradient@[q],
                forall|q: int|
                    na <= q < t ==> #[trigger] self.gradient@[q] == old(self).recon_add_rec(q, 0),
                forall|q: int| t <= q < n ==> #[trigger] self.gradient@[q] == old(self).gradient@[q],
            decreases n - t,
        {
            self.gradient[t] = self.gradient_fixed[t].add(self.p[t]);
            t += 1;
        }

        let mut nfree: usize = 0;
        let mut q: usize = 0;
        while q < na
            invariant
                na <= self.alpha@.len(),
                q <= na,
                nfree <= q,
            decreases na - q,
        {
            if self.alpha[q].free_floating() {
                nfree += 1;
            }
            q += 1;
        }

        let ghost mid = *self;
        proof {
            assert(forall|t: int|
                na <= t < n ==> #[trigger] self.gradient@[t] == old(self).recon_add_rec(t, 0));
        }

        proof {
            assert((nfree as int) * (n as int) <= u128::MAX as int) by (nonlinear_arith)
                requires
                    0 <= nfree as int <= n as int,
                    n as int <= isize::MAX as int,
            ;
            assert(2 * (na as int) * ((n - na) as int) <= u128::MAX as int) by (nonlinear_arith)
                requires
                    0 <= na as int <= n as int,
                    n as int <= isize::MAX as int,
            ;
        }
        if (nfree as u128) * (n as u128) > 2 * (na as u128) * ((n - na) as u128) {
            let mut i: usize = na;
            while i < n
                invariant
                    old(self).wf(),
                    Self::eq_but_gradient(*self, mid),
                    Self::eq_but_gradient(mid, *old(self)),
                    mid.nactive == old(self).nactive,
                    na == old(self).nactive,
                    n == old(self).ntotal_s(),
                    na <= i <= n,
                    self.gradient@.len() == n,
                    forall|q: int|
                        0 <= q < na ==> #[trigger] self.gradient@[q] == old(self).gradient@[q],
                    forall|q: int|
                        na <= q < i ==> #[trigger] self.gradient@[q] == old(self).recon_add_rec(
                            q,
                            na as int,
                        ),
                    forall|q: int|
                        i <= q < n ==> #[trigger] self.gradient@[q] == old(self).recon_add_rec(
                            q,
                            0,
                        ),
                decreases n - i,
            {
                let dist_i = self.kernel.distances(i, na);
                let ghost start = self.gradient@;
                let mut f: usize = 0;
                while f < na
                    invariant
                        old(self).wf(),
                        Self::eq_but_gradient(*self, mid),
                        Self::eq_but_gradient(mid, *old(self)),
                        na == old(self).nactive,
                        n == old(self).ntotal_s(),
                        na <= i < n,
                        f <= na,
                        self.gradient@.len() == n,
                        start.len() == n,
                        dist_i@.len() == na,
                        forall|u: int|
                            0 <= u < na ==> #[trigger] dist_i@[u] == old(self).kernel.k_s(
                                i as int,
                                u,
                            ),
                        start[i as int] == old(self).recon_add_rec(i as int, 0),
                        forall|u: int| 0 <= u < n && u != i ==> #[trigger] self.gradient@[u]
                            == start[u],
                        self.gradient@[i as int] == old(self).recon_add_rec(i as int, f as int),
                    decreases na - f,
                {
                    if self.alpha[f].free_floating() {
                        proof {
                            assert(old(self).kernel.k_s(i as int, f as int) == old(
                                self,
                            ).kernel.k_s(f as int, i as int));
                        }
                        self.gradient[i] = self.gradient[i].add(
                            self.alpha[f].val().mul(dist_i[f]),
                        );
                    }
                    f += 1;
                }
                i += 1;
            }
            proof {
                assert(self.gradient@ =~= old(self).recon_gradient_s());
            }
        } else {
            let mut f: usize = 0;
            while f < na
                invariant
                    old(self).wf(),
                    Self::eq_but_gradient(*self, mid),
                    Self::eq_but_gradient(mid, *old(self)),
                    na == old(self).nactive,
                    n == old(self).ntotal_s(),
                    f <= na,
                    self.gradient@.len() == n,
                    forall|q: int|
                        0 <= q < na ==> #[trigger] self.gradient@[q] == old(self).gradient@[q],
                    forall|q: int|
                        na <= q < n ==> #[trigger] self.gradient@[q] == old(self).recon_add_rec(
                            q,
                            f as int,
                        ),
                decreases na - f,
            {
                if self.alpha[f].free_floating() {
                    let dist_f = self.kernel.distances(f, n);
                    let alpha_f = self.alpha[f].val();
                    let ghost start = self.gradient@;
                    let mut t: usize = na;
                    while t < n
                        invariant
                            old(self).wf(),
                            Self::eq_but_gradient(*self, mid),
                            Self::eq_but_gradient(mid, *old(self)),
                            na == old(self).nactive,
                            n == old(self).ntotal_s(),
                            f < na,
                            na <= t <= n,
                            self.gradient@.len() == n,
                            start.len() == n,
                            dist_f@.len() == n,
                            alpha_f == old(self).alpha@[f as int].value,
                            old(self).alpha@[f as int].free_floating_s(),
                            forall|u: int|
                                0 <= u < n ==> #[trigger] dist_f@[u] == old(self).kernel.k_s(
                                    f as int,
                                    u,
                                ),
                            forall|u: int| 0 <= u < na ==> #[trigger] self.gradient@[u] == start[u],
                            forall|u: int|
                                na <= u < t ==> #[trigger] self.gradient@[u] == start[u].add_s(
                                    alpha_f.mul_s(old(self).kernel.k_s(f as int, u)),
                                ),
                            forall|u: int| t <= u < n ==> #[trigger] self.gradient@[u] == start[u],
                            forall|u: int|
                                na <= u < n ==> #[trigger] start[u] == old(self).recon_add_rec(
                                    u,
                                    f as int,
                                ),
                        decreases n - t,
                    {
                        self.gradient[t] = self.gradient[t].add(alpha_f.mul(dist_f[t]));
                        t += 1;
                    }
                }
                f += 1;
            }
            proof {
                assert(self.gradient@ =~= old(self).recon_gradient_s());
            }
        }
    }

    /// What `do_shrinking` promises under the standard formulation: against
    /// the violation thresholds of the entry state, the surviving prefix is
    /// homogeneous, everything between the new and the old boundary deserved
    /// shrinking, and the state is a relabeling of the entry state (with the
    /// gradient reconstructed first when the threshold neared optimality).
    pub open spec fn shrink_post(o: Self, s: Self) -> bool {
        let pair = o.mvp_rec(o.nactive as int);
        let gmax1 = pair.0.0;
        let gmax2 = pair.1.0;
        let trig = !o.unshrink && gmax1.add_s(gmax2).le_s(o.params.eps.mul_s(A::ten_s()));
        let mid_gradient = if trig {
            o.recon_gradient_s()
        } else {
            o.gradient@
        };
        let mid_nactive = if trig {
            o.ntotal_s() as int
        } else {
            o.nactive as int
        };
        &&& s.wf()
        &&& s.ntotal_s() == o.ntotal_s()
        &&& s.unshrink == (o.unshrink || trig)
        &&& s.nactive <= mid_nactive
        &&& s.bounds@ == o.bounds@
        &&& s.kernel.linear_s() == o.kernel.linear_s()
        &&& s.nu_constraint == o.nu_constraint
        &&& s.params == o.params
        &&& s.r == o.r
        &&& s.orig_p == o.orig_p
        &&& s.orig_targets == o.orig_targets
        &&& shrink_corr(
            o.active_set@,
            mid_gradient,
            o.gradient_fixed@,
            o.alpha@,
            o.p@,
            o.targets@,
            &s,
        )
        &&& forall|q: int| 0 <= q < s.nactive ==> !s.should_shrunk_s(q, gmax1, gmax2)
        &&& forall|q: int| s.nactive <= q < mid_nactive ==> s.should_shrunk_s(q, gmax1, gmax2)
    }

    /// What `do_shrinking_nu` promises: as `shrink_post`, against the four
    /// thresholds of the nu-formulation.
    pub open spec fn shrink_nu_post(o: Self, s: Self) -> bool {
        let quad = o.mvp_nu_rec(o.nactive as int);
        let gmax1 = quad.0.0;
        let gmax2 = quad.1.0;
        let gmax3 = quad.2.0;
        let gmax4 = quad.3.0;
        let trig = !o.unshrink && gmax1.add_s(gmax2).max_s(gmax3.add_s(gmax4)).le_s(
            o.params.eps.mul_s(A::ten_s()),
        );
        let mid_gradient = if trig {
            o.recon_gradient_s()
        } else {
            o.gradient@
        };
        let mid_nactive = if trig {
            o.ntotal_s() as int
        } else {
            o.nactive as int
        };
        &&& s.wf()
        &&& s.ntotal_s() == o.ntotal_s()
        &&& s.unshrink == (o.unshrink || trig)
        &&& s.nactive <= mid_nactive
        &&& s.bounds@ == o.bounds@
        &&& s.kernel.linear_s() == o.kernel.linear_s()
        &&& s.nu_constraint == o.nu_constraint
        &&& s.params == o.params
        &&& s.r == o.r
        &&& s.orig_p == o.orig_p
        &&& s.orig_targets == o.orig_targets
        &&& shrink_corr(
            o.active_set@,
            mid_gradient,
            o.gradient_fixed@,
            o.alpha@,
            o.p@,
            o.targets@,
            &s,
        )
        &&& forall|q: int|
            0 <= q < s.nactive ==> !s.should_shrunk_nu_s(q, gmax1, gmax2, gmax3, gmax4)
        &&& forall|q: int|
            s.nactive <= q < mid_nactive ==> s.should_shrunk_nu_s(q, gmax1, gmax2, gmax3, gmax4)
    }

    /// Shrink the working domain: when the violation nears the tolerance,
    /// first restore and reconstruct everything once; then move every
    /// boundary-locked coordinate whose gradient points outward behind the
    /// active boundary, swapping keepers in from the tail.
    pub fn do_shrinking(&mut self)
        requires
            old(self).wf(),
        ensures
            if old(self).nu_constraint {
                Self::shrink_nu_post(*old(self), *final(self))
            } else {
                Self::shrink_post(*old(self), *final(self))
            },
    {
        if self.nu_constraint {
            self.do_shrinking_nu();
            return ;
        }

        let (gmax1p, gmax2p) = self.max_violating_pair();
        let gmax1 = gmax1p.0;
        let gmax2 = gmax2p.0;

        // work on all variables when 10*eps is reached
        if !self.unshrink && gmax1.add(gmax2).le(self.params.eps.mul(A::ten())) {
            self.reconstruct_gradient();
            self.unshrink = true;
            self.nactive = self.ntotal();
        }

        let ghost mid = *self;
        proof {
            lemma_corr_refl(&mid);
        }

        // swap items until the working set is homogeneous
        let mut i: usize = 0;
        while i < self.nactive
            invariant
                self.wf(),
                mid.wf(),
                self.ntotal_s() == mid.ntotal_s(),
                i <= mid.nactive,
                self.nactive <= mid.nactive,
                self.bounds@ == mid.bounds@,
                self.unshrink == mid.unshrink,
                self.nu_constraint == mid.nu_constraint,
                self.params == mid.params,
                self.r == mid.r,
                self.orig_p == mid.orig_p,
                self.orig_targets == mid.orig_targets,
                self.kernel.linear_s() == mid.kernel.linear_s(),
                shrink_corr(
                    mid.active_set@,
                    mid.gradient@,
                    mid.gradient_fixed@,
                    mid.alpha@,
                    mid.p@,
                    mid.targets@,
                    &*self,
                ),
                forall|q: int|
                    0 <= q < i && q < self.nactive ==> !self.should_shrunk_s(q, gmax1, gmax2),
                forall|q: int|
                    self.nactive <= q < mid.nactive ==> self.should_shrunk_s(q, gmax1, gmax2),
            decreases mid.nactive - i,
        {
            if self.should_shrunk(i, gmax1, gmax2) {
                let ghost at_head = *self;
                self.nactive -= 1;
                proof {
                    assert forall|q: int| 0 <= q < i implies !self.should_shrunk_s(
                        q,
                        gmax1,
                        gmax2,
                    ) by {
                        lemma_shr_transfer(&at_head, &*self, q, q, gmax1, gmax2);
                    }
                    assert forall|q: int|
                        self.nactive < q < mid.nactive implies self.should_shrunk_s(
                        q,
                        gmax1,
                        gmax2,
                    ) by {
                        lemma_shr_transfer(&at_head, &*self, q, q, gmax1, gmax2);
                    }
                    lemma_shr_transfer(&at_head, &*self, i as int, i as int, gmax1, gmax2);
                }
                // only consider items behind this one
                let mut swapped = false;
                while self.nactive > i && !swapped
                    invariant
                        self.wf(),
                        mid.wf(),
                        self.ntotal_s() == mid.ntotal_s(),
                        i <= self.nactive < mid.nactive,
                        self.bounds@ == mid.bounds@,
                        self.unshrink == mid.unshrink,
                        self.nu_constraint == mid.nu_constraint,
                        self.params == mid.params,
                        self.r == mid.r,
                        self.orig_p == mid.orig_p,
                        self.orig_targets == mid.orig_targets,
                        self.kernel.linear_s() == mid.kernel.linear_s(),
                        shrink_corr(
                            mid.active_set@,
                            mid.gradient@,
                            mid.gradient_fixed@,
                            mid.alpha@,
                            mid.p@,
                            mid.targets@,
                            &*self,
                        ),
                        forall|q: int| 0 <= q < i ==> !self.should_shrunk_s(q, gmax1, gmax2),
                        !swapped ==> self.should_shrunk_s(i as int, gmax1, gmax2),
                        !swapped ==> forall|q: int|
                            self.nactive < q < mid.nactive ==> self.should_shrunk_s(
                                q,
                                gmax1,
                                gmax2,
                            ),
                        swapped ==> !self.should_shrunk_s(i as int, gmax1, gmax2),
                        swapped ==> forall|q: int|
                            self.nactive <= q < mid.nactive ==> self.should_shrunk_s(
                                q,
                                gmax1,
                                gmax2,
                            ),
                    decreases self.nactive - i, (if swapped { 0int } else { 1int }),
                {
                    if !self.should_shrunk(self.nactive, gmax1, gmax2) {
                        let ghost before = *self;
                        let na = self.nactive;
                        self.swap(i, na);
                        swapped = true;
                        proof {
                            lemma_corr_swap(
                                mid.active_set@,
                                mid.gradient@,
                                mid.gradient_fixed@,
                                mid.alpha@,
                                mid.p@,
                                mid.targets@,
                                &before,
                                &*self,
                                i as int,
                                na as int,
                            );
                            assert forall|q: int| 0 <= q < i implies !self.should_shrunk_s(
                                q,
                                gmax1,
                                gmax2,
                            ) by {
                                lemma_shr_transfer(&before, &*self, q, q, gmax1, gmax2);
                            }
                            lemma_shr_transfer(
                                &before,
                                &*self,
                                na as int,
                                i as int,
                                gmax1,
                                gmax2,
                            );
                            assert forall|q: int|
                                self.nactive <= q < mid.nactive implies self.should_shrunk_s(
                                q,
                                gmax1,
                                gmax2,
                            ) by {
                                if q == na as int {
                                    lemma_shr_transfer(&before, &*self, i as int, q, gmax1, gmax2);
                                } else {
                                    lemma_shr_transfer(&before, &*self, q, q, gmax1, gmax2);
                                }
                            }
                        }
                    } else {
                        let ghost at_step = *self;
                        self.nactive -= 1;
                        proof {
                            assert forall|q: int| 0 <= q < i implies !self.should_shrunk_s(
                                q,
                                gmax1,
                                gmax2,
                            ) by {
                                lemma_shr_transfer(&at_step, &*self, q, q, gmax1, gmax2);
                            }
                            lemma_shr_transfer(&at_step, &*self, i as int, i as int, gmax1, gmax2);
                            assert forall|q: int|
                                self.nactive < q < mid.nactive implies self.should_shrunk_s(
                                q,
                                gmax1,
                                gmax2,
                            ) by {
                                lemma_shr_transfer(&at_step, &*self, q, q, gmax1, gmax2);
                            }
                        }
                    }
                }
                proof {
                    if !swapped {
                        assert forall|q: int|
                            self.nactive <= q < mid.nactive implies self.should_shrunk_s(
                            q,
                            gmax1,
                            gmax2,
                        ) by {}
                    }
                }
            }
            i += 1;
        }
        proof {
            assert(Self::shrink_post(*old(self), *self));
        }
    }

    /// The nu-variant of `do_shrinking`, against four thresholds.
    pub fn do_shrinking_nu(&mut self)
        requires
            old(self).wf(),
        ensures
            Self::shrink_nu_post(*old(self), *final(self)),
    {
        let (gmax1p, gmax2p, gmax3p, gmax4p) = self.max_violating_pair_nu();
        let gmax1 = gmax1p.0;
        let gmax2 = gmax2p.0;
        let gmax3 = gmax3p.0;
        let gmax4 = gmax4p.0;

        // work on all variables when 10*eps is reached
        if !self.unshrink && gmax1.add(gmax2).max(gmax3.add(gmax4)).le(
            self.params.eps.mul(A::ten()),
        ) {
            self.reconstruct_gradient();
            self.unshrink = true;
            self.nactive = self.ntotal();
        }

        let ghost mid = *self;
        proof {
            lemma_corr_refl(&mid);
        }

        // swap items until the working set is homogeneous
        let mut i: usize = 0;
        while i < self.nactive
            invariant
                self.wf(),
                mid.wf(),
                self.ntotal_s() == mid.ntotal_s(),
                i <= mid.nactive,
                self.nactive <= mid.nactive,
                self.bounds@ == mid.bounds@,
                self.unshrink == mid.unshrink,
                self.nu_constraint == mid.nu_constraint,
                self.params == mid.params,
                self.r == mid.r,
                self.orig_p == mid.orig_p,
                self.orig_targets == mid.orig_targets,
                self.kernel.linear_s() == mid.kernel.linear_s(),
                shrink_corr(
                    mid.active_set@,
                    mid.gradient@,
                    mid.gradient_fixed@,
                    mid.alpha@,
                    mid.p@,
                    mid.targets@,
                    &*self,
                ),
                forall|q: int|
                    0 <= q < i && q < self.nactive ==> !self.should_shrunk_nu_s(
                        q,
                        gmax1,
                        gmax2,
                        gmax3,
                        gmax4,
                    ),
                forall|q: int|
                    self.nactive <= q < mid.nactive ==> self.should_shrunk_nu_s(
                        q,
                        gmax1,
                        gmax2,
                        gmax3,
                        gmax4,
                    ),
            decreases mid.nactive - i,
        {
            if self.should_shrunk_nu(i, gmax1, gmax2, gmax3, gmax4) {
                let ghost at_head = *self;
                self.nactive -= 1;
                proof {
                    assert forall|q: int| 0 <= q < i implies !self.should_shrunk_nu_s(
                        q,
                        gmax1,
                        gmax2,
                        gmax3,
                        gmax4,
                    ) by {
                        lemma_shr_nu_transfer(&at_head, &*self, q, q, gmax1, gmax2, gmax3, gmax4);
                    }
                    assert forall|q: int|
                        self.nactive < q < mid.nactive implies self.should_shrunk_nu_s(
                        q,
                        gmax1,
                        gmax2,
                        gmax3,
                        gmax4,
                    ) by {
                        lemma_shr_nu_transfer(&at_head, &*self, q, q, gmax1, gmax2, gmax3, gmax4);
                    }
                    lemma_shr_nu_transfer(
                        &at_head,
                        &*self,
                        i as int,
                        i as int,
                        gmax1,
                        gmax2,
                        gmax3,
                        gmax4,
                    );
                }
                // only consider items behind this one
                let mut swapped = false;
                while self.nactive > i && !swapped
                    invariant
                        self.wf(),
                        mid.wf(),
                        self.ntotal_s() == mid.ntotal_s(),
                        i <= self.nactive < mid.nactive,
                        self.bounds@ == mid.bounds@,
                        self.unshrink == mid.unshrink,
                        self.nu_constraint == mid.nu_constraint,
                        self.params == mid.params,
                        self.r == mid.r,
                        self.orig_p == mid.orig_p,
                        self.orig_targets == mid.orig_targets,
                        self.kernel.linear_s() == mid.kernel.linear_s(),
                        shrink_corr(
                            mid.active_set@,
                            mid.gradient@,
                            mid.gradient_fixed@,
                            mid.alpha@,
                            mid.p@,
                            mid.targets@,
                            &*self,
                        ),
                        forall|q: int|
                            0 <= q < i ==> !self.should_shrunk_nu_s(q, gmax1, gmax2, gmax3, gmax4),
                        !swapped ==> self.should_shrunk_nu_s(i as int, gmax1, gmax2, gmax3, gmax4),
                        !swapped ==> forall|q: int|
                            self.nactive < q < mid.nactive ==> self.should_shrunk_nu_s(
                                q,
                                gmax1,
                                gmax2,
                                gmax3,
                                gmax4,
                            ),
                        swapped ==> !self.should_shrunk_nu_s(i as int, gmax1, gmax2, gmax3, gmax4),
                        swapped ==> forall|q: int|
                            self.nactive <= q < mid.nactive ==> self.should_shrunk_nu_s(
                                q,
                                gmax1,
                                gmax2,
                                gmax3,
                                gmax4,
                            ),
                    decreases self.nactive - i, (if swapped { 0int } else { 1int }),
                {
                    if !self.should_shrunk_nu(self.nactive, gmax1, gmax2, gmax3, gmax4) {
                        let ghost before = *self;
                        let na = self.nactive;
                        self.swap(i, na);
                        swapped = true;
                        proof {
                            lemma_corr_swap(
                                mid.active_set@,
                                mid.gradient@,
                                mid.gradient_fixed@,
                                mid.alpha@,
                                mid.p@,
                                mid.targets@,
                                &before,
                                &*self,
                                i as int,
                                na as int,
                            );
                            assert forall|q: int| 0 <= q < i implies !self.should_shrunk_nu_s(
                                q,
                                gmax1,
                                gmax2,
                                gmax3,
                                gmax4,
                            ) by {
                                lemma_shr_nu_transfer(
                                    &before,
                                    &*self,
                                    q,
                                    q,
                                    gmax1,
                                    gmax2,
                                    gmax3,
                                    gmax4,
                                );
                            }
                            lemma_shr_nu_transfer(
                                &before,
                                &*self,
                                na as int,
                                i as int,
                                gmax1,
                                gmax2,
                                gmax3,
                                gmax4,
                            );
                            assert forall|q: int|
                                self.nactive <= q < mid.nactive implies self.should_shrunk_nu_s(
                                q,
                                gmax1,
                                gmax2,
                                gmax3,
                                gmax4,
                            ) by {
                                if q == na as int {
                                    lemma_shr_nu_transfer(
                                        &before,
                                        &*self,
                                        i as int,
                                        q,
                                        gmax1,
                                        gmax2,
                                        gmax3,
                                        gmax4,
                                    );
                                } else {
                                    lemma_shr_nu_transfer(
                                        &before,
                                        &*self,
                                        q,
                                        q,
                                        gmax1,
                                        gmax2,
                                        gmax3,
                                        gmax4,
                                    );
                                }
                            }
                        }
                    } else {
                        let ghost at_step = *self;
                        self.nactive -= 1;
                        proof {
                            assert forall|q: int| 0 <= q < i implies !self.should_shrunk_nu_s(
                                q,
                                gmax1,
                                gmax2,
                                gmax3,
                                gmax4,
                            ) by {
                                lemma_shr_nu_transfer(
                                    &at_step,
                                    &*self,
                                    q,
                                    q,
                                    gmax1,
                                    gmax2,
                                    gmax3,
                                    gmax4,
                                );
                            }
                            lemma_shr_nu_transfer(
                                &at_step,
                                &*self,
                                i as int,
                                i as int,
                                gmax1,
                                gmax2,
                                gmax3,
                                gmax4,
                            );
                            assert forall|q: int|
                                self.nactive < q < mid.nactive implies self.should_shrunk_nu_s(
                                q,
                                gmax1,
                                gmax2,
                                gmax3,
                                gmax4,
                            ) by {
                                lemma_shr_nu_transfer(
                                    &at_step,
                                    &*self,
                                    q,
                                    q,
                                    gmax1,
                                    gmax2,
                                    gmax3,
                                    gmax4,
                                );
                            }
                        }
                    }
                }
                proof {
                    if !swapped {
                        assert forall|q: int|
                            self.nactive <= q < mid.nactive implies self.should_shrunk_nu_s(
                            q,
                            gmax1,
                            gmax2,
                            gmax3,
                            gmax4,
                        ) by {}
                    }
                }
            }
            i += 1;
        }
    }

    /// Mirror of the bracket fold of `calculate_rho` over the first `m`
    /// positions: free-variable count and sum, and the two brackets.
    pub open spec fn rho_fold_rec(&self, m: int) -> (int, A, A, A)
        decreases m,
    {
        if m <= 0 {
            (0, A::zero_s(), A::infinity_s(), A::infinity_s().neg_s())
        } else {
            let acc = self.rho_fold_rec(m - 1);
            let k = m - 1;
            let yg = self.target_s(k).mul_s(self.gradient@[k]);
            if self.alpha@[k].reached_upper_s() {
                if self.targets@[k] {
                    (acc.0, acc.1, acc.2, acc.3.max_s(yg))
                } else {
                    (acc.0, acc.1, acc.2.min_s(yg), acc.3)
                }
            } else if self.alpha@[k].reached_lower_s() {
                if self.targets@[k] {
                    (acc.0, acc.1, acc.2.min_s(yg), acc.3)
                } else {
                    (acc.0, acc.1, acc.2, acc.3.max_s(yg))
                }
            } else {
                (acc.0 + 1, acc.1.add_s(yg), acc.2, acc.3)
            }
        }
    }

    /// Mirror of `calculate_rho` (standard formulation): the free mean when
    /// a free variable exists, else the middle of the brackets.
    pub open spec fn rho_std_s(&self) -> A {
        let acc = self.rho_fold_rec(self.nactive as int);
        if acc.0 > 0 {
            acc.1.div_s(A::from_usize_s(acc.0 as usize))
        } else {
            acc.2.add_s(acc.3).div_s(A::two_s())
        }
    }

    /// Mirror of the per-class fold of `calculate_rho_nu`: count, sum and
    /// brackets for the positive class, then for the negative class.
    pub open spec fn rho_nu_fold_rec(&self, m: int) -> (
        (int, A, A, A),
        (int, A, A, A),
    )
        decreases m,
    {
        if m <= 0 {
            (
                (0, A::zero_s(), A::infinity_s(), A::infinity_s().neg_s()),
                (0, A::zero_s(), A::infinity_s(), A::infinity_s().neg_s()),
            )
        } else {
            let acc = self.rho_nu_fold_rec(m - 1);
            let k = m - 1;
            let g = self.gradient@[k];
            if self.targets@[k] {
                let a = acc.0;
                let a1 = if self.alpha@[k].reached_upper_s() {
                    (a.0, a.1, a.2, a.3.max_s(g))
                } else if self.alpha@[k].reached_lower_s() {
                    (a.0, a.1, a.2.max_s(g), a.3)
                } else {
                    (a.0 + 1, a.1.add_s(g), a.2, a.3)
                };
                (a1, acc.1)
            } else {
                let a = acc.1;
                let a1 = if self.alpha@[k].reached_upper_s() {
                    (a.0, a.1, a.2, a.3.max_s(g))
                } else if self.alpha@[k].reached_lower_s() {
                    (a.0, a.1, a.2.max_s(g), a.3)
                } else {
                    (a.0 + 1, a.1.add_s(g), a.2, a.3)
                };
                (acc.0, a1)
            }
        }
    }

    /// The per-class mean (or bracket middle) of the nu-formulation.
    pub open spec fn rho_nu_r1_s(&self) -> A {
        let acc = self.rho_nu_fold_rec(self.nactive as int).0;
        if acc.0 > 0 {
            acc.1.div_s(A::from_usize_s(acc.0 as usize))
        } else {
            acc.2.add_s(acc.3).div_s(A::two_s())
        }
    }

    /// The negative-class mean (or bracket middle) of the nu-formulation.
    pub open spec fn rho_nu_r2_s(&self) -> A {
        let acc = self.rho_nu_fold_rec(self.nactive as int).1;
        if acc.0 > 0 {
            acc.1.div_s(A::from_usize_s(acc.0 as usize))
        } else {
            acc.2.add_s(acc.3).div_s(A::two_s())
        }
    }

    /// Mirror of the nu-residual stored by `calculate_rho_nu`.
    pub open spec fn r_nu_s(&self) -> A {
        self.rho_nu_r1_s().add_s(self.rho_nu_r2_s()).div_s(A::two_s())
    }

    /// Mirror of the bias that `calculate_rho_nu` returns.
    pub open spec fn rho_nu_s(&self) -> A {
        self.rho_nu_r1_s().sub_s(self.rho_nu_r2_s()).div_s(A::two_s())
    }

    /// Mirror of `calculate_rho`, either formulation.
    pub open spec fn rho_dispatch_s(&self) -> A {
        if self.nu_constraint {
            self.rho_nu_s()
        } else {
            self.rho_std_s()
        }
    }

    /// Compute the bias of the decision function from the active
    /// coordinates: the mean of `y_i * grad_i` over the free variables, or
    /// the middle of the brackets that the bounded variables impose.
    pub fn calculate_rho(&mut self) -> (r: A)
        requires
            old(self).wf(),
        ensures
            final(self).wf(),
            r == old(self).rho_dispatch_s(),
            final(self).r == if old(self).nu_constraint {
                old(self).r_nu_s()
            } else {
                old(self).r
            },
            final(self).gradient@ == old(self).gradient@,
            final(self).gradient_fixed@ == old(self).gradient_fixed@,
            final(self).alpha@ == old(self).alpha@,
            final(self).active_set@ == old(self).active_set@,
            final(self).p@ == old(self).p@,
            final(self).targets@ == old(self).targets@,
            final(self).bounds@ == old(self).bounds@,
            final(self).kernel == old(self).kernel,
            final(self).nactive == old(self).nactive,
            final(self).unshrink == old(self).unshrink,
            final(self).nu_constraint == old(self).nu_constraint,
            final(self).params == old(self).params,
            final(self).orig_p == old(self).orig_p,
            final(self).orig_targets == old(self).orig_targets,
    {
        // with the additional constraint call the other function
        if self.nu_constraint {
            return self.calculate_rho_nu();
        }

        let mut nfree: usize = 0;
        let mut sum_free = A::zero();
        let mut ub = A::infinity();
        let mut lb = A::infinity().neg();

        let mut i: usize = 0;
        while i < self.nactive
            invariant
                self.wf(),
                i <= self.nactive,
                nfree <= i,
                (nfree as int, sum_free, ub, lb) == self.rho_fold_rec(i as int),
            decreases self.nactive - i,
        {
            let yg = self.target(i).mul(self.gradient[i]);

            if self.alpha[i].reached_upper() {
                if self.targets[i] {
                    lb = lb.max(yg);
                } else {
                    ub = ub.min(yg);
                }
            } else if self.alpha[i].reached_lower() {
                if self.targets[i] {
                    ub = ub.min(yg);
                } else {
                    lb = lb.max(yg);
                }
            } else {
                nfree += 1;
                sum_free = sum_free.add(yg);
            }
            i += 1;
        }

        if nfree > 0 {
            sum_free.div(A::from_usize(nfree))
        } else {
            ub.add(lb).div(A::two())
        }
    }

    /// The nu-variant of the bias computation: the same bracket scan runs
    /// separately within each class, the residual is stored, and the bias is
    /// half the difference of the two class results.
    pub fn calculate_rho_nu(&mut self) -> (r: A)
        requires
            old(self).wf(),
        ensures
            final(self).wf(),
            r == old(self).rho_nu_s(),
            final(self).r == old(self).r_nu_s(),
            final(self).gradient@ == old(self).gradient@,
            final(self).gradient_fixed@ == old(self).gradient_fixed@,
            final(self).alpha@ == old(self).alpha@,
            final(self).active_set@ == old(self).active_set@,
            final(self).p@ == old(self).p@,
            final(self).targets@ == old(self).targets@,
            final(self).bounds@ == old(self).bounds@,
            final(self).kernel == old(self).kernel,
            final(self).nactive == old(self).nactive,
            final(self).unshrink == old(self).unshrink,
            final(self).nu_constraint == old(self).nu_constraint,
            final(self).params == old(self).params,
            final(self).orig_p == old(self).orig_p,
            final(self).orig_targets == old(self).orig_targets,
    {
        let mut nfree1: usize = 0;
        let mut nfree2: usize = 0;
        let mut sum_free1 = A::zero();
        let mut sum_free2 = A::zero();
        let mut ub1 = A::infinity();
        let mut ub2 = A::infinity();
        let mut lb1 = A::infinity().neg();
        let mut lb2 = A::infinity().neg();

        let mut i: usize = 0;
        while i < self.nactive
            invariant
                self.wf(),
                i <= self.nactive,
                nfree1 <= i,
                nfree2 <= i,
                (nfree1 as int, sum_free1, ub1, lb1) == self.rho_nu_fold_rec(i as int).0,
                (nfree2 as int, sum_free2, ub2, lb2) == self.rho_nu_fold_rec(i as int).1,
            decreases self.nactive - i,
        {
            if self.targets[i] {
                if self.alpha[i].reached_upper() {
                    lb1 = lb1.max(self.gradient[i]);
                } else if self.alpha[i].reached_lower() {
                    ub1 = ub1.max(self.gradient[i]);
                } else {
                    nfree1 += 1;
                    sum_free1 = sum_free1.add(self.gradient[i]);
                }
            }

            if !self.targets[i] {
                if self.alpha[i].reached_upper() {
                    lb2 = lb2.max(self.gradient[i]);
                } else if self.alpha[i].reached_lower() {
                    ub2 = ub2.max(self.gradient[i]);
                } else {
                    nfree2 += 1;
                    sum_free2 = sum_free2.add(self.gradient[i]);
                }
            }
            i += 1;
        }

        let r1 = if nfree1 > 0 {
            sum_free1.div(A::from_usize(nfree1))
        } else {
            ub1.add(lb1).div(A::two())
        };
        let r2 = if nfree2 > 0 {
            sum_free2.div(A::from_usize(nfree2))
        } else {
            ub2.add(lb2).div(A::two())
        };

        self.r = r1.add(r2).div(A::two());

        r1.sub(r2).div(A::two())
    }

    /// Mirror of the second-order scan of `select_working_set`: the running
    /// minimizer of the objective decrease over the first `m` positions,
    /// paired with the violating index `gm`. Ties keep the later position.
    pub open spec fn sws_obj_rec(&self, gm: (A, isize), m: int) -> (A, isize)
        decreases m,
    {
        if m <= 0 {
            (A::infinity_s(), (-1) as isize)
        } else {
            let acc = self.sws_obj_rec(gm, m - 1);
            let k = m - 1;
            let i = gm.1 as int;
            if self.targets@[k] {
                if !self.alpha@[k].reached_lower_s() {
                    let grad_diff = gm.0.add_s(self.gradient@[k]);
                    if grad_diff.gt_s(A::zero_s()) {
                        let quad = self.kernel.k_s(i, i).add_s(self.kernel.k_s(k, k)).sub_s(
                            A::two_s().mul_s(self.target_s(i)).mul_s(self.kernel.k_s(i, k)),
                        );
                        let obj = if quad.gt_s(A::zero_s()) {
                            grad_diff.mul_s(grad_diff).neg_s().div_s(quad)
                        } else {
                            grad_diff.mul_s(grad_diff).neg_s().div_s(A::tiny_s())
                        };
                        if obj.le_s(acc.0) {
                            (obj, k as isize)
                        } else {
                            acc
                        }
                    } else {
                        acc
                    }
                } else {
                    acc
                }
            } else {
                if !self.alpha@[k].reached_upper_s() {
                    let grad_diff = gm.0.sub_s(self.gradient@[k]);
                    if grad_diff.gt_s(A::zero_s()) {
                        let quad = self.kernel.k_s(i, i).add_s(self.kernel.k_s(k, k)).add_s(
                            A::two_s().mul_s(self.target_s(i)).mul_s(self.kernel.k_s(i, k)),
                        );
                        let obj = if quad.gt_s(A::zero_s()) {
                            grad_diff.mul_s(grad_diff).neg_s().div_s(quad)
                        } else {
                            grad_diff.mul_s(grad_diff).neg_s().div_s(A::tiny_s())
                        };
                        if obj.le_s(acc.0) {
                            (obj, k as isize)
                        } else {
                            acc
                        }
                    } else {
                        acc
                    }
                } else {
                    acc
                }
            }
        }
    }

    /// Mirror of `select_working_set` (standard formulation).
    pub open spec fn sws_s(&self) -> (usize, usize, bool) {
        let pair = self.mvp_rec(self.nactive as int);
        let gmax = pair.0;
        let gmax2 = pair.1;
        let od = if gmax.1 != (-1) as isize {
            self.sws_obj_rec(gmax, self.nactive as int)
        } else {
            (A::infinity_s(), (-1) as isize)
        };
        if gmax.0.add_s(gmax2.0).lt_s(self.params.eps) || od.1 == (-1) as isize {
            (0usize, 0usize, true)
        } else {
            (gmax.1 as usize, od.1 as usize, false)
        }
    }

    /// Mirror of the second-order scan of `select_working_set_nu`, pairing
    /// within the class of each candidate.
    pub open spec fn sws_obj_nu_rec(&self, gp: (A, isize), gn: (A, isize), m: int) -> (A, isize)
        decreases m,
    {
        if m <= 0 {
            (A::infinity_s(), (-1) as isize)
        } else {
            let acc = self.sws_obj_nu_rec(gp, gn, m - 1);
            let k = m - 1;
            if self.targets@[k] {
                if !self.alpha@[k].reached_lower_s() {
                    let grad_diff = gp.0.add_s(self.gradient@[k]);
                    if grad_diff.gt_s(A::zero_s()) {
                        if gp.1 == (-1) as isize {
                            acc
                        } else {
                            let i = gp.1 as int;
                            let quad = self.kernel.k_s(i, i).add_s(self.kernel.k_s(k, k)).sub_s(
                                A::two_s().mul_s(self.kernel.k_s(i, k)),
                            );
                            let obj = if quad.gt_s(A::zero_s()) {
                                grad_diff.mul_s(grad_diff).neg_s().div_s(quad)
                            } else {
                                grad_diff.mul_s(grad_diff).neg_s().div_s(A::tiny_s())
                            };
                            if obj.le_s(acc.0) {
                                (obj, k as isize)
                            } else {
                                acc
                            }
                        }
                    } else {
                        acc
                    }
                } else {
                    acc
                }
            } else {
                if !self.alpha@[k].reached_upper_s() {
                    let grad_diff = gn.0.sub_s(self.gradient@[k]);
                    if grad_diff.gt_s(A::zero_s()) {
                        if gn.1 == (-1) as isize {
                            acc
                        } else {
                            let i = gn.1 as int;
                            let quad = self.kernel.k_s(i, i).add_s(self.kernel.k_s(k, k)).sub_s(
                                A::two_s().mul_s(self.kernel.k_s(i, k)),
                            );
                            let obj = if quad.gt_s(A::zero_s()) {
                                grad_diff.mul_s(grad_diff).neg_s().div_s(quad)
                            } else {
                                grad_diff.mul_s(grad_diff).neg_s().div_s(A::tiny_s())
                            };
                            if obj.le_s(acc.0) {
                                (obj, k as isize)
                            } else {
                                acc
                            }
                        }
                    } else {
                        acc
                    }
                } else {
                    acc
                }
            }
        }
    }

    /// Mirror of `select_working_set_nu`.
    pub open spec fn sws_nu_s(&self) -> (usize, usize, bool) {
        let quad = self.mvp_nu_rec(self.nactive as int);
        let gmaxp1 = quad.0;
        let gmaxn1 = quad.1;
        let gmaxp2 = quad.2;
        let gmaxn2 = quad.3;
        let od = self.sws_obj_nu_rec(gmaxp1, gmaxn1, self.nactive as int);
        if gmaxp1.0.add_s(gmaxp2.0).max_s(gmaxn1.0.add_s(gmaxn2.0)).lt_s(self.params.eps) || od.1
            == (-1) as isize {
            (0usize, 0usize, true)
        } else {
            let oj = od.1 as usize;
            let oi = if self.targets@[od.1 as int] {
                gmaxp1.1 as usize
            } else {
                gmaxn1.1 as usize
            };
            (oi, oj, false)
        }
    }

    /// Mirror of `select_working_set`, either formulation.
    pub open spec fn sws_dispatch_s(&self) -> (usize, usize, bool) {
        if self.nu_constraint {
            self.sws_nu_s()
        } else {
            self.sws_s()
        }
    }

    /// Select the working set for one optimization step: `i` maximizes the
    /// violation over the up-set, `j` minimizes the second-order objective
    /// decrease on the opposite side; the flag reports optimality, that is,
    /// that the maximal violation is below the tolerance or no candidate
    /// pair is left.
    pub fn select_working_set(&self) -> (r: (usize, usize, bool))
        requires
            self.wf(),
        ensures
            r == self.sws_dispatch_s(),
            !r.2 ==> r.0 < self.nactive && r.1 < self.nactive && r.0 != r.1,
    {
        if self.nu_constraint {
            return self.select_working_set_nu();
        }

        let (gmax, gmax2) = self.max_violating_pair();

        let mut obj_diff_min: (A, isize) = (A::infinity(), -1);

        proof {
            lemma_mvp_bounds(self.targets@, self.alpha@, self.gradient@, self.nactive as int);
            lemma_mvp_value(self.targets@, self.alpha@, self.gradient@, self.nactive as int);
        }

        if gmax.1 != -1 {
            let i = gmax.1 as usize;
            let dist_i = self.kernel.distances(i, self.ntotal());

            let mut j: usize = 0;
            while j < self.nactive
                invariant
                    self.wf(),
                    j <= self.nactive,
                    0 <= gmax.1 < self.nactive,
                    i == gmax.1 as usize,
                    dist_i@.len() == self.ntotal_s(),
                    forall|t: int|
                        0 <= t < self.ntotal_s() ==> #[trigger] dist_i@[t] == self.kernel.k_s(
                            i as int,
                            t,
                        ),
                    obj_diff_min == self.sws_obj_rec(gmax, j as int),
                decreases self.nactive - j,
            {
                let dist_ij = dist_i[j];
                if self.targets[j] {
                    if !self.alpha[j].reached_lower() {
                        let grad_diff = gmax.0.add(self.gradient[j]);
                        if grad_diff.gt(A::zero()) {
                            let quad_coef = self.kernel.self_distance(i).add(
                                self.kernel.self_distance(j),
                            ).sub(A::two().mul(self.target(i)).mul(dist_ij));

                            let obj_diff = if quad_coef.gt(A::zero()) {
                                grad_diff.mul(grad_diff).neg().div(quad_coef)
                            } else {
                                grad_diff.mul(grad_diff).neg().div(A::tiny())
                            };

                            if obj_diff.le(obj_diff_min.0) {
                                obj_diff_min = (obj_diff, j as isize);
                            }
                        }
                    }
                } else if !self.alpha[j].reached_upper() {
                    let grad_diff = gmax.0.sub(self.gradient[j]);
                    if grad_diff.gt(A::zero()) {
                        let quad_coef = self.kernel.self_distance(i).add(
                            self.kernel.self_distance(j),
                        ).add(A::two().mul(self.target(i)).mul(dist_ij));

                        let obj_diff = if quad_coef.gt(A::zero()) {
                            grad_diff.mul(grad_diff).neg().div(quad_coef)
                        } else {
                            grad_diff.mul(grad_diff).neg().div(A::tiny())
                        };
                        if obj_diff.le(obj_diff_min.0) {
                            obj_diff_min = (obj_diff, j as isize);
                        }
                    }
                }
                j += 1;
            }
            proof {
                lemma_sws_obj_props(*self, gmax, self.nactive as int);
            }
        }

        if gmax.0.add(gmax2.0).lt(self.params.eps) || obj_diff_min.1 == -1 {
            (0, 0, true)
        } else {
            (gmax.1 as usize, obj_diff_min.1 as usize, false)
        }
    }

    /// The nu-variant of the working-set selection: the candidate `j` is
    /// paired with the violating index of its own class.
    pub fn select_working_set_nu(&self) -> (r: (usize, usize, bool))
        requires
            self.wf(),
        ensures
            r == self.sws_nu_s(),
            !r.2 ==> r.0 < self.nactive && r.1 < self.nactive && r.0 != r.1,
    {
        let (gmaxp1, gmaxn1, gmaxp2, gmaxn2) = self.max_violating_pair_nu();

        let mut obj_diff_min: (A, isize) = (A::infinity(), -1);

        proof {
            lemma_mvp_nu_bounds(self.targets@, self.alpha@, self.gradient@, self.nactive as int);
            lemma_mvp_nu_value(self.targets@, self.alpha@, self.gradient@, self.nactive as int);
        }

        let dist_i_p: Option<Vec<A>> = if gmaxp1.1 != -1 {
            Some(self.kernel.distances(gmaxp1.1 as usize, self.ntotal()))
        } else {
            None
        };

        let dist_i_n: Option<Vec<A>> = if gmaxn1.1 != -1 {
            Some(self.kernel.distances(gmaxn1.1 as usize, self.ntotal()))
        } else {
            None
        };

        let mut j: usize = 0;
        while j < self.nactive
            invariant
                self.wf(),
                j <= self.nactive,
                -1 <= gmaxp1.1 < self.nactive,
                -1 <= gmaxn1.1 < self.nactive,
                dist_i_p is Some <==> gmaxp1.1 != -1,
                dist_i_n is Some <==> gmaxn1.1 != -1,
                dist_i_p is Some ==> (dist_i_p->0@.len() == self.ntotal_s() && forall|t: int|
                    0 <= t < self.ntotal_s() ==> #[trigger] dist_i_p->0@[t] == self.kernel.k_s(
                        gmaxp1.1 as int,
                        t,
                    )),
                dist_i_n is Some ==> (dist_i_n->0@.len() == self.ntotal_s() && forall|t: int|
                    0 <= t < self.ntotal_s() ==> #[trigger] dist_i_n->0@[t] == self.kernel.k_s(
                        gmaxn1.1 as int,
                        t,
                    )),
                obj_diff_min == self.sws_obj_nu_rec(gmaxp1, gmaxn1, j as int),
            decreases self.nactive - j,
        {
            if self.targets[j] {
                if !self.alpha[j].reached_lower() {
                    let grad_diff = gmaxp1.0.add(self.gradient[j]);
                    if grad_diff.gt(A::zero()) {
                        match dist_i_p {
                            Some(ref dist) => {
                                let i = gmaxp1.1 as usize;

                                let quad_coef = self.kernel.self_distance(i).add(
                                    self.kernel.self_distance(j),
                                ).sub(A::two().mul(dist[j]));

                                let obj_diff = if quad_coef.gt(A::zero()) {
                                    grad_diff.mul(grad_diff).neg().div(quad_coef)
                                } else {
                                    grad_diff.mul(grad_diff).neg().div(A::tiny())
                                };

                                if obj_diff.le(obj_diff_min.0) {
                                    obj_diff_min = (obj_diff, j as isize);
                                }
                            },
                            None => {},
                        }
                    }
                }
            } else if !self.alpha[j].reached_upper() {
                let grad_diff = gmaxn1.0.sub(self.gradient[j]);
                if grad_diff.gt(A::zero()) {
                    match dist_i_n {
                        Some(ref dist) => {
                            let i = gmaxn1.1 as usize;

                            let quad_coef = self.kernel.self_distance(i).add(
                                self.kernel.self_distance(j),
                            ).sub(A::two().mul(dist[j]));

                            let obj_diff = if quad_coef.gt(A::zero()) {
                                grad_diff.mul(grad_diff).neg().div(quad_coef)
                            } else {
                                grad_diff.mul(grad_diff).neg().div(A::tiny())
                            };

                            if obj_diff.le(obj_diff_min.0) {
                                obj_diff_min = (obj_diff, j as isize);
                            }
                        },
                        None => {},
                    }
                }
            }
            j += 1;
        }

        proof {
            lemma_sws_obj_nu_props(*self, gmaxp1, gmaxn1, self.nactive as int);
        }

        if gmaxp1.0.add(gmaxp2.0).max(gmaxn1.0.add(gmaxn2.0)).lt(self.params.eps)
            || obj_diff_min.1 == -1 {
            (0, 0, true)
        } else {
            let out_j = obj_diff_min.1 as usize;
            let out_i = if self.targets[out_j] {
                gmaxp1.1 as usize
            } else {
                gmaxn1.1 as usize
            };

            (out_i, out_j, false)
        }
    }

    /// Mirror of `should_shrunk`.
    pub open spec fn should_shrunk_s(&self, i: int, gmax1: A, gmax2: A) -> bool {
        if self.alpha@[i].reached_upper_s() {
            if self.targets@[i] {
                self.gradient@[i].neg_s().gt_s(gmax1)
            } else {
                self.gradient@[i].neg_s().gt_s(gmax2)
            }
        } else if self.alpha@[i].reached_lower_s() {
            if self.targets@[i] {
                self.gradient@[i].gt_s(gmax2)
            } else {
                self.gradient@[i].neg_s().gt_s(gmax1)
            }
        } else {
            false
        }
    }

    /// Mirror of `should_shrunk_nu`.
    pub open spec fn should_shrunk_nu_s(&self, i: int, gmax1: A, gmax2: A, gmax3: A, gmax4: A) -> bool {
        if self.alpha@[i].reached_upper_s() {
            if self.targets@[i] {
                self.gradient@[i].neg_s().gt_s(gmax1)
            } else {
                self.gradient@[i].neg_s().gt_s(gmax4)
            }
        } else if self.alpha@[i].reached_lower_s() {
            if self.targets@[i] {
                self.gradient@[i].gt_s(gmax2)
            } else {
                self.gradient@[i].gt_s(gmax3)
            }
        } else {
            false
        }
    }

    /// Whether the coordinate at position `i` is locked at a box boundary
    /// and its gradient pushes further outward than the given thresholds.
    pub fn should_shrunk(&self, i: usize, gmax1: A, gmax2: A) -> (r: bool)
        requires
            i < self.ntotal_s(),
            self.gradient@.len() == self.ntotal_s(),
            self.targets@.len() == self.ntotal_s(),
        ensures
            r == self.should_shrunk_s(i as int, gmax1, gmax2),
    {
        if self.alpha[i].reached_upper() {
            if self.targets[i] {
                self.gradient[i].neg().gt(gmax1)
            } else {
                self.gradient[i].neg().gt(gmax2)
            }
        } else if self.alpha[i].reached_lower() {
            if self.targets[i] {
                self.gradient[i].gt(gmax2)
            } else {
                self.gradient[i].neg().gt(gmax1)
            }
        } else {
            false
        }
    }

    /// The nu-variant of `should_shrunk`, against four thresholds.
    pub fn should_shrunk_nu(&self, i: usize, gmax1: A, gmax2: A, gmax3: A, gmax4: A) -> (r: bool)
        requires
            i < self.ntotal_s(),
            self.gradient@.len() == self.ntotal_s(),
            self.targets@.len() == self.ntotal_s(),
        ensures
            r == self.should_shrunk_nu_s(i as int, gmax1, gmax2, gmax3, gmax4),
    {
        if self.alpha[i].reached_upper() {
            if self.targets[i] {
                self.gradient[i].neg().gt(gmax1)
            } else {
                self.gradient[i].neg().gt(gmax4)
            }
        } else if self.alpha[i].reached_lower() {
            if self.targets[i] {
                self.gradient[i].gt(gmax2)
            } else {
                self.gradient[i].gt(gmax3)
            }
        } else {
            false
        }
    }

    /// Swap two positions: all parallel arrays and the kernel's logical
    /// order move together, preserving every pairwise relation.
    pub fn swap(&mut self, i: usize, j: usize)
        requires
            old(self).wf(),
            i < old(self).ntotal_s(),
            j < old(self).ntotal_s(),
        ensures
            final(self).wf(),
            final(self).gradient@ == swapped_seq(old(self).gradient@, i as int, j as int),
            final(self).gradient_fixed@ == swapped_seq(
                old(self).gradient_fixed@,
                i as int,
                j as int,
            ),
            final(self).alpha@ == swapped_seq(old(self).alpha@, i as int, j as int),
            final(self).p@ == swapped_seq(old(self).p@, i as int, j as int),
            final(self).active_set@ == swapped_seq(old(self).active_set@, i as int, j as int),
            final(self).targets@ == swapped_seq(old(self).targets@, i as int, j as int),
            final(self).bounds@ == old(self).bounds@,
            forall|a: int, b: int|
                0 <= a < old(self).ntotal_s() && 0 <= b < old(self).ntotal_s()
                    ==> final(self).kernel.k_s(a, b) == old(self).kernel.k_s(
                    swap_image(a, i as int, j as int),
                    swap_image(b, i as int, j as int),
                ),
            final(self).kernel.linear_s() == old(self).kernel.linear_s(),
            final(self).kernel.nfeatures_s() == old(self).kernel.nfeatures_s(),
            forall|t: int|
                0 <= t < old(self).ntotal_s() ==> final(self).kernel.sample_s(t)
                    == old(self).kernel.sample_s(t),
            final(self).nactive == old(self).nactive,
            final(self).unshrink == old(self).unshrink,
            final(self).nu_constraint == old(self).nu_constraint,
            final(self).r == old(self).r,
            final(self).params == old(self).params,
            final(self).orig_p == old(self).orig_p,
            final(self).orig_targets == old(self).orig_targets,
    {
        let tg = self.gradient[i];
        self.gradient[i] = self.gradient[j];
        self.gradient[j] = tg;
        let tf = self.gradient_fixed[i];
        self.gradient_fixed[i] = self.gradient_fixed[j];
        self.gradient_fixed[j] = tf;
        let ta = self.alpha[i];
        self.alpha[i] = self.alpha[j];
        self.alpha[j] = ta;
        let tp = self.p[i];
        self.p[i] = self.p[j];
        self.p[j] = tp;
        let ts = self.active_set[i];
        self.active_set[i] = self.active_set[j];
        self.active_set[j] = ts;
        self.kernel.swap_indices(i, j);
        let tt = self.targets[i];
        self.targets[i] = self.targets[j];
        self.targets[j] = tt;
        proof {
            let n = old(self).alpha@.len() as int;
            assert forall|a: int, b: int|
                0 <= a < n && 0 <= b < n implies self.kernel.k_s(a, b) == self.kernel.k_s(
                b,
                a,
            ) by {
                assert(self.kernel.k_s(a, b) == old(self).kernel.k_s(
                    swap_image(a, i as int, j as int),
                    swap_image(b, i as int, j as int),
                ));
                assert(self.kernel.k_s(b, a) == old(self).kernel.k_s(
                    swap_image(b, i as int, j as int),
                    swap_image(a, i as int, j as int),
                ));
            }
            let ii = i as int;
            let jj = j as int;
            assert forall|a: int| 0 <= a < n implies (#[trigger] self.active_set@[a]) < n by {
                assert(self.active_set@[a] == old(self).active_set@[swap_image(a, ii, jj)]);
            }
            assert forall|a: int, b: int|
                0 <= a < n && 0 <= b < n && a != b implies self.active_set@[a]
                != self.active_set@[b] by {
                assert(self.active_set@[a] == old(self).active_set@[swap_image(a, ii, jj)]);
                assert(self.active_set@[b] == old(self).active_set@[swap_image(b, ii, jj)]);
            }
            assert forall|a: int| 0 <= a < n implies #[trigger] self.p@[a]
                == self.orig_p@[self.active_set@[a] as int] by {
                assert(self.p@[a] == old(self).p@[swap_image(a, ii, jj)]);
                assert(self.active_set@[a] == old(self).active_set@[swap_image(a, ii, jj)]);
            }
            assert forall|a: int| 0 <= a < n implies #[trigger] self.targets@[a]
                == self.orig_targets@[self.active_set@[a] as int] by {
                assert(self.targets@[a] == old(self).targets@[swap_image(a, ii, jj)]);
                assert(self.active_set@[a] == old(self).active_set@[swap_image(a, ii, jj)]);
            }
            assert(self.wf());
        }
    }
}

/// The position at which a permutation holds the original index `k`.
pub open spec fn pos_of(aset: Seq<usize>, k: usize) -> int {
    choose|q: int| 0 <= q < aset.len() && aset[q] == k
}

/// The current state is a relabeling of the given parallel arrays: the
/// coordinate standing at each position carries exactly the values it had at
/// its position in the given arrays.
pub open spec fn shrink_corr<A: Float, K: Permutable<A>>(
    aset0: Seq<usize>,
    g0: Seq<A>,
    gf0: Seq<A>,
    al0: Seq<Alpha<A>>,
    p0: Seq<A>,
    tg0: Seq<bool>,
    cur: &SolverState<A, K>,
) -> bool {
    forall|q: int|
        0 <= q < cur.active_set@.len() ==> {
            let q0 = pos_of(aset0, #[trigger] cur.active_set@[q]);
            &&& 0 <= q0 < aset0.len()
            &&& aset0[q0] == cur.active_set@[q]
            &&& g0[q0] == cur.gradient@[q]
            &&& gf0[q0] == cur.gradient_fixed@[q]
            &&& al0[q0] == cur.alpha@[q]
            &&& p0[q0] == cur.p@[q]
            &&& tg0[q0] == cur.targets@[q]
        }
}

/// The shrink predicate reads only the position's own entries, so it
/// transfers between states that agree there.
pub proof fn lemma_shr_transfer<A: Float, K1: Permutable<A>, K2: Permutable<A>>(
    a: &SolverState<A, K1>,
    b: &SolverState<A, K2>,
    qa: int,
    qb: int,
    g1: A,
    g2: A,
)
    requires
        0 <= qa < a.alpha@.len(),
        qa < a.gradient@.len(),
        qa < a.targets@.len(),
        0 <= qb < b.alpha@.len(),
        qb < b.gradient@.len(),
        qb < b.targets@.len(),
        a.alpha@[qa] == b.alpha@[qb],
        a.gradient@[qa] == b.gradient@[qb],
        a.targets@[qa] == b.targets@[qb],
    ensures
        a.should_shrunk_s(qa, g1, g2) == b.should_shrunk_s(qb, g1, g2),
{
}

/// The nu-variant of the transfer of the shrink predicate.
pub proof fn lemma_shr_nu_transfer<A: Float, K1: Permutable<A>, K2: Permutable<A>>(
    a: &SolverState<A, K1>,
    b: &SolverState<A, K2>,
    qa: int,
    qb: int,
    g1: A,
    g2: A,
    g3: A,
    g4: A,
)
    requires
        0 <= qa < a.alpha@.len(),
        qa < a.gradient@.len(),
        qa < a.targets@.len(),
        0 <= qb < b.alpha@.len(),
        qb < b.gradient@.len(),
        qb < b.targets@.len(),
        a.alpha@[qa] == b.alpha@[qb],
        a.gradient@[qa] == b.gradient@[qb],
        a.targets@[qa] == b.targets@[qb],
    ensures
        a.should_shrunk_nu_s(qa, g1, g2, g3, g4) == b.should_shrunk_nu_s(qb, g1, g2, g3, g4),
{
}

/// A well-formed state is a relabeling of its own arrays.
pub proof fn lemma_corr_refl<A: Float, K: Permutable<A>>(st: &SolverState<A, K>)
    requires
        st.wf(),
    ensures
        shrink_corr(
            st.active_set@,
            st.gradient@,
            st.gradient_fixed@,
            st.alpha@,
            st.p@,
            st.targets@,
            st,
        ),
{
    let n = st.active_set@.len() as int;
    assert forall|q: int| 0 <= q < n implies {
        let q0 = pos_of(st.active_set@, #[trigger] st.active_set@[q]);
        &&& 0 <= q0 < n
        &&& st.active_set@[q0] == st.active_set@[q]
        &&& st.gradient@[q0] == st.gradient@[q]
        &&& st.gradient_fixed@[q0] == st.gradient_fixed@[q]
        &&& st.alpha@[q0] == st.alpha@[q]
        &&& st.p@[q0] == st.p@[q]
        &&& st.targets@[q0] == st.targets@[q]
    } by {
        let q0 = pos_of(st.active_set@, st.active_set@[q]);
        assert(0 <= q < n && st.active_set@[q] == st.active_set@[q]);
        assert(0 <= q0 < n && st.active_set@[q0] == st.active_set@[q]);
        assert(q0 == q);
    }
}

/// A relabeling stays a relabeling after one transposition of positions.
pub proof fn lemma_corr_swap<A: Float, K: Permutable<A>>(
    aset0: Seq<usize>,
    g0: Seq<A>,
    gf0: Seq<A>,
    al0: Seq<Alpha<A>>,
    p0: Seq<A>,
    tg0: Seq<bool>,
    before: &SolverState<A, K>,
    after: &SolverState<A, K>,
    i: int,
    j: int,
)
    requires
        shrink_corr(aset0, g0, gf0, al0, p0, tg0, before),
        0 <= i < before.active_set@.len(),
        0 <= j < before.active_set@.len(),
        after.active_set@ == swapped_seq(before.active_set@, i, j),
        after.gradient@ == swapped_seq(before.gradient@, i, j),
        after.gradient_fixed@ == swapped_seq(before.gradient_fixed@, i, j),
        after.alpha@ == swapped_seq(before.alpha@, i, j),
        after.p@ == swapped_seq(before.p@, i, j),
        after.targets@ == swapped_seq(before.targets@, i, j),
        before.gradient@.len() == before.active_set@.len(),
        before.gradient_fixed@.len() == before.active_set@.len(),
        before.alpha@.len() == before.active_set@.len(),
        before.p@.len() == before.active_set@.len(),
        before.targets@.len() == before.active_set@.len(),
    ensures
        shrink_corr(aset0, g0, gf0, al0, p0, tg0, after),
{
    let n = before.active_set@.len() as int;
    assert(after.active_set@.len() == n);
    assert forall|q: int| 0 <= q < n implies {
        let q0 = pos_of(aset0, #[trigger] after.active_set@[q]);
        &&& 0 <= q0 < aset0.len()
        &&& aset0[q0] == after.active_set@[q]
        &&& g0[q0] == after.gradient@[q]
        &&& gf0[q0] == after.gradient_fixed@[q]
        &&& al0[q0] == after.alpha@[q]
        &&& p0[q0] == after.p@[q]
        &&& tg0[q0] == after.targets@[q]
    } by {
        let src = swap_image(q, i, j);
        assert(0 <= src < n);
        assert(after.active_set@[q] == before.active_set@[src]);
        assert(after.gradient@[q] == before.gradient@[src]);
        assert(after.gradient_fixed@[q] == before.gradient_fixed@[src]);
        assert(after.alpha@[q] == before.alpha@[src]);
        assert(after.p@[q] == before.p@[src]);
        assert(after.targets@[q] == before.targets@[src]);
    }
}

/// The sequence with the entries at `i` and `j` exchanged.
pub open spec fn swapped_seq<T>(s: Seq<T>, i: int, j: int) -> Seq<T> {
    s.update(i, s[j]).update(j, s[i])
}

/// The maximal violating pair over the first `m` positions: the running
/// maxima of `-y_i * grad_i` over the up-set and of `y_i * grad_i` over the
/// low-set, scanned in position order with ties won by the later position.
pub open spec fn mvp_rec<A: Float>(targets: Seq<bool>, al: Seq<Alpha<A>>, g: Seq<A>, m: int) -> (
    (A, isize),
    (A, isize),
)
    decreases m,
{
    if m <= 0 {
        ((A::infinity_s().neg_s(), (-1) as isize), (A::infinity_s().neg_s(), (-1) as isize))
    } else {
        let (g1, g2) = mvp_rec(targets, al, g, m - 1);
        let k = m - 1;
        if targets[k] {
            let n1 = if !al[k].reached_upper_s() && g[k].neg_s().ge_s(g1.0) {
                (g[k].neg_s(), k as isize)
            } else {
                g1
            };
            let n2 = if !al[k].reached_lower_s() && g[k].ge_s(g2.0) {
                (g[k], k as isize)
            } else {
                g2
            };
            (n1, n2)
        } else {
            let n2 = if !al[k].reached_upper_s() && g[k].neg_s().ge_s(g2.0) {
                (g[k].neg_s(), k as isize)
            } else {
                g2
            };
            let n1 = if !al[k].reached_lower_s() && g[k].ge_s(g1.0) {
                (g[k], k as isize)
            } else {
                g1
            };
            (n1, n2)
        }
    }
}

/// The four nu-extrema over the first `m` positions, with strict
/// improvement, so ties are won by the earlier position.
pub open spec fn mvp_nu_rec<A: Float>(targets: Seq<bool>, al: Seq<Alpha<A>>, g: Seq<A>, m: int) -> (
    (A, isize),
    (A, isize),
    (A, isize),
    (A, isize),
)
    decreases m,
{
    if m <= 0 {
        (
            (A::infinity_s().neg_s(), (-1) as isize),
            (A::infinity_s().neg_s(), (-1) as isize),
            (A::infinity_s().neg_s(), (-1) as isize),
            (A::infinity_s().neg_s(), (-1) as isize),
        )
    } else {
        let (g1, g2, g3, g4) = mvp_nu_rec(targets, al, g, m - 1);
        let k = m - 1;
        if targets[k] {
            let n1 = if !al[k].reached_upper_s() && g[k].neg_s().gt_s(g1.0) {
                (g[k].neg_s(), k as isize)
            } else {
                g1
            };
            let n3 = if !al[k].reached_lower_s() && g[k].gt_s(g3.0) {
                (g[k], k as isize)
            } else {
                g3
            };
            (n1, g2, n3, g4)
        } else {
            let n4 = if !al[k].reached_upper_s() && g[k].neg_s().gt_s(g4.0) {
                (g[k].neg_s(), k as isize)
            } else {
                g4
            };
            let n2 = if !al[k].reached_lower_s() && g[k].gt_s(g2.0) {
                (g[k], k as isize)
            } else {
                g2
            };
            (g1, n2, g3, n4)
        }
    }
}

/// The indices that `mvp_rec` reports lie in `[-1, m)`.
pub proof fn lemma_mvp_bounds<A: Float>(targets: Seq<bool>, al: Seq<Alpha<A>>, g: Seq<A>, m: int)
    requires
        0 <= m <= isize::MAX as int,
    ensures
        -1 <= mvp_rec(targets, al, g, m).0.1 < m,
        -1 <= mvp_rec(targets, al, g, m).1.1 < m,
    decreases m,
{
    if m > 0 {
        lemma_mvp_bounds(targets, al, g, m - 1);
    }
}

/// The indices that `mvp_nu_rec` reports lie in `[-1, m)`.
pub proof fn lemma_mvp_nu_bounds<A: Float>(targets: Seq<bool>, al: Seq<Alpha<A>>, g: Seq<A>, m: int)
    requires
        0 <= m <= isize::MAX as int,
    ensures
        -1 <= mvp_nu_rec(targets, al, g, m).0.1 < m,
        -1 <= mvp_nu_rec(targets, al, g, m).1.1 < m,
        -1 <= mvp_nu_rec(targets, al, g, m).2.1 < m,
        -1 <= mvp_nu_rec(targets, al, g, m).3.1 < m,
    decreases m,
{
    if m > 0 {
        lemma_mvp_nu_bounds(targets, al, g, m - 1);
    }
}

/// A violating index that `mvp_rec` reports carries its own signed gradient
/// as the violation value.
pub proof fn lemma_mvp_value<A: Float>(targets: Seq<bool>, al: Seq<Alpha<A>>, g: Seq<A>, m: int)
    requires
        0 <= m <= isize::MAX as int,
    ensures
        mvp_rec(targets, al, g, m).0.1 >= 0 ==> mvp_rec(targets, al, g, m).0.0 == (if targets[mvp_rec(
            targets,
            al,
            g,
            m,
        ).0.1 as int] {
            g[mvp_rec(targets, al, g, m).0.1 as int].neg_s()
        } else {
            g[mvp_rec(targets, al, g, m).0.1 as int]
        }),
        mvp_rec(targets, al, g, m).1.1 >= 0 ==> mvp_rec(targets, al, g, m).1.0 == (if targets[mvp_rec(
            targets,
            al,
            g,
            m,
        ).1.1 as int] {
            g[mvp_rec(targets, al, g, m).1.1 as int]
        } else {
            g[mvp_rec(targets, al, g, m).1.1 as int].neg_s()
        }),
    decreases m,
{
    if m > 0 {
        lemma_mvp_value(targets, al, g, m - 1);
        lemma_mvp_bounds(targets, al, g, m - 1);
    }
}

/// The up-set extremum of `mvp_nu_rec` belongs to the positive class and
/// carries its negated gradient; the low-set extremum of the negative class
/// carries its plain gradient.
pub proof fn lemma_mvp_nu_value<A: Float>(targets: Seq<bool>, al: Seq<Alpha<A>>, g: Seq<A>, m: int)
    requires
        0 <= m <= isize::MAX as int,
    ensures
        mvp_nu_rec(targets, al, g, m).0.1 >= 0 ==> targets[mvp_nu_rec(targets, al, g, m).0.1 as int]
            && mvp_nu_rec(targets, al, g, m).0.0 == g[mvp_nu_rec(
            targets,
            al,
            g,
            m,
        ).0.1 as int].neg_s(),
        mvp_nu_rec(targets, al, g, m).1.1 >= 0 ==> !targets[mvp_nu_rec(
            targets,
            al,
            g,
            m,
        ).1.1 as int] && mvp_nu_rec(targets, al, g, m).1.0 == g[mvp_nu_rec(
            targets,
            al,
            g,
            m,
        ).1.1 as int],
    decreases m,
{
    if m > 0 {
        lemma_mvp_nu_value(targets, al, g, m - 1);
        lemma_mvp_nu_bounds(targets, al, g, m - 1);
    }
}

/// The second-order scan never selects the violating index itself, because
/// its own gradient difference cancels to nothing positive.
pub proof fn lemma_sws_obj_props<A: Float, K: Permutable<A>>(
    st: SolverState<A, K>,
    gm: (A, isize),
    m: int,
)
    requires
        0 <= m <= isize::MAX as int,
        gm.1 >= 0,
        0 <= gm.1 < st.targets@.len(),
        0 <= gm.1 < st.gradient@.len(),
        gm.0 == (if st.targets@[gm.1 as int] {
            st.gradient@[gm.1 as int].neg_s()
        } else {
            st.gradient@[gm.1 as int]
        }),
    ensures
        -1 <= st.sws_obj_rec(gm, m).1 < m,
        st.sws_obj_rec(gm, m).1 != gm.1,
    decreases m,
{
    if m > 0 {
        lemma_sws_obj_props(st, gm, m - 1);
        let k = m - 1;
        if k == gm.1 {
            if st.targets@[k] {
                A::axiom_cancel_add(st.gradient@[k]);
            } else {
                A::axiom_cancel_sub(st.gradient@[k]);
            }
        }
    }
}

/// The nu-scan selects an index only when its class has a violating index,
/// and never that violating index itself.
pub proof fn lemma_sws_obj_nu_props<A: Float, K: Permutable<A>>(
    st: SolverState<A, K>,
    gp: (A, isize),
    gn: (A, isize),
    m: int,
)
    requires
        0 <= m <= isize::MAX as int,
        m <= st.targets@.len(),
        m <= st.gradient@.len(),
        gp.1 >= -1,
        gn.1 >= -1,
        gp.1 >= 0 ==> gp.1 < st.targets@.len() && st.targets@[gp.1 as int] && gp.0 == st.gradient@[gp.1 as int].neg_s(),
        gn.1 >= 0 ==> gn.1 < st.targets@.len() && !st.targets@[gn.1 as int] && gn.0 == st.gradient@[gn.1 as int],
    ensures
        -1 <= st.sws_obj_nu_rec(gp, gn, m).1 < m,
        st.sws_obj_nu_rec(gp, gn, m).1 >= 0 ==> (if st.targets@[st.sws_obj_nu_rec(
            gp,
            gn,
            m,
        ).1 as int] {
            gp.1 >= 0 && st.sws_obj_nu_rec(gp, gn, m).1 != gp.1
        } else {
            gn.1 >= 0 && st.sws_obj_nu_rec(gp, gn, m).1 != gn.1
        }),
    decreases m,
{
    if m > 0 {
        lemma_sws_obj_nu_props(st, gp, gn, m - 1);
        let k = m - 1;
        if gp.1 >= 0 && k == gp.1 {
            A::axiom_cancel_add(st.gradient@[k]);
        }
        if gn.1 >= 0 && k == gn.1 {
            A::axiom_cancel_sub(st.gradient@[k]);
        }
    }
}

/// The gradient after the first `m` coordinates have contributed their
/// initialization terms: starting from the linear term, each coordinate away
/// from its lower bound adds its value times its kernel row.
pub open spec fn init_gradient_rec<A: Float>(
    p: Seq<A>,
    al: Seq<Alpha<A>>,
    km: Seq<Seq<A>>,
    m: int,
) -> Seq<A>
    decreases m,
{
    if m <= 0 {
        p
    } else {
        let prev = init_gradient_rec(p, al, km, m - 1);
        if !al[m - 1].reached_lower_s() {
            Seq::new(prev.len(), |t: int| prev[t].add_s(al[m - 1].value.mul_s(km[m - 1][t])))
        } else {
            prev
        }
    }
}

/// The fixed-gradient cache after the first `m` coordinates have
/// contributed: each coordinate at its upper bound (and away from its lower
/// bound) adds its bound times its kernel row.
pub open spec fn init_gfixed_rec<A: Float>(
    start: Seq<A>,
    al: Seq<Alpha<A>>,
    bounds: Seq<A>,
    km: Seq<Seq<A>>,
    m: int,
) -> Seq<A>
    decreases m,
{
    if m <= 0 {
        start
    } else {
        let prev = init_gfixed_rec(start, al, bounds, km, m - 1);
        if !al[m - 1].reached_lower_s() && al[m - 1].reached_upper_s() {
            Seq::new(prev.len(), |t: int| prev[t].add_s(bounds[m - 1].mul_s(km[m - 1][t])))
        } else {
            prev
        }
    }
}

/// Why the main loop stopped.
#[derive(Clone, Copy, PartialEq, Eq, Structural, Debug)]
pub enum ExitReason {
    /// The optimality test fell below the stopping tolerance.
    ReachedThreshold,
    /// The iteration cap was exhausted first.
    ReachedIterations,
}

/// The iteration cap: one hundred rounds per coordinate, at least ten
/// million, saturating against overflow.
pub open spec fn max_iter_s(n: int) -> int {
    let m = if n > usize::MAX as int / 100 {
        usize::MAX as int
    } else {
        100 * n
    };
    if 10_000_000 >= m {
        10_000_000
    } else {
        m
    }
}

/// The objective accumulator over the first `m` coordinates:
/// `sum alpha_i * (grad_i + p_i)`.
pub open spec fn obj_fold<A: Float>(al: Seq<Alpha<A>>, g: Seq<A>, p: Seq<A>, m: int) -> A
    decreases m,
{
    if m <= 0 {
        A::zero_s()
    } else {
        obj_fold(al, g, p, m - 1).add_s(al[m - 1].value.mul_s(g[m - 1].add_s(p[m - 1])))
    }
}

/// The primal weight accumulator over the first `m` positions:
/// each position adds its signed variable times its original sample row.
pub open spec fn w_fold<A: Float, K: Permutable<A>>(
    tg: Seq<bool>,
    al: Seq<Alpha<A>>,
    aset: Seq<usize>,
    kern: K,
    nfeat: int,
    m: int,
) -> Seq<A>
    decreases m,
{
    if m <= 0 {
        Seq::new(nfeat as nat, |f: int| A::zero_s())
    } else {
        let prev = w_fold(tg, al, aset, kern, nfeat, m - 1);
        let coef = (if tg[m - 1] {
            A::one_s()
        } else {
            A::one_s().neg_s()
        }).mul_s(al[m - 1].value);
        Seq::new(prev.len(), |f: int| prev[f].add_s(coef.mul_s(kern.sample_s(aset[m - 1] as int)[f])))
    }
}

/// The fitted model that `solve` returns: the variables in original index
/// order, the bias, the optional nu-residual, the objective value, the exit
/// reason and iteration count, the kernel handed back, and the precomputed
/// primal weights when the kernel was linear. The ghost field holds the
/// solver state at exit, which the contract of `solve` speaks about.
pub struct Svm<A, K> {
    /// The dual variables, permuted back to original index order.
    pub alpha: Vec<A>,
    /// The bias of the decision function.
    pub rho: A,
    /// The nu-residual; present only under the nu-formulation.
    pub r: Option<A>,
    /// Why the main loop stopped.
    pub exit_reason: ExitReason,
    /// The objective value at termination.
    pub obj: A,
    /// Number of update steps taken.
    pub iterations: usize,
    /// The kernel, handed back to the caller.
    pub kernel: K,
    /// The primal weight vector, when the kernel was linear.
    pub linear_decision: Option<Vec<A>>,
    /// The solver state at exit.
    pub state: Ghost<SolverState<A, K>>,
}

impl<A: Float, K: Permutable<A>> SolverState<A, K> {
    /// Drive the solver to optimality or to the iteration cap: shrink
    /// periodically, select a working set, re-select once after a full
    /// reconstruction when it looks optimal, and update the chosen pair.
    /// Then compute the bias and the objective, restore the original
    /// coordinate order, and precompute the primal weights for a linear
    /// kernel.
    pub fn solve(self) -> (r: Svm<A, K>)
        requires
            self.wf(),
        ensures
            ({
                let st = r.state@;
                let n = self.ntotal_s() as int;
                &&& st.wf()
                &&& st.ntotal_s() == self.ntotal_s()
                &&& st.nactive == st.ntotal_s()
                &&& st.nu_constraint == self.nu_constraint
                &&& st.params == self.params
                &&& st.orig_p == self.orig_p
                &&& st.orig_targets == self.orig_targets
                &&& st.bounds@ == self.bounds@
                &&& st.kernel.linear_s() == self.kernel.linear_s()
                &&& r.iterations <= max_iter_s(n)
                &&& (r.exit_reason == ExitReason::ReachedIterations <==> r.iterations
                    == max_iter_s(n))
                &&& (r.exit_reason == ExitReason::ReachedThreshold ==> st.sws_dispatch_s().2)
                &&& r.alpha@.len() == n
                &&& (forall|q: int|
                    0 <= q < n ==> r.alpha@[st.active_set@[q] as int] == st.alpha@[q].value)
                &&& r.rho == st.rho_dispatch_s()
                &&& r.r == (if self.nu_constraint {
                    Some(st.r_nu_s())
                } else {
                    Option::<A>::None
                })
                &&& r.obj == obj_fold(st.alpha@, st.gradient@, st.p@, n).div_s(A::two_s())
                &&& r.kernel == st.kernel
                &&& (st.kernel.linear_s() ==> (r.linear_decision matches Some(w) && w@ == w_fold(
                    st.targets@,
                    st.alpha@,
                    st.active_set@,
                    st.kernel,
                    st.kernel.nfeatures_s() as int,
                    n,
                )))
                &&& (!st.kernel.linear_s() ==> r.linear_decision is None)
            }),
    {
        let mut this = self;
        let ghost init = this;
        let mut iter: usize = 0;
        let n_t = this.targets.len();
        let max_iter0 = if n_t > usize::MAX / 100 {
            usize::MAX
        } else {
            100 * n_t
        };
        let max_iter = if 10_000_000 >= max_iter0 {
            10_000_000
        } else {
            max_iter0
        };
        let mut counter = (if this.targets.len() < 1000 {
            this.targets.len()
        } else {
            1000
        }) + 1;

        let mut optimal_exit = false;
        while iter < max_iter
            invariant_except_break
                counter >= 1,
                !optimal_exit,
            invariant
                this.wf(),
                this.ntotal_s() == init.ntotal_s(),
                this.nu_constraint == init.nu_constraint,
                this.params == init.params,
                this.orig_p == init.orig_p,
                this.orig_targets == init.orig_targets,
                this.bounds@ == init.bounds@,
                this.kernel.linear_s() == init.kernel.linear_s(),
                n_t == init.ntotal_s(),
                max_iter == max_iter_s(init.ntotal_s() as int),
                iter <= max_iter,
                optimal_exit ==> (this.sws_dispatch_s().2 && this.nactive == this.ntotal_s()
                    && iter < max_iter),
            ensures
                this.wf(),
                this.ntotal_s() == init.ntotal_s(),
                this.nu_constraint == init.nu_constraint,
                this.params == init.params,
                this.orig_p == init.orig_p,
                this.orig_targets == init.orig_targets,
                this.bounds@ == init.bounds@,
                this.kernel.linear_s() == init.kernel.linear_s(),
                iter <= max_iter,
                optimal_exit || iter == max_iter,
                optimal_exit ==> (this.sws_dispatch_s().2 && this.nactive == this.ntotal_s()
                    && iter < max_iter),
            decreases max_iter - iter,
        {
            counter -= 1;
            if counter == 0 {
                counter = if this.ntotal() < 1000 {
                    this.ntotal()
                } else {
                    1000
                };
                if this.params.shrinking {
                    this.do_shrinking();
                }
            }

            let (i0, j0, is_optimal) = this.select_working_set();
            let mut ii = i0;
            let mut jj = j0;
            if is_optimal {
                this.reconstruct_gradient();
                this.nactive = this.ntotal();
                let (i2, j2, is_optimal2) = this.select_working_set();
                if is_optimal2 {
                    optimal_exit = true;
                    break ;
                } else {
                    // do shrinking next iteration
                    counter = 1;
                    ii = i2;
                    jj = j2;
                }
            }

            iter += 1;

            // update alpha[ii] and alpha[jj]
            this.update((ii, jj));
        }

        if iter >= max_iter && this.nactive() < this.ntotal() {
            this.reconstruct_gradient();
            this.nactive = this.ntotal();
        }
        let ghost snap = this;

        let rho = this.calculate_rho();
        let r_residual = if this.nu_constraint {
            Some(this.r)
        } else {
            None
        };

        // calculate the objective function
        let mut v = A::zero();
        let n = this.ntotal();
        let mut i: usize = 0;
        while i < n
            invariant
                n == this.ntotal_s(),
                this.gradient@.len() == n,
                this.p@.len() == n,
                i <= n,
                v == obj_fold(this.alpha@, this.gradient@, this.p@, i as int),
            decreases n - i,
        {
            v = v.add(this.alpha[i].val().mul(this.gradient[i].add(this.p[i])));
            i += 1;
        }
        let obj = v.div(A::two());

        let exit_reason = if max_iter == iter {
            ExitReason::ReachedIterations
        } else {
            ExitReason::ReachedThreshold
        };

        // put the solution back into original index order
        let mut alpha_out: Vec<A> = Vec::new();
        let mut q: usize = 0;
        while q < n
            invariant
                n == this.ntotal_s(),
                q <= n,
                alpha_out@.len() == q,
            decreases n - q,
        {
            alpha_out.push(A::zero());
            q += 1;
        }
        let mut q: usize = 0;
        while q < n
            invariant
                this.wf(),
                n == this.ntotal_s(),
                q <= n,
                alpha_out@.len() == n,
                forall|t: int|
                    0 <= t < q ==> alpha_out@[this.active_set@[t] as int] == this.alpha@[t].value,
            decreases n - q,
        {
            let dst = this.active_set[q];
            alpha_out[dst] = this.alpha[q].val();
            proof {
                assert forall|t: int|
                    0 <= t < q + 1 implies alpha_out@[this.active_set@[t] as int]
                    == this.alpha@[t].value by {
                    if t < q {
                        assert(this.active_set@[t] != this.active_set@[q as int]);
                    }
                }
            }
            q += 1;
        }

        // if the kernel is linear, precompute the primal weights
        let linear_decision = if this.kernel.is_linear() {
            let nfeat = this.kernel.nfeatures();
            let mut w: Vec<A> = Vec::new();
            let mut f: usize = 0;
            while f < nfeat
                invariant
                    f <= nfeat,
                    w@.len() == f,
                    forall|t: int| 0 <= t < f ==> w@[t] == A::zero_s(),
                decreases nfeat - f,
            {
                w.push(A::zero());
                f += 1;
            }
            proof {
                assert(w@ =~= w_fold(
                    this.targets@,
                    this.alpha@,
                    this.active_set@,
                    this.kernel,
                    nfeat as int,
                    0,
                ));
            }
            let mut p: usize = 0;
            while p < n
                invariant
                    this.wf(),
                    this.kernel.linear_s(),
                    n == this.ntotal_s(),
                    nfeat == this.kernel.nfeatures_s(),
                    p <= n,
                    w@.len() == nfeat,
                    w@ == w_fold(
                        this.targets@,
                        this.alpha@,
                        this.active_set@,
                        this.kernel,
                        nfeat as int,
                        p as int,
                    ),
                decreases n - p,
            {
                let coef = this.target(p).mul(this.alpha[p].val());
                let row = this.kernel.sample_row(this.active_set[p]);
                let ghost w_prev = w@;
                let mut f: usize = 0;
                while f < nfeat
                    invariant
                        this.wf(),
                        this.kernel.linear_s(),
                        p < n,
                        n == this.ntotal_s(),
                        nfeat == this.kernel.nfeatures_s(),
                        f <= nfeat,
                        w@.len() == nfeat,
                        w_prev.len() == nfeat,
                        row@ == this.kernel.sample_s(this.active_set@[p as int] as int),
                        row@.len() == nfeat,
                        coef == this.target_s(p as int).mul_s(this.alpha@[p as int].value),
                        forall|t: int|
                            0 <= t < f ==> #[trigger] w@[t] == w_prev[t].add_s(
                                coef.mul_s(
                                    this.kernel.sample_s(this.active_set@[p as int] as int)[t],
                                ),
                            ),
                        forall|t: int| f <= t < nfeat ==> #[trigger] w@[t] == w_prev[t],
                    decreases nfeat - f,
                {
                    w[f] = w[f].add(coef.mul(row[f]));
                    f += 1;
                }
                proof {
                    assert(w@ =~= w_fold(
                        this.targets@,
                        this.alpha@,
                        this.active_set@,
                        this.kernel,
                        nfeat as int,
                        p as int + 1,
                    ));
                }
                p += 1;
            }
            Some(w)
        } else {
            None
        };

        Svm {
            alpha: alpha_out,
            rho,
            r: r_residual,
            exit_reason,
            obj,
            iterations: iter,
            kernel: this.kernel,
            linear_decision,
            state: Ghost(snap),
        }
    }
}

} // verus!
