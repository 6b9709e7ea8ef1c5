//! Gaussian naive Bayes classification with incremental fitting.
//!
//! The likelihood of each feature is assumed Gaussian; means and variances
//! are estimated by maximum likelihood and can be merged across batches with
//! the numerically stable weighted update of counts, means and summed
//! squared deviations. A small ratio of the largest feature variance is
//! added to every variance for calculation stability.

use vstd::prelude::*;
use crate::float::Float;

verus! {

/// Fitting rejects a batch on which the statistics are degenerate.
#[derive(Clone, Copy, Debug, PartialEq, Eq, Structural)]
pub enum NaiveBayesError {
    /// The batch has no rows or no features, so the maximum feature
    /// variance cannot be computed.
    EmptyBatch,
}

/// The number of occurrences of `c` among the first `m` labels.
pub open spec fn occ(ys: Seq<usize>, c: usize, m: int) -> int
    decreases m,
{
    if m <= 0 {
        0
    } else {
        occ(ys, c, m - 1) + if ys[m - 1] == c {
            1int
        } else {
            0int
        }
    }
}

/// The rows whose label is `c`, in ascending row order, among the first `m`.
pub open spec fn filter_rows<A>(xs: Seq<Seq<A>>, ys: Seq<usize>, c: usize, m: int) -> Seq<Seq<A>>
    decreases m,
{
    if m <= 0 {
        Seq::empty()
    } else {
        let prev = filter_rows(xs, ys, c, m - 1);
        if ys[m - 1] == c {
            prev.push(xs[m - 1])
        } else {
            prev
        }
    }
}

/// The sum of column `f` over the first `m` rows.
pub open spec fn col_sum<A: Float>(xs: Seq<Seq<A>>, f: int, m: int) -> A
    decreases m,
{
    if m <= 0 {
        A::zero_s()
    } else {
        col_sum(xs, f, m - 1).add_s(xs[m - 1][f])
    }
}

/// The mean of column `f`.
pub open spec fn col_mean<A: Float>(xs: Seq<Seq<A>>, f: int) -> A {
    col_sum(xs, f, xs.len() as int).div_s(A::from_usize_s(xs.len() as usize))
}

/// The running (mean, summed squared deviation) of column `f` over the
/// first `m` rows, by the one-pass update.
pub open spec fn welford_rec<A: Float>(xs: Seq<Seq<A>>, f: int, m: int) -> (A, A)
    decreases m,
{
    if m <= 0 {
        (A::zero_s(), A::zero_s())
    } else {
        let acc = welford_rec(xs, f, m - 1);
        let v = xs[m - 1][f];
        let delta = v.sub_s(acc.0);
        let mean1 = acc.0.add_s(delta.div_s(A::from_usize_s(m as usize)));
        (mean1, v.sub_s(mean1).mul_s(delta).add_s(acc.1))
    }
}

/// The population variance of column `f`.
pub open spec fn col_var<A: Float>(xs: Seq<Seq<A>>, f: int) -> A {
    welford_rec(xs, f, xs.len() as int).1.div_s(A::from_usize_s(xs.len() as usize))
}

/// The largest entry of the first `m`, scanned left to right with strict
/// improvement.
pub open spec fn seq_max_rec<A: Float>(vs: Seq<A>, m: int) -> A
    decreases m,
{
    if m <= 1 {
        vs[0]
    } else {
        let acc = seq_max_rec(vs, m - 1);
        if vs[m - 1].gt_s(acc) {
            vs[m - 1]
        } else {
            acc
        }
    }
}

/// Mirror of the batch merge of counts, means and variances: an empty batch
/// keeps the old statistics, a fresh class takes the batch statistics, and
/// otherwise the weighted update combines both.
pub open spec fn merge_s<A: Float>(
    cnt0: int,
    mu0: Seq<A>,
    var0: Seq<A>,
    rows: Seq<Seq<A>>,
    d: int,
) -> (Seq<A>, Seq<A>) {
    let nn = rows.len() as int;
    if nn == 0 {
        (mu0, var0)
    } else if cnt0 == 0 {
        (Seq::new(d as nat, |f: int| col_mean(rows, f)), Seq::new(d as nat, |f: int| col_var(rows, f)))
    } else {
        let total = A::from_usize_s((cnt0 + nn) as usize);
        (
            Seq::new(
                d as nat,
                |f: int|
                    col_mean(rows, f).mul_s(A::from_usize_s(nn as usize)).add_s(
                        mu0[f].mul_s(A::from_usize_s(cnt0 as usize)),
                    ).div_s(total),
            ),
            Seq::new(
                d as nat,
                |f: int|
                    {
                        let ssd_old = var0[f].mul_s(A::from_usize_s(cnt0 as usize));
                        let ssd_new = col_var(rows, f).mul_s(A::from_usize_s(nn as usize));
                        let weight = A::from_usize_s((nn * cnt0) as usize).div_s(total);
                        let dm = mu0[f].sub_s(col_mean(rows, f));
                        ssd_old.add_s(ssd_new).add_s(weight.mul_s(dm.mul_s(dm))).div_s(total)
                    },
            ),
        )
    }
}

/// Per-class statistics of the fitted model.
#[derive(Debug, Clone)]
pub struct ClassInfo<A> {
    /// The class label.
    pub label: usize,
    /// Number of training rows seen for the class.
    pub class_count: usize,
    /// The class prior.
    pub prior: A,
    /// Per-feature mean.
    pub theta: Vec<A>,
    /// Per-feature smoothed variance.
    pub sigma: Vec<A>,
}

/// A fitted Gaussian naive Bayes model: per-class statistics, kept in
/// strictly ascending label order so every scan is deterministic.
#[derive(Debug, Clone)]
pub struct GaussianNb<A> {
    /// The classes seen so far.
    pub class_info: Vec<ClassInfo<A>>,
}

impl<A: Float> GaussianNb<A> {
    /// Labels strictly ascending, all statistics of width `d`.
    pub open spec fn wf(&self, d: int) -> bool {
        &&& forall|i: int, j: int|
            0 <= i < j < self.class_info@.len() ==> self.class_info@[i].label
                < self.class_info@[j].label
        &&& forall|i: int|
            0 <= i < self.class_info@.len() ==> (#[trigger] self.class_info@[i]).theta@.len() == d
                && self.class_info@[i].sigma@.len() == d
    }

    /// Whether some class carries the label `c`.
    pub open spec fn has_class(&self, c: usize) -> bool {
        exists|i: int| 0 <= i < self.class_info@.len() && (#[trigger] self.class_info@[i]).label == c
    }

    /// The position of the class labeled `c`.
    pub open spec fn find_class(&self, c: usize) -> int {
        choose|i: int| 0 <= i < self.class_info@.len() && (#[trigger] self.class_info@[i]).label == c
    }

    /// The sum of the class counts over the first `m` classes.
    pub open spec fn total_rec(&self, m: int) -> int
        decreases m,
    {
        if m <= 0 {
            0
        } else {
            self.total_rec(m - 1) + self.class_info@[m - 1].class_count
        }
    }

    /// The sum of all class counts.
    pub open spec fn total_count(&self) -> int {
        self.total_rec(self.class_info@.len() as int)
    }
}

/// The rows of a matrix, as a sequence of sequences.
pub open spec fn rows_of<A>(x: Seq<Vec<A>>) -> Seq<Seq<A>> {
    x.map(|i: int, v: Vec<A>| v@)
}

/// Strictly ascending labels.
pub open spec fn sorted_unique(s: Seq<usize>) -> bool {
    forall|i: int, j: int| 0 <= i < j < s.len() ==> s[i] < s[j]
}

/// Whether the label occurs in the list.
pub open spec fn mem(s: Seq<usize>, t: usize) -> bool {
    exists|i: int| 0 <= i < s.len() && s[i] == t
}

/// The smoothing summand: the given ratio of the largest feature variance
/// of the batch.
pub open spec fn eps_of<A: Float>(smoothing: A, xs: Seq<Seq<A>>, d: int) -> A {
    smoothing.mul_s(seq_max_rec(Seq::new(d as nat, |f: int| col_var(xs, f)), d))
}

/// There are no more occurrences among a prefix than labels in it.
pub proof fn lemma_occ_le_len(ys: Seq<usize>, c: usize, m: int)
    requires
        0 <= m,
    ensures
        0 <= occ(ys, c, m) <= m,
    decreases m,
{
    if m > 0 {
        lemma_occ_le_len(ys, c, m - 1);
    }
}

/// Occurrence counts add over a concatenation of label lists.
pub proof fn lemma_occ_concat(ys1: Seq<usize>, ys2: Seq<usize>, c: usize, m: int)
    requires
        0 <= m <= ys2.len(),
    ensures
        occ(ys1 + ys2, c, ys1.len() as int + m) == occ(ys1, c, ys1.len() as int) + occ(ys2, c, m),
    decreases m,
{
    if m == 0 {
        lemma_occ_prefix(ys1 + ys2, ys1, c, ys1.len() as int);
    } else {
        lemma_occ_concat(ys1, ys2, c, m - 1);
        assert((ys1 + ys2)[ys1.len() as int + m - 1] == ys2[m - 1]);
    }
}

/// Occurrence counts over a prefix agree between a list and its extension.
pub proof fn lemma_occ_prefix(a: Seq<usize>, b: Seq<usize>, c: usize, m: int)
    requires
        0 <= m <= a.len(),
        m <= b.len(),
        forall|i: int| 0 <= i < m ==> a[i] == b[i],
    ensures
        occ(a, c, m) == occ(b, c, m),
    decreases m,
{
    if m > 0 {
        lemma_occ_prefix(a, b, c, m - 1);
    }
}

/// The filtered rows are as many as the occurrences.
pub proof fn lemma_filter_len<A>(xs: Seq<Seq<A>>, ys: Seq<usize>, c: usize, m: int)
    requires
        0 <= m,
    ensures
        filter_rows(xs, ys, c, m).len() == occ(ys, c, m),
    decreases m,
{
    if m > 0 {
        lemma_filter_len(xs, ys, c, m - 1);
    }
}

/// Filtered rows keep the width of the matrix.
pub proof fn lemma_filter_rect<A>(xs: Seq<Seq<A>>, ys: Seq<usize>, c: usize, m: int, d: int)
    requires
        0 <= m <= xs.len(),
        forall|i: int| 0 <= i < xs.len() ==> (#[trigger] xs[i]).len() == d,
    ensures
        forall|i: int|
            0 <= i < filter_rows(xs, ys, c, m).len() ==> (#[trigger] filter_rows(
                xs,
                ys,
                c,
                m,
            )[i]).len() == d,
    decreases m,
{
    if m > 0 {
        lemma_filter_rect(xs, ys, c, m - 1, d);
        let prev = filter_rows(xs, ys, c, m - 1);
        let cur = filter_rows(xs, ys, c, m);
        assert forall|i: int| 0 <= i < cur.len() implies (#[trigger] cur[i]).len() == d by {
            if ys[m - 1] == c {
                if i < prev.len() {
                    assert(cur[i] == prev[i]);
                } else {
                    assert(cur[i] == xs[m - 1]);
                }
            } else {
                assert(cur[i] == prev[i]);
            }
        }
    }
}

/// Partial count sums are monotone and bound each class count.
pub proof fn lemma_total_mono<A: Float>(m: &GaussianNb<A>, a: int, b: int)
    requires
        0 <= a <= b <= m.class_info@.len(),
    ensures
        0 <= m.total_rec(a) <= m.total_rec(b),
    decreases b,
{
    if b > 0 {
        if a == b {
            lemma_total_mono(m, 0, b - 1);
        } else {
            lemma_total_mono(m, a, b - 1);
        }
    }
}

/// Every class count is bounded by the total.
pub proof fn lemma_count_le_total<A: Float>(m: &GaussianNb<A>, i: int)
    requires
        0 <= i < m.class_info@.len(),
    ensures
        m.class_info@[i].class_count <= m.total_count(),
    decreases m.class_info@.len(),
{
    lemma_total_mono(m, 0, i);
    lemma_total_mono(m, i + 1, m.class_info@.len() as int);
}

impl<A: Float> GaussianNb<A> {
    /// What one fitted class promises, short of the prior: its count is the
    /// previous count plus the batch occurrences, its statistics are the
    /// batch merge of the de-smoothed previous statistics with the filtered
    /// batch rows, and the smoothing is added back.
    pub open spec fn class_mid(
        prev: Option<GaussianNb<A>>,
        xs: Seq<Seq<A>>,
        ys: Seq<usize>,
        eps: A,
        d: int,
        info: ClassInfo<A>,
    ) -> bool {
        let c = info.label;
        let occn = occ(ys, c, ys.len() as int);
        let present = prev is Some && prev->0.has_class(c);
        let pc = prev->0.class_info@[prev->0.find_class(c)];
        let cnt0: int = if present {
            pc.class_count as int
        } else {
            0
        };
        let mu0 = if present {
            pc.theta@
        } else {
            Seq::<A>::empty()
        };
        let var0 = if present {
            Seq::new(d as nat, |f: int| pc.sigma@[f].sub_s(eps))
        } else {
            Seq::<A>::empty()
        };
        let merged = merge_s(cnt0, mu0, var0, filter_rows(xs, ys, c, ys.len() as int), d);
        &&& info.class_count == cnt0 + occn
        &&& info.theta@ == merged.0
        &&& info.sigma@.len() == merged.1.len()
        &&& (forall|f: int| 0 <= f < merged.1.len() ==> info.sigma@[f] == merged.1[f].add_s(eps))
    }

    /// `class_mid` together with the prior: the class share of the total.
    pub open spec fn class_post(
        prev: Option<GaussianNb<A>>,
        xs: Seq<Seq<A>>,
        ys: Seq<usize>,
        eps: A,
        total: int,
        d: int,
        info: ClassInfo<A>,
    ) -> bool {
        &&& Self::class_mid(prev, xs, ys, eps, d, info)
        &&& info.prior == A::from_usize_s(info.class_count).div_s(
            A::from_usize_s((total as int) as usize),
        )
    }

    /// What a successful fit promises: well-formed statistics for exactly
    /// the union of the previous classes and the batch classes, each
    /// satisfying `class_post` against the batch smoothing summand.
    pub open spec fn fit_ok(
        prev: Option<GaussianNb<A>>,
        xs: Seq<Seq<A>>,
        ys: Seq<usize>,
        smoothing: A,
        d: int,
        m: GaussianNb<A>,
    ) -> bool {
        let eps = eps_of(smoothing, xs, d);
        &&& m.wf(d)
        &&& (forall|c: usize|
            #[trigger] m.has_class(c) <==> ((prev is Some && prev->0.has_class(c)) || occ(
                ys,
                c,
                ys.len() as int,
            ) > 0))
        &&& (forall|i: int|
            0 <= i < m.class_info@.len() ==> Self::class_post(
                prev,
                xs,
                ys,
                eps,
                m.total_count(),
                d,
                #[trigger] m.class_info@[i],
            ))
        &&& (forall|i: int|
            0 <= i < m.class_info@.len() ==> (#[trigger] m.class_info@[i]).class_count >= 1)
    }
}

/// The model to fold on, once an error has been ruled out.
pub open spec fn prev_of<A>(
    model_in: Option<Result<GaussianNb<A>, NaiveBayesError>>,
) -> Option<GaussianNb<A>> {
    match model_in {
        Some(Ok(p)) => Some(p),
        _ => None,
    }
}

/// Insert a label into a strictly ascending list, keeping it ascending; a
/// label already present is left alone.
fn insert_sorted(v: &mut Vec<usize>, c: usize)
    requires
        sorted_unique(old(v)@),
    ensures
        sorted_unique(final(v)@),
        forall|t: usize| #[trigger] mem(final(v)@, t) <==> (mem(old(v)@, t) || t == c),
{
    let n = v.len();
    let mut j: usize = 0;
    while j < n && v[j] < c
        invariant
            n == v@.len(),
            *v == *old(v),
            j <= n,
            forall|t: int| 0 <= t < j ==> (#[trigger] v@[t]) < c,
        decreases n - j,
    {
        j += 1;
    }
    if j < n && v[j] == c {
        proof {
            assert(mem(v@, c));
            assert forall|t: usize| #[trigger] mem(v@, t) <==> (mem(old(v)@, t) || t == c) by {}
        }
        return ;
    }
    v.insert(j, c);
    proof {
        assert forall|a: int, b: int| 0 <= a < b < v@.len() implies v@[a] < v@[b] by {
            if b <= j {
            } else if a >= j + 1 {
                assert(v@[a] == old(v)@[a - 1] && v@[b] == old(v)@[b - 1]);
            } else if b == j {
            } else if a == j {
                assert(v@[b] == old(v)@[b - 1]);
                assert(old(v)@[b - 1] >= c);
                assert(old(v)@[b - 1] != c);
            } else {
                assert(v@[a] == old(v)@[a] && v@[b] == old(v)@[b - 1]);
                assert(old(v)@[b - 1] >= c);
            }
        }
        assert forall|t: usize| #[trigger] mem(v@, t) implies (mem(old(v)@, t) || t == c) by {
            let i = choose|i: int| 0 <= i < v@.len() && v@[i] == t;
            if i < j {
                assert(old(v)@[i] == t);
            } else if i > j {
                assert(old(v)@[i - 1] == t);
            }
        }
        assert forall|t: usize| (mem(old(v)@, t) || t == c) implies #[trigger] mem(v@, t) by {
            if t == c {
                assert(v@[j as int] == c);
            } else {
                let i = choose|i: int| 0 <= i < old(v)@.len() && old(v)@[i] == t;
                if i < j {
                    assert(v@[i] == t);
                } else {
                    assert(v@[i + 1] == t);
                }
            }
        }
    }
}

/// Hyperparameters of the Gaussian naive Bayes fit.
pub struct GaussianNbParams<A> {
    /// Ratio of the largest feature variance added to every variance for
    /// calculation stability.
    pub var_smoothing: A,
}

impl<A: Float> Default for GaussianNbParams<A> {
    /// The default parameters.
    fn default() -> (r: Self)
        ensures
            r.var_smoothing == A::smoothing_default_s(),
    {
        Self::params()
    }
}

impl<A: Float> GaussianNbParams<A> {
    /// Create a parameter set with the default smoothing ratio.
    pub fn params() -> (r: Self)
        ensures
            r.var_smoothing == A::smoothing_default_s(),
    {
        GaussianNbParams { var_smoothing: A::smoothing_default() }
    }

    /// Replace the smoothing ratio.
    pub fn var_smoothing(self, var_smoothing: A) -> (r: Self)
        ensures
            r.var_smoothing == var_smoothing,
    {
        GaussianNbParams { var_smoothing }
    }

    /// Returns the subset of `x` whose label equals `ycondition`, in
    /// ascending row order.
    fn filter(x: &Vec<Vec<A>>, y: &Vec<usize>, ycondition: usize) -> (r: Vec<Vec<A>>)
        requires
            y@.len() == x@.len(),
        ensures
            rows_of(r@) == filter_rows(rows_of(x@), y@, ycondition, x@.len() as int),
    {
        let mut r: Vec<Vec<A>> = Vec::new();
        let n = x.len();
        let mut i: usize = 0;
        while i < n
            invariant
                n == x@.len(),
                y@.len() == n,
                i <= n,
                rows_of(r@) == filter_rows(rows_of(x@), y@, ycondition, i as int),
            decreases n - i,
        {
            if y[i] == ycondition {
                let mut row: Vec<A> = Vec::new();
                let width = x[i].len();
                let mut f: usize = 0;
                while f < width
                    invariant
                        i < n,
                        n == x@.len(),
                        width == x@[i as int]@.len(),
                        f <= width,
                        row@.len() == f,
                        forall|t: int| 0 <= t < f ==> row@[t] == x@[i as int]@[t],
                    decreases width - f,
                {
                    row.push(x[i][f]);
                    f += 1;
                }
                proof {
                    assert(row@ =~= x@[i as int]@);
                }
                r.push(row);
                proof {
                    assert(rows_of(r@) =~= filter_rows(rows_of(x@), y@, ycondition, i + 1));
                }
            } else {
                proof {
                    assert(rows_of(r@) =~= filter_rows(rows_of(x@), y@, ycondition, i + 1));
                }
            }
            i += 1;
        }
        r
    }

    /// Compute the online update of the Gaussian mean and variance: batch
    /// statistics by the one-pass method, then the weighted merge with the
    /// previous statistics.
    fn update_mean_variance(
        count_old: usize,
        mu_old: &Vec<A>,
        var_old: &Vec<A>,
        x_new: &Vec<Vec<A>>,
        d: usize,
    ) -> (r: (Vec<A>, Vec<A>))
        requires
            forall|i: int| 0 <= i < x_new@.len() ==> (#[trigger] x_new@[i]@).len() == d,
            x_new@.len() > 0 ==> count_old + x_new@.len() <= 0xFFFF_FFFFusize,
            count_old > 0 ==> mu_old@.len() == d && var_old@.len() == d,
        ensures
            (r.0@, r.1@) == merge_s(
                count_old as int,
                mu_old@,
                var_old@,
                rows_of(x_new@),
                d as int,
            ),
            x_new@.len() == 0 ==> r.0@ == mu_old@ && r.1@ == var_old@,
            x_new@.len() > 0 ==> r.0@.len() == d && r.1@.len() == d,
    {
        let nn = x_new.len();

        // if the incoming batch is empty no update is required
        if nn == 0 {
            let mut mu: Vec<A> = Vec::new();
            let mut var: Vec<A> = Vec::new();
            let mut f: usize = 0;
            let width = mu_old.len();
            while f < width
                invariant
                    width == mu_old@.len(),
                    f <= width,
                    mu@.len() == f,
                    forall|t: int| 0 <= t < f ==> mu@[t] == mu_old@[t],
                decreases width - f,
            {
                mu.push(mu_old[f]);
                f += 1;
            }
            let mut f: usize = 0;
            let width = var_old.len();
            while f < width
                invariant
                    width == var_old@.len(),
                    f <= width,
                    var@.len() == f,
                    forall|t: int| 0 <= t < f ==> var@[t] == var_old@[t],
                decreases width - f,
            {
                var.push(var_old[f]);
                f += 1;
            }
            proof {
                assert(mu@ =~= mu_old@);
                assert(var@ =~= var_old@);
            }
            return (mu, var);
        }

        // batch mean and variance per feature
        let mut mu_new: Vec<A> = Vec::new();
        let mut var_new: Vec<A> = Vec::new();
        let ghost xs = rows_of(x_new@);
        let mut f: usize = 0;
        while f < d
            invariant
                nn == x_new@.len(),
                nn > 0,
                xs == rows_of(x_new@),
                forall|i: int| 0 <= i < nn ==> (#[trigger] x_new@[i]@).len() == d,
                f <= d,
                mu_new@.len() == f,
                var_new@.len() == f,
                forall|t: int| 0 <= t < f ==> #[trigger] mu_new@[t] == col_mean(xs, t),
                forall|t: int| 0 <= t < f ==> #[trigger] var_new@[t] == col_var(xs, t),
            decreases d - f,
        {
            let mut acc = A::zero();
            let mut i: usize = 0;
            while i < nn
                invariant
                    nn == x_new@.len(),
                    f < d,
                    xs == rows_of(x_new@),
                    forall|t: int| 0 <= t < nn ==> (#[trigger] x_new@[t]@).len() == d,
                    i <= nn,
                    acc == col_sum(xs, f as int, i as int),
                decreases nn - i,
            {
                acc = acc.add(x_new[i][f]);
                i += 1;
            }
            mu_new.push(acc.div(A::from_usize(nn)));

            let mut mean = A::zero();
            let mut ssd = A::zero();
            let mut i: usize = 0;
            while i < nn
                invariant
                    nn == x_new@.len(),
                    f < d,
                    xs == rows_of(x_new@),
                    forall|t: int| 0 <= t < nn ==> (#[trigger] x_new@[t]@).len() == d,
                    i <= nn,
                    (mean, ssd) == welford_rec(xs, f as int, i as int),
                decreases nn - i,
            {
                let v = x_new[i][f];
                let delta = v.sub(mean);
                mean = mean.add(delta.div(A::from_usize(i + 1)));
                ssd = v.sub(mean).mul(delta).add(ssd);
                i += 1;
            }
            var_new.push(ssd.div(A::from_usize(nn)));
            f += 1;
        }

        // a fresh class takes the batch statistics directly
        if count_old == 0 {
            proof {
                assert(mu_new@ =~= merge_s(
                    count_old as int,
                    mu_old@,
                    var_old@,
                    rows_of(x_new@),
                    d as int,
                ).0);
                assert(var_new@ =~= merge_s(
                    count_old as int,
                    mu_old@,
                    var_old@,
                    rows_of(x_new@),
                    d as int,
                ).1);
            }
            return (mu_new, var_new);
        }

        let count_total = count_old + nn;

        // combine the old and new statistics, weighted by observations
        let mut mu_w: Vec<A> = Vec::new();
        let mut var_w: Vec<A> = Vec::new();
        let total = A::from_usize(count_total);
        proof {
            assert((nn as int) * (count_old as int) < 0x1_0000_0000_0000_0000) by (nonlinear_arith)
                requires
                    0 <= nn as int,
                    0 <= count_old as int,
                    nn as int + count_old as int <= 0xFFFF_FFFF,
            ;
        }
        let prod64: u64 = (nn as u64) * (count_old as u64);
        let prod: usize = #[verifier::truncate] (prod64 as usize);
        proof {
            assert(prod == ((nn as int * count_old as int) as usize));
        }
        let weight = A::from_usize(prod).div(total);
        let mut f: usize = 0;
        while f < d
            invariant
                nn == x_new@.len(),
                nn > 0,
                count_old > 0,
                count_total == count_old + nn,
                xs == rows_of(x_new@),
                mu_old@.len() == d,
                var_old@.len() == d,
                mu_new@.len() == d,
                var_new@.len() == d,
                forall|t: int| 0 <= t < d ==> #[trigger] mu_new@[t] == col_mean(xs, t),
                forall|t: int| 0 <= t < d ==> #[trigger] var_new@[t] == col_var(xs, t),
                total == A::from_usize_s(count_total),
                weight == A::from_usize_s((nn * count_old) as usize).div_s(total),
                f <= d,
                mu_w@.len() == f,
                var_w@.len() == f,
                forall|t: int|
                    0 <= t < f ==> #[trigger] mu_w@[t] == merge_s(
                        count_old as int,
                        mu_old@,
                        var_old@,
                        xs,
                        d as int,
                    ).0[t],
                forall|t: int|
                    0 <= t < f ==> #[trigger] var_w@[t] == merge_s(
                        count_old as int,
                        mu_old@,
                        var_old@,
                        xs,
                        d as int,
                    ).1[t],
            decreases d - f,
        {
            let mu_new_weighted = mu_new[f].mul(A::from_usize(nn));
            let mu_old_weighted = mu_old[f].mul(A::from_usize(count_old));
            mu_w.push(mu_new_weighted.add(mu_old_weighted).div(total));

            let ssd_old = var_old[f].mul(A::from_usize(count_old));
            let ssd_new = var_new[f].mul(A::from_usize(nn));
            let dm = mu_old[f].sub(mu_new[f]);
            var_w.push(ssd_old.add(ssd_new).add(weight.mul(dm.mul(dm))).div(total));
            f += 1;
        }
        proof {
            assert(mu_w@ =~= merge_s(
                count_old as int,
                mu_old@,
                var_old@,
                rows_of(x_new@),
                d as int,
            ).0);
            assert(var_w@ =~= merge_s(
                count_old as int,
                mu_old@,
                var_old@,
                rows_of(x_new@),
                d as int,
            ).1);
        }
        (mu_w, var_w)
    }

    /// Fit the model on one batch, folding it into a previous model: the
    /// previous variances are de-smoothed, each batch class is merged, the
    /// smoothing summand of this batch is added back to every class, and
    /// the priors are recomputed as each class's share of the total count.
    /// A previous error is propagated unchanged, and a batch without rows
    /// or without features is rejected.
    pub fn fit_with(
        &self,
        model_in: Option<Result<GaussianNb<A>, NaiveBayesError>>,
        x: &Vec<Vec<A>>,
        y: &Vec<usize>,
    ) -> (r: Result<GaussianNb<A>, NaiveBayesError>)
        requires
            y@.len() == x@.len(),
            forall|i: int| 0 <= i < x@.len() ==> (#[trigger] x@[i]@).len() == x@[0]@.len(),
            prev_of(model_in) matches Some(p) ==> (x@.len() > 0 ==> p.wf(x@[0]@.len() as int)),
            prev_of(model_in) matches Some(p) ==> p.total_count() + x@.len() <= 0xFFFF_FFFF && (
            forall|i: int|
                0 <= i < p.class_info@.len() ==> (#[trigger] p.class_info@[i]).class_count >= 1),
            prev_of(model_in) is None ==> x@.len() <= 0xFFFF_FFFF,
        ensures
            model_in matches Some(Err(e)) ==> r == Err::<GaussianNb<A>, NaiveBayesError>(e),
            (!(model_in matches Some(Err(_))) && (x@.len() == 0 || x@[0]@.len() == 0)) ==> r
                == Err::<GaussianNb<A>, NaiveBayesError>(NaiveBayesError::EmptyBatch),
            (!(model_in matches Some(Err(_))) && x@.len() > 0 && x@[0]@.len() > 0) ==> (
            r matches Ok(m) && GaussianNb::fit_ok(
                prev_of(model_in),
                rows_of(x@),
                y@,
                self.var_smoothing,
                x@[0]@.len() as int,
                m,
            )),
    {
        let x_len = x.len();

        // propagate errors
        let model0: Option<GaussianNb<A>> = match model_in {
            Some(Err(err)) => {
                return Err(err);
            },
            Some(Ok(m)) => Some(m),
            None => None,
        };

        if x_len == 0 {
            return Err(NaiveBayesError::EmptyBatch);
        }
        let d = x[0].len();
        if d == 0 {
            return Err(NaiveBayesError::EmptyBatch);
        }
        let ghost xs = rows_of(x@);
        let ghost prev = model0;

        // the smoothing summand: a ratio of the largest batch feature variance
        let mut vars: Vec<A> = Vec::new();
        let mut f: usize = 0;
        while f < d
            invariant
                x_len == x@.len(),
                x_len > 0,
                xs == rows_of(x@),
                forall|i: int| 0 <= i < x_len ==> (#[trigger] x@[i]@).len() == d,
                f <= d,
                vars@.len() == f,
                forall|t: int| 0 <= t < f ==> #[trigger] vars@[t] == col_var(xs, t),
            decreases d - f,
        {
            let mut mean = A::zero();
            let mut ssd = A::zero();
            let mut i: usize = 0;
            while i < x_len
                invariant
                    x_len == x@.len(),
                    f < d,
                    xs == rows_of(x@),
                    forall|t: int| 0 <= t < x_len ==> (#[trigger] x@[t]@).len() == d,
                    i <= x_len,
                    (mean, ssd) == welford_rec(xs, f as int, i as int),
                decreases x_len - i,
            {
                let v = x[i][f];
                let delta = v.sub(mean);
                mean = mean.add(delta.div(A::from_usize(i + 1)));
                ssd = v.sub(mean).mul(delta).add(ssd);
                i += 1;
            }
            vars.push(ssd.div(A::from_usize(x_len)));
            f += 1;
        }
        let ghost cols = Seq::new(d as nat, |t: int| col_var(xs, t));
        proof {
            assert(vars@ =~= cols);
        }
        let mut vmax = vars[0];
        let mut f: usize = 1;
        while f < d
            invariant
                1 <= f <= d,
                vars@ == cols,
                vars@.len() == d,
                vmax == seq_max_rec(cols, f as int),
            decreases d - f,
        {
            if vars[f].gt(vmax) {
                vmax = vars[f];
            }
            f += 1;
        }
        let epsilon = self.var_smoothing.mul(vmax);
        proof {
            assert(epsilon == eps_of(self.var_smoothing, xs, d as int));
        }

        // the sorted union of the batch classes and the previous classes
        let mut classes: Vec<usize> = Vec::new();
        let mut i: usize = 0;
        while i < x_len
            invariant
                x_len == y@.len(),
                i <= x_len,
                sorted_unique(classes@),
                forall|t: usize| #[trigger] mem(classes@, t) <==> occ(y@, t, i as int) > 0,
            decreases x_len - i,
        {
            proof {
                lemma_occ_le_len(y@, y@[i as int], i as int);
            }
            insert_sorted(&mut classes, y[i]);
            i += 1;
        }
        let prev_classes: Vec<ClassInfo<A>> = match model0 {
            Some(p) => p.class_info,
            None => Vec::new(),
        };
        proof {
            if prev is Some {
                assert(prev_classes@ == prev->0.class_info@);
            } else {
                assert(prev_classes@.len() == 0);
            }
        }
        let plen = prev_classes.len();
        let mut k: usize = 0;
        while k < plen
            invariant
                plen == prev_classes@.len(),
                k <= plen,
                prev is Some ==> prev_classes@ == prev->0.class_info@,
                prev is None ==> plen == 0,
                sorted_unique(classes@),
                forall|t: usize|
                    #[trigger] mem(classes@, t) <==> (occ(y@, t, y@.len() as int) > 0 || exists|u: int|
                        0 <= u < k && (#[trigger] prev_classes@[u]).label == t),
            decreases plen - k,
        {
            insert_sorted(&mut classes, prev_classes[k].label);
            proof {
                assert forall|t: usize| #[trigger] mem(classes@, t) implies (occ(
                    y@,
                    t,
                    y@.len() as int,
                ) > 0 || exists|u: int| 0 <= u < k + 1 && (#[trigger] prev_classes@[u]).label == t) by {
                    if !(occ(y@, t, y@.len() as int) > 0) && t != prev_classes@[k as int].label {
                        let u = choose|u: int|
                            0 <= u < k && (#[trigger] prev_classes@[u]).label == t;
                        assert(0 <= u < k + 1 && prev_classes@[u].label == t);
                    } else if t == prev_classes@[k as int].label {
                        assert(0 <= k < k + 1 && prev_classes@[k as int].label == t);
                    }
                }
            }
            k += 1;
        }
        proof {
            assert forall|t: usize|
                #[trigger] mem(classes@, t) <==> ((prev is Some && prev->0.has_class(t)) || occ(
                y@,
                t,
                y@.len() as int,
            ) > 0) by {}
        }

        // build each class of the union, in ascending label order
        let mut built: Vec<ClassInfo<A>> = Vec::new();
        let nclasses = classes.len();
        let ghost prev_total: int = if prev is Some {
            prev->0.total_count()
        } else {
            0
        };
        let mut k: usize = 0;
        while k < nclasses
            invariant
                x_len == x@.len(),
                x_len == y@.len(),
                x_len > 0,
                d == x@[0]@.len(),
                d > 0,
                xs == rows_of(x@),
                forall|i: int| 0 <= i < x_len ==> (#[trigger] x@[i]@).len() == d,
                nclasses == classes@.len(),
                sorted_unique(classes@),
                forall|t: usize|
                    #[trigger] mem(classes@, t) <==> ((prev is Some && prev->0.has_class(t)) || occ(
                        y@,
                        t,
                        y@.len() as int,
                    ) > 0),
                prev is Some ==> prev_classes@ == prev->0.class_info@ && prev->0.wf(d as int)
                    && prev_total + x_len <= 0xFFFF_FFFF && (forall|i: int|
                    0 <= i < prev_classes@.len() ==> (#[trigger] prev_classes@[i]).class_count
                        >= 1),
                prev is None ==> prev_classes@.len() == 0 && x_len <= 0xFFFF_FFFF,
                plen == prev_classes@.len(),
                prev_total == if prev is Some {
                    prev->0.total_count()
                } else {
                    0int
                },
                epsilon == eps_of(self.var_smoothing, xs, d as int),
                k <= nclasses,
                built@.len() == k,
                forall|i: int| 0 <= i < k ==> (#[trigger] built@[i]).label == classes@[i],
                forall|i: int|
                    0 <= i < k ==> GaussianNb::class_mid(
                        prev,
                        xs,
                        y@,
                        epsilon,
                        d as int,
                        #[trigger] built@[i],
                    ),
                forall|i: int|
                    0 <= i < k ==> 1 <= (#[trigger] built@[i]).class_count <= 0xFFFF_FFFF,
                forall|i: int| 0 <= i < k ==> (#[trigger] built@[i]).prior == A::zero_s(),
                forall|i: int|
                    0 <= i < k ==> (#[trigger] built@[i]).theta@.len() == d
                        && built@[i].sigma@.len() == d,
            decreases nclasses - k,
        {
            let c = classes[k];

            // previous statistics of the class, de-smoothed
            let mut cnt0: usize = 0;
            let mut mu0: Vec<A> = Vec::new();
            let mut var0: Vec<A> = Vec::new();
            let mut t: usize = 0;
            while t < plen && prev_classes[t].label != c
                invariant
                    plen == prev_classes@.len(),
                    t <= plen,
                    forall|u: int| 0 <= u < t ==> (#[trigger] prev_classes@[u]).label != c,
                decreases plen - t,
            {
                t += 1;
            }
            let ghost present = prev is Some && prev->0.has_class(c);
            if t < plen {
                proof {
                    assert(prev is Some);
                    assert(prev->0.class_info@[t as int].label == c);
                    assert(present);
                    assert(prev->0.find_class(c) == t as int) by {
                        let u = prev->0.find_class(c);
                        assert(0 <= u < prev->0.class_info@.len() && prev->0.class_info@[u].label
                            == c);
                        if u != t as int {
                            assert(prev->0.wf(d as int));
                        }
                    }
                    lemma_count_le_total(&prev->0, t as int);
                }
                cnt0 = prev_classes[t].class_count;
                let width = prev_classes[t].theta.len();
                let mut f: usize = 0;
                while f < width
                    invariant
                        t < prev_classes@.len(),
                        width == prev_classes@[t as int].theta@.len(),
                        f <= width,
                        mu0@.len() == f,
                        forall|u: int|
                            0 <= u < f ==> mu0@[u] == prev_classes@[t as int].theta@[u],
                    decreases width - f,
                {
                    mu0.push(prev_classes[t].theta[f]);
                    f += 1;
                }
                let widths = prev_classes[t].sigma.len();
                let mut f: usize = 0;
                while f < widths
                    invariant
                        t < prev_classes@.len(),
                        widths == prev_classes@[t as int].sigma@.len(),
                        f <= widths,
                        var0@.len() == f,
                        forall|u: int|
                            0 <= u < f ==> var0@[u] == prev_classes@[t as int].sigma@[u].sub_s(
                                epsilon,
                            ),
                    decreases widths - f,
                {
                    var0.push(prev_classes[t].sigma[f].sub(epsilon));
                    f += 1;
                }
            } else {
                proof {
                    if prev is Some {
                        assert(!prev->0.has_class(c)) by {
                            if prev->0.has_class(c) {
                                let u = choose|u: int|
                                    0 <= u < prev->0.class_info@.len() && (
                                    #[trigger] prev->0.class_info@[u]).label == c;
                                assert(prev_classes@[u].label == c);
                            }
                        }
                    }
                    assert(!present);
                }
            }

            proof {
                if prev is Some {
                    lemma_total_mono(&prev->0, 0, prev->0.class_info@.len() as int);
                }
                let pc = prev->0.class_info@[prev->0.find_class(c)];
                if present {
                    assert(t < plen);
                    assert(cnt0 == pc.class_count);
                    assert(cnt0 <= prev_total);
                    assert(mu0@ =~= pc.theta@);
                    assert(var0@ =~= Seq::new(d as nat, |f: int| pc.sigma@[f].sub_s(epsilon)));
                } else {
                    assert(cnt0 == 0);
                    assert(mu0@ =~= Seq::<A>::empty());
                    assert(var0@ =~= Seq::<A>::empty());
                }
            }

            // the batch rows of the class
            let xclass = Self::filter(x, y, c);
            let nclass = xclass.len();
            proof {
                lemma_filter_len(xs, y@, c, x_len as int);
                lemma_occ_le_len(y@, c, x_len as int);
                lemma_filter_rect(xs, y@, c, x_len as int, d as int);
                assert(rows_of(xclass@).len() == xclass@.len());
                assert forall|i: int| 0 <= i < xclass@.len() implies (#[trigger] xclass@[i]@).len()
                    == d by {
                    assert(rows_of(xclass@)[i] == xclass@[i]@);
                    assert(filter_rows(xs, y@, c, x_len as int)[i].len() == d);
                }
                assert(nclass == occ(y@, c, y@.len() as int));
                if present {
                } else {
                    assert(mem(classes@, c));
                    assert(nclass > 0);
                }
            }

            // the merged statistics, then the smoothing added back
            let (theta_new, sigma_mid) = Self::update_mean_variance(cnt0, &mu0, &var0, &xclass, d);
            proof {
                if nclass == 0 {
                    assert(present && cnt0 >= 1);
                }
                assert(sigma_mid@.len() == d);
                assert(theta_new@.len() == d);
            }
            let mut sigma_final: Vec<A> = Vec::new();
            let mut f: usize = 0;
            while f < d
                invariant
                    sigma_mid@.len() == d,
                    f <= d,
                    sigma_final@.len() == f,
                    forall|u: int|
                        0 <= u < f ==> sigma_final@[u] == sigma_mid@[u].add_s(epsilon),
                decreases d - f,
            {
                sigma_final.push(sigma_mid[f].add(epsilon));
                f += 1;
            }

            let count = cnt0 + nclass;
            built.push(
                ClassInfo {
                    label: c,
                    class_count: count,
                    prior: A::zero(),
                    theta: theta_new,
                    sigma: sigma_final,
                },
            );
            proof {
                assert(GaussianNb::class_mid(prev, xs, y@, epsilon, d as int, built@[k as int]));
            }
            k += 1;
        }

        // total count and priors
        let mut total128: u128 = 0;
        let mut k: usize = 0;
        let ghost bmodel = GaussianNb { class_info: built };
        while k < nclasses
            invariant
                nclasses == built@.len(),
                bmodel.class_info@ == built@,
                k <= nclasses,
                forall|i: int|
                    0 <= i < nclasses ==> 1 <= (#[trigger] built@[i]).class_count <= 0xFFFF_FFFF,
                total128 == bmodel.total_rec(k as int),
                total128 <= k * 0x1_0000_0000,
            decreases nclasses - k,
        {
            proof {
                assert(total128 + built@[k as int].class_count <= (k + 1) * 0x1_0000_0000)
                    by (nonlinear_arith)
                    requires
                        total128 <= k * 0x1_0000_0000,
                        built@[k as int].class_count <= 0xFFFF_FFFF,
                ;
            }
            total128 = total128 + (built[k].class_count as u128);
            k += 1;
        }
        let total: usize = #[verifier::truncate] (total128 as usize);
        proof {
            assert(total128 == bmodel.total_count());
            assert(total == ((bmodel.total_count() as int) as usize));
        }

        let mut out: Vec<ClassInfo<A>> = Vec::new();
        let ghost built0 = built@;
        while built.len() > 0
            invariant
                built0.len() == nclasses,
                out@.len() + built@.len() == nclasses,
                forall|i: int| 0 <= i < built@.len() ==> built@[i] == built0[out@.len() + i],
                forall|i: int|
                    0 <= i < out@.len() ==> (#[trigger] out@[i]).label == built0[i].label
                        && out@[i].class_count == built0[i].class_count && out@[i].theta
                        == built0[i].theta && out@[i].sigma == built0[i].sigma,
                forall|i: int|
                    0 <= i < out@.len() ==> (#[trigger] out@[i]).prior == A::from_usize_s(
                        built0[i].class_count,
                    ).div_s(A::from_usize_s(total)),
            decreases built@.len(),
        {
            let mut info = built.remove(0);
            info.prior = A::from_usize(info.class_count).div(A::from_usize(total));
            out.push(info);
        }

        let m = GaussianNb { class_info: out };
        proof {
            assert(m.class_info@.len() == nclasses);
            assert forall|i: int, j: int|
                0 <= i < j < m.class_info@.len() implies m.class_info@[i].label
                < m.class_info@[j].label by {
                assert(m.class_info@[i].label == classes@[i]);
                assert(m.class_info@[j].label == classes@[j]);
            }
            assert(m.total_count() == bmodel.total_count()) by {
                lemma_total_eq(&m, &bmodel, nclasses as int);
            }
            assert(total == ((m.total_count() as int) as usize));
            assert forall|i: int|
                0 <= i < m.class_info@.len() implies (#[trigger] m.class_info@[i]).class_count
                >= 1 && m.class_info@[i].theta@.len() == d && m.class_info@[i].sigma@.len()
                == d by {
                assert(m.class_info@[i].class_count == built0[i].class_count);
                assert(m.class_info@[i].theta == built0[i].theta);
                assert(m.class_info@[i].sigma == built0[i].sigma);
            }
            assert(m.wf(d as int));
            assert forall|c: usize|
                #[trigger] m.has_class(c) <==> ((prev is Some && prev->0.has_class(c)) || occ(
                y@,
                c,
                y@.len() as int,
            ) > 0) by {
                assert(m.has_class(c) <==> mem(classes@, c)) by {
                    if m.has_class(c) {
                        let i = choose|i: int|
                            0 <= i < m.class_info@.len() && (#[trigger] m.class_info@[i]).label
                                == c;
                        assert(classes@[i] == c);
                    }
                    if mem(classes@, c) {
                        let i = choose|i: int| 0 <= i < classes@.len() && classes@[i] == c;
                        assert(m.class_info@[i].label == c);
                    }
                }
            }
            assert forall|i: int| 0 <= i < m.class_info@.len() implies GaussianNb::class_post(
                prev,
                xs,
                y@,
                eps_of(self.var_smoothing, xs, d as int),
                m.total_count(),
                d as int,
                #[trigger] m.class_info@[i],
            ) by {
                assert(GaussianNb::class_mid(
                    prev,
                    xs,
                    y@,
                    epsilon,
                    d as int,
                    built0[i],
                ));
                assert(m.class_info@[i].label == built0[i].label);
                assert(m.class_info@[i].class_count == built0[i].class_count);
                assert(m.class_info@[i].theta == built0[i].theta);
                assert(m.class_info@[i].sigma == built0[i].sigma);
            }
            assert(GaussianNb::fit_ok(
                prev,
                xs,
                y@,
                self.var_smoothing,
                d as int,
                m,
            ));
        }
        Ok(m)
    }

    /// Fit the model on a dataset from scratch.
    pub fn fit(&self, x: &Vec<Vec<A>>, y: &Vec<usize>) -> (r: Result<
        GaussianNb<A>,
        NaiveBayesError,
    >)
        requires
            y@.len() == x@.len(),
            forall|i: int| 0 <= i < x@.len() ==> (#[trigger] x@[i]@).len() == x@[0]@.len(),
            x@.len() <= 0xFFFF_FFFF,
        ensures
            (x@.len() == 0 || x@[0]@.len() == 0) ==> r == Err::<GaussianNb<A>, NaiveBayesError>(
                NaiveBayesError::EmptyBatch,
            ),
            (x@.len() > 0 && x@[0]@.len() > 0) ==> (r matches Ok(m) && GaussianNb::fit_ok(
                None,
                rows_of(x@),
                y@,
                self.var_smoothing,
                x@[0]@.len() as int,
                m,
            )),
    {
        self.fit_with(None, x, y)
    }
}

/// The sum of `ln(2 pi sigma_f)` over the first `m` features.
pub open spec fn jll_norm_rec<A: Float>(sigma: Seq<A>, m: int) -> A
    decreases m,
{
    if m <= 0 {
        A::zero_s()
    } else {
        jll_norm_rec(sigma, m - 1).add_s(A::two_pi_s().mul_s(sigma[m - 1]).ln_s())
    }
}

/// The sum of `(x_f - theta_f)^2 / sigma_f` over the first `m` features.
pub open spec fn jll_dev_rec<A: Float>(theta: Seq<A>, sigma: Seq<A>, row: Seq<A>, m: int) -> A
    decreases m,
{
    if m <= 0 {
        A::zero_s()
    } else {
        let dv = row[m - 1].sub_s(theta[m - 1]);
        jll_dev_rec(theta, sigma, row, m - 1).add_s(dv.mul_s(dv).div_s(sigma[m - 1]))
    }
}

/// The joint log-likelihood of a row under one class: the log prior, minus
/// half the log normalization, minus half the scaled squared deviations.
pub open spec fn jll_s<A: Float>(info: ClassInfo<A>, row: Seq<A>, d: int) -> A {
    let jointi = info.prior.ln_s();
    let nij = A::half_s().neg_s().mul_s(jll_norm_rec(info.sigma@, d));
    nij.sub_s(jll_dev_rec(info.theta@, info.sigma@, row, d).mul_s(A::half_s())).add_s(jointi)
}

/// The running argmax of the joint log-likelihood over the first `k`
/// classes, with strict improvement: ties keep the earlier class, and the
/// classes stand in ascending label order.
pub open spec fn argmax_rec<A: Float>(m: GaussianNb<A>, row: Seq<A>, d: int, k: int) -> (A, usize)
    decreases k,
{
    if k <= 1 {
        (jll_s(m.class_info@[0], row, d), m.class_info@[0].label)
    } else {
        let acc = argmax_rec(m, row, d, k - 1);
        let v = jll_s(m.class_info@[k - 1], row, d);
        if v.gt_s(acc.0) {
            (v, m.class_info@[k - 1].label)
        } else {
            acc
        }
    }
}

/// The class assigned to a row: the label of the class with the largest
/// joint log-likelihood.
pub open spec fn predict_row_s<A: Float>(m: GaussianNb<A>, row: Seq<A>, d: int) -> usize {
    argmax_rec(m, row, d, m.class_info@.len() as int).1
}

impl<A: Float> GaussianNb<A> {
    /// The class labels, in ascending order.
    pub fn labels(&self) -> (r: Vec<usize>)
        ensures
            r@.len() == self.class_info@.len(),
            forall|i: int| 0 <= i < r@.len() ==> r@[i] == self.class_info@[i].label,
    {
        let mut r: Vec<usize> = Vec::new();
        let n = self.class_info.len();
        let mut i: usize = 0;
        while i < n
            invariant
                n == self.class_info@.len(),
                i <= n,
                r@.len() == i,
                forall|t: int| 0 <= t < i ==> r@[t] == self.class_info@[t].label,
            decreases n - i,
        {
            r.push(self.class_info[i].label);
            i += 1;
        }
        r
    }

    /// Compute the unnormalized posterior log-probability of every row
    /// under every class, in ascending class order.
    pub fn joint_log_likelihood(&self, x: &Vec<Vec<A>>) -> (r: Vec<Vec<A>>)
        requires
            self.class_info@.len() > 0,
            self.wf(self.class_info@[0].theta@.len() as int),
            forall|i: int|
                0 <= i < x@.len() ==> (#[trigger] x@[i]@).len()
                    == self.class_info@[0].theta@.len(),
        ensures
            r@.len() == self.class_info@.len(),
            forall|c: int| 0 <= c < r@.len() ==> (#[trigger] r@[c]@).len() == x@.len(),
            forall|c: int, i: int|
                0 <= c < r@.len() && 0 <= i < x@.len() ==> r@[c]@[i] == jll_s(
                    self.class_info@[c],
                    x@[i]@,
                    self.class_info@[0].theta@.len() as int,
                ),
    {
        let d = self.class_info[0].theta.len();
        let nclasses = self.class_info.len();
        let nrows = x.len();
        let mut r: Vec<Vec<A>> = Vec::new();
        let mut c: usize = 0;
        while c < nclasses
            invariant
                nclasses == self.class_info@.len(),
                nclasses > 0,
                d == self.class_info@[0].theta@.len(),
                self.wf(d as int),
                nrows == x@.len(),
                forall|i: int| 0 <= i < nrows ==> (#[trigger] x@[i]@).len() == d,
                c <= nclasses,
                r@.len() == c,
                forall|t: int| 0 <= t < c ==> (#[trigger] r@[t]@).len() == nrows,
                forall|t: int, i: int|
                    0 <= t < c && 0 <= i < nrows ==> r@[t]@[i] == jll_s(
                        self.class_info@[t],
                        x@[i]@,
                        d as int,
                    ),
            decreases nclasses - c,
        {
            let jointi = self.class_info[c].prior.ln();

            let mut nij0 = A::zero();
            let mut f: usize = 0;
            while f < d
                invariant
                    c < nclasses,
                    nclasses == self.class_info@.len(),
                    self.class_info@[c as int].sigma@.len() == d,
                    f <= d,
                    nij0 == jll_norm_rec(self.class_info@[c as int].sigma@, f as int),
                decreases d - f,
            {
                nij0 = nij0.add(A::two_pi().mul(self.class_info[c].sigma[f]).ln());
                f += 1;
            }
            let nij = A::half().neg().mul(nij0);

            let mut col: Vec<A> = Vec::new();
            let mut i: usize = 0;
            while i < nrows
                invariant
                    c < nclasses,
                    nclasses == self.class_info@.len(),
                    self.class_info@[c as int].sigma@.len() == d,
                    self.class_info@[c as int].theta@.len() == d,
                    nrows == x@.len(),
                    forall|t: int| 0 <= t < nrows ==> (#[trigger] x@[t]@).len() == d,
                    jointi == self.class_info@[c as int].prior.ln_s(),
                    nij == A::half_s().neg_s().mul_s(
                        jll_norm_rec(self.class_info@[c as int].sigma@, d as int),
                    ),
                    i <= nrows,
                    col@.len() == i,
                    forall|t: int|
                        0 <= t < i ==> #[trigger] col@[t] == jll_s(
                            self.class_info@[c as int],
                            x@[t]@,
                            d as int,
                        ),
                decreases nrows - i,
            {
                let mut term = A::zero();
                let mut f: usize = 0;
                while f < d
                    invariant
                        c < nclasses,
                        i < nrows,
                        nclasses == self.class_info@.len(),
                        nrows == x@.len(),
                        self.class_info@[c as int].sigma@.len() == d,
                        self.class_info@[c as int].theta@.len() == d,
                        x@[i as int]@.len() == d,
                        f <= d,
                        term == jll_dev_rec(
                            self.class_info@[c as int].theta@,
                            self.class_info@[c as int].sigma@,
                            x@[i as int]@,
                            f as int,
                        ),
                    decreases d - f,
                {
                    let dv = x[i][f].sub(self.class_info[c].theta[f]);
                    term = term.add(dv.mul(dv).div(self.class_info[c].sigma[f]));
                    f += 1;
                }
                col.push(nij.sub(term.mul(A::half())).add(jointi));
                i += 1;
            }
            r.push(col);
            c += 1;
        }
        r
    }

    /// Perform classification on an array of rows: each row gets the label
    /// of the class with the largest joint log-likelihood, ties broken
    /// toward the smaller label.
    pub fn predict(&self, x: &Vec<Vec<A>>) -> (r: Vec<usize>)
        requires
            self.class_info@.len() > 0,
            self.wf(self.class_info@[0].theta@.len() as int),
            forall|i: int|
                0 <= i < x@.len() ==> (#[trigger] x@[i]@).len()
                    == self.class_info@[0].theta@.len(),
        ensures
            r@.len() == x@.len(),
            forall|i: int|
                0 <= i < x@.len() ==> r@[i] == predict_row_s(
                    *self,
                    x@[i]@,
                    self.class_info@[0].theta@.len() as int,
                ),
    {
        let d = self.class_info[0].theta.len();
        let likelihood = self.joint_log_likelihood(x);
        let nclasses = self.class_info.len();
        let nrows = x.len();

        let mut r: Vec<usize> = Vec::new();
        let mut i: usize = 0;
        while i < nrows
            invariant
                nclasses == self.class_info@.len(),
                nclasses > 0,
                d == self.class_info@[0].theta@.len(),
                nrows == x@.len(),
                likelihood@.len() == nclasses,
                forall|c: int| 0 <= c < nclasses ==> (#[trigger] likelihood@[c]@).len() == nrows,
                forall|c: int, t: int|
                    0 <= c < nclasses && 0 <= t < nrows ==> likelihood@[c]@[t] == jll_s(
                        self.class_info@[c],
                        x@[t]@,
                        d as int,
                    ),
                i <= nrows,
                r@.len() == i,
                forall|t: int|
                    0 <= t < i ==> #[trigger] r@[t] == predict_row_s(*self, x@[t]@, d as int),
            decreases nrows - i,
        {
            let mut best_val = likelihood[0][i];
            let mut best_label = self.class_info[0].label;
            let mut c: usize = 1;
            while c < nclasses
                invariant
                    i < nrows,
                    nclasses == self.class_info@.len(),
                    nrows == x@.len(),
                    likelihood@.len() == nclasses,
                    forall|u: int| 0 <= u < nclasses ==> (#[trigger] likelihood@[u]@).len()
                        == nrows,
                    forall|u: int, t: int|
                        0 <= u < nclasses && 0 <= t < nrows ==> likelihood@[u]@[t] == jll_s(
                            self.class_info@[u],
                            x@[t]@,
                            d as int,
                        ),
                    1 <= c <= nclasses,
                    (best_val, best_label) == argmax_rec(*self, x@[i as int]@, d as int, c as int),
                decreases nclasses - c,
            {
                if likelihood[c][i].gt(best_val) {
                    best_val = likelihood[c][i];
                    best_label = self.class_info[c].label;
                }
                c += 1;
            }
            r.push(best_label);
            i += 1;
        }
        r
    }
}

/// Folding the incremental fit over two batches accumulates exactly the
/// same class counts as one fit of the concatenated batches: the class sets
/// agree, and each class count does too.
pub proof fn lemma_incremental_counts<A: Float>(
    m0: Option<GaussianNb<A>>,
    xs1: Seq<Seq<A>>,
    ys1: Seq<usize>,
    xs2: Seq<Seq<A>>,
    ys2: Seq<usize>,
    s1: A,
    s2: A,
    sb: A,
    d: int,
    m1: GaussianNb<A>,
    m2: GaussianNb<A>,
    mb: GaussianNb<A>,
)
    requires
        xs1.len() == ys1.len(),
        xs2.len() == ys2.len(),
        GaussianNb::fit_ok(m0, xs1, ys1, s1, d, m1),
        GaussianNb::fit_ok(Some(m1), xs2, ys2, s2, d, m2),
        GaussianNb::fit_ok(m0, xs1 + xs2, ys1 + ys2, sb, d, mb),
    ensures
        forall|c: usize| #[trigger] m2.has_class(c) <==> mb.has_class(c),
        forall|c: usize|
            #[trigger] m2.has_class(c) ==> m2.class_info@[m2.find_class(c)].class_count
                == mb.class_info@[mb.find_class(c)].class_count,
{
    assert forall|c: usize| #[trigger] m2.has_class(c) <==> mb.has_class(c) by {
        lemma_occ_concat(ys1, ys2, c, ys2.len() as int);
        lemma_occ_le_len(ys1, c, ys1.len() as int);
        lemma_occ_le_len(ys2, c, ys2.len() as int);
    }
    assert forall|c: usize| #[trigger] m2.has_class(c) implies m2.class_info@[m2.find_class(
        c,
    )].class_count == mb.class_info@[mb.find_class(c)].class_count by {
        lemma_occ_concat(ys1, ys2, c, ys2.len() as int);
        lemma_occ_le_len(ys1, c, ys1.len() as int);
        lemma_occ_le_len(ys2, c, ys2.len() as int);
        let i2 = m2.find_class(c);
        assert(0 <= i2 < m2.class_info@.len() && m2.class_info@[i2].label == c);
        assert(GaussianNb::class_post(
            Some(m1),
            xs2,
            ys2,
            eps_of(s2, xs2, d),
            m2.total_count(),
            d,
            m2.class_info@[i2],
        ));
        let ib = mb.find_class(c);
        assert(0 <= ib < mb.class_info@.len() && mb.class_info@[ib].label == c);
        assert(GaussianNb::class_post(
            m0,
            xs1 + xs2,
            ys1 + ys2,
            eps_of(sb, xs1 + xs2, d),
            mb.total_count(),
            d,
            mb.class_info@[ib],
        ));
        if m1.has_class(c) {
            let i1 = m1.find_class(c);
            assert(0 <= i1 < m1.class_info@.len() && m1.class_info@[i1].label == c);
            assert(GaussianNb::class_post(
                m0,
                xs1,
                ys1,
                eps_of(s1, xs1, d),
                m1.total_count(),
                d,
                m1.class_info@[i1],
            ));
        }
    }
}

/// Two models with pointwise equal class counts have equal partial totals.
pub proof fn lemma_total_eq<A: Float>(a: &GaussianNb<A>, b: &GaussianNb<A>, m: int)
    requires
        0 <= m <= a.class_info@.len(),
        m <= b.class_info@.len(),
        forall|i: int|
            0 <= i < m ==> (#[trigger] a.class_info@[i]).class_count
                == b.class_info@[i].class_count,
    ensures
        a.total_rec(m) == b.total_rec(m),
    decreases m,
{
    if m > 0 {
        lemma_total_eq(a, b, m - 1);
    }
}

} // verus!
