//! The kernel-matrix collaborator of the SMO solver.
//!
//! The solver consumes a symmetric positive semi-definite kernel matrix
//! through the [`Permutable`] contract: row access over the current first
//! positions, diagonal access, and an in-place transposition of two logical
//! indices. [`DenseKernel`] is a verified dense implementation used to run
//! the solver on a precomputed matrix.

use vstd::prelude::*;
use crate::float::Float;

verus! {

/// Relies on `Vec::swap`: exchanges the elements at `i` and `j` in place.
#[verifier::external_body]
pub(crate) fn vec_swap<T>(v: &mut Vec<T>, i: usize, j: usize)
    requires
        i < old(v)@.len(),
        j < old(v)@.len(),
    ensures
        final(v)@ == old(v)@.update(i as int, old(v)@[j as int]).update(
            j as int,
            old(v)@[i as int],
        ),
{
    v.swap(i, j)
}

/// Index transposition: the image of `t` under the exchange of `i` and `j`.
pub open spec fn swap_image(t: int, i: int, j: int) -> int {
    if t == i {
        j
    } else if t == j {
        i
    } else {
        t
    }
}

/// Row access into a kernel matrix whose logical row/column order can be
/// permuted in place, plus access to the underlying samples when the kernel
/// is linear, so the primal weight vector can be reconstructed.
///
/// `k_s(i, j)` is the current logical matrix: `swap_indices` permutes it,
/// while the sample rows keep their original order throughout.
pub trait Permutable<A: Float>: Sized {
    /// Whether the value is internally consistent; every operation keeps it.
    spec fn wf_s(&self) -> bool;

    /// Number of rows (and columns) of the kernel matrix.
    spec fn n_s(&self) -> nat;

    /// The current logical matrix entry at row `i`, column `j`.
    spec fn k_s(&self, i: int, j: int) -> A;

    /// Whether the kernel is a plain inner product of the samples.
    spec fn linear_s(&self) -> bool;

    /// Number of features of each sample row.
    spec fn nfeatures_s(&self) -> nat;

    /// The sample with original index `i`; unaffected by `swap_indices`.
    spec fn sample_s(&self, i: int) -> Seq<A>;

    /// A length-`length` view of row `idx` over the current first positions.
    fn distances(&self, idx: usize, length: usize) -> (r: Vec<A>)
        requires
            self.wf_s(),
            idx < self.n_s(),
            length <= self.n_s(),
        ensures
            r@.len() == length,
            forall|j: int| 0 <= j < length ==> r@[j] == self.k_s(idx as int, j),
    ;

    /// The diagonal entry at `idx`.
    fn self_distance(&self, idx: usize) -> (r: A)
        requires
            self.wf_s(),
            idx < self.n_s(),
        ensures
            r == self.k_s(idx as int, idx as int),
    ;

    /// Exchanges the logical indices `i` and `j`: subsequent row and diagonal
    /// accesses see the permuted matrix. Samples keep their original order.
    fn swap_indices(&mut self, i: usize, j: usize)
        requires
            old(self).wf_s(),
            i < old(self).n_s(),
            j < old(self).n_s(),
        ensures
            final(self).wf_s(),
            final(self).n_s() == old(self).n_s(),
            final(self).linear_s() == old(self).linear_s(),
            final(self).nfeatures_s() == old(self).nfeatures_s(),
            forall|t: int|
                0 <= t < old(self).n_s() ==> final(self).sample_s(t) == old(self).sample_s(t),
            forall|a: int, b: int|
                0 <= a < old(self).n_s() && 0 <= b < old(self).n_s() ==> final(self).k_s(a, b)
                    == old(self).k_s(
                    swap_image(a, i as int, j as int),
                    swap_image(b, i as int, j as int),
                ),
    ;

    /// Whether the primal weight vector can be precomputed from the samples.
    fn is_linear(&self) -> (r: bool)
        requires
            self.wf_s(),
        ensures
            r == self.linear_s(),
    ;

    /// Number of features of each sample row.
    fn nfeatures(&self) -> (r: usize)
        requires
            self.wf_s(),
        ensures
            r == self.nfeatures_s(),
    ;

    /// The sample with original index `idx`.
    fn sample_row(&self, idx: usize) -> (r: Vec<A>)
        requires
            self.wf_s(),
            self.linear_s(),
            idx < self.n_s(),
        ensures
            r@ == self.sample_s(idx as int),
            r@.len() == self.nfeatures_s(),
    ;
}

/// A dense, precomputed kernel matrix with an explicit permutation state,
/// optionally carrying the sample matrix of a linear kernel.
pub struct DenseKernel<A> {
    /// The current logical matrix, permuted in place by `swap_indices`.
    pub matrix: Vec<Vec<A>>,
    /// Whether the matrix is the inner product of the samples.
    pub linear: bool,
    /// The sample rows in original order; empty unless `linear`.
    pub samples: Vec<Vec<A>>,
    /// Number of features of each sample row.
    pub nfeat: usize,
}

impl<A: Float> DenseKernel<A> {
    /// A non-linear kernel from a square matrix of precomputed entries.
    pub fn new(matrix: Vec<Vec<A>>) -> (r: DenseKernel<A>)
        requires
            forall|i: int| 0 <= i < matrix@.len() ==> #[trigger] matrix@[i]@.len() == matrix@.len(),
        ensures
            r.wf_s(),
            !r.linear_s(),
            r.n_s() == matrix@.len(),
            forall|i: int, j: int|
                0 <= i < matrix@.len() && 0 <= j < matrix@.len() ==> r.k_s(i, j) == matrix@[i]@[j],
    {
        DenseKernel { matrix, linear: false, samples: Vec::new(), nfeat: 0 }
    }

    /// A linear kernel: the matrix entries together with the sample rows
    /// they are inner products of.
    pub fn new_linear(matrix: Vec<Vec<A>>, samples: Vec<Vec<A>>, nfeat: usize) -> (r: DenseKernel<
        A,
    >)
        requires
            forall|i: int| 0 <= i < matrix@.len() ==> #[trigger] matrix@[i]@.len() == matrix@.len(),
            samples@.len() == matrix@.len(),
            forall|i: int| 0 <= i < samples@.len() ==> #[trigger] samples@[i]@.len() == nfeat,
        ensures
            r.wf_s(),
            r.linear_s(),
            r.n_s() == matrix@.len(),
            r.nfeatures_s() == nfeat,
            forall|i: int, j: int|
                0 <= i < matrix@.len() && 0 <= j < matrix@.len() ==> r.k_s(i, j) == matrix@[i]@[j],
            forall|i: int| 0 <= i < samples@.len() ==> r.sample_s(i) == samples@[i]@,
    {
        DenseKernel { matrix, linear: true, samples, nfeat }
    }
}

impl<A: Float> Permutable<A> for DenseKernel<A> {
    open spec fn wf_s(&self) -> bool {
        &&& forall|i: int|
            0 <= i < self.matrix@.len() ==> #[trigger] self.matrix@[i]@.len()
                == self.matrix@.len()
        &&& self.linear ==> self.samples@.len() == self.matrix@.len()
        &&& self.linear ==> forall|i: int|
            0 <= i < self.samples@.len() ==> #[trigger] self.samples@[i]@.len() == self.nfeat
    }

    open spec fn n_s(&self) -> nat {
        self.matrix@.len()
    }

    open spec fn k_s(&self, i: int, j: int) -> A {
        self.matrix@[i]@[j]
    }

    open spec fn linear_s(&self) -> bool {
        self.linear
    }

    open spec fn nfeatures_s(&self) -> nat {
        self.nfeat as nat
    }

    open spec fn sample_s(&self, i: int) -> Seq<A> {
        self.samples@[i]@
    }

    fn distances(&self, idx: usize, length: usize) -> (r: Vec<A>) {
        let mut r: Vec<A> = Vec::new();
        let mut j: usize = 0;
        while j < length
            invariant
                self.wf_s(),
                idx < self.n_s(),
                length <= self.n_s(),
                j <= length,
                r@.len() == j,
                forall|t: int| 0 <= t < j ==> r@[t] == self.k_s(idx as int, t),
            decreases length - j,
        {
            r.push(self.matrix[idx][j]);
            j += 1;
        }
        r
    }

    fn self_distance(&self, idx: usize) -> (r: A) {
        self.matrix[idx][idx]
    }

    fn swap_indices(&mut self, i: usize, j: usize) {
        let n = self.matrix.len();
        vec_swap(&mut self.matrix, i, j);
        let ghost rows_swapped = self.matrix@;
        let mut t: usize = 0;
        while t < n
            invariant
                n == old(self).n_s(),
                i < n,
                j < n,
                t <= n,
                self.linear == old(self).linear,
                self.samples == old(self).samples,
                self.nfeat == old(self).nfeat,
                self.matrix@.len() == n,
                rows_swapped.len() == n,
                forall|a: int|
                    0 <= a < n ==> #[trigger] rows_swapped[a]@ == old(self).matrix@[swap_image(
                        a,
                        i as int,
                        j as int,
                    )]@,
                forall|a: int| 0 <= a < n ==> #[trigger] rows_swapped[a]@.len() == n,
                forall|a: int| t <= a < n ==> #[trigger] self.matrix@[a]@ == rows_swapped[a]@,
                forall|a: int| 0 <= a < t ==> #[trigger] self.matrix@[a]@.len() == n,
                forall|a: int, b: int|
                    0 <= a < t && 0 <= b < n ==> #[trigger] self.matrix@[a]@[b]
                        == rows_swapped[a]@[swap_image(b, i as int, j as int)],
            decreases n - t,
        {
            let mut newrow: Vec<A> = Vec::new();
            let mut b: usize = 0;
            while b < n
                invariant
                    i < n,
                    j < n,
                    t < n,
                    b <= n,
                    self.matrix@.len() == n,
                    rows_swapped.len() == n,
                    self.matrix@[t as int]@ == rows_swapped[t as int]@,
                    rows_swapped[t as int]@.len() == n,
                    newrow@.len() == b,
                    forall|c: int|
                        0 <= c < b ==> #[trigger] newrow@[c] == rows_swapped[t as int]@[swap_image(
                            c,
                            i as int,
                            j as int,
                        )],
                decreases n - b,
            {
                let src = if b == i {
                    j
                } else if b == j {
                    i
                } else {
                    b
                };
                newrow.push(self.matrix[t][src]);
                b += 1;
            }
            self.matrix[t] = newrow;
            t += 1;
        }
    }

    fn is_linear(&self) -> (r: bool) {
        self.linear
    }

    fn nfeatures(&self) -> (r: usize) {
        self.nfeat
    }

    fn sample_row(&self, idx: usize) -> (r: Vec<A>) {
        let mut r: Vec<A> = Vec::new();
        let width = self.samples[idx].len();
        let mut k: usize = 0;
        while k < width
            invariant
                self.wf_s(),
                self.linear_s(),
                idx < self.samples@.len(),
                width == self.samples@[idx as int]@.len(),
                k <= width,
                r@.len() == k,
                forall|t: int| 0 <= t < k ==> r@[t] == self.samples@[idx as int]@[t],
            decreases width - k,
        {
            r.push(self.samples[idx][k]);
            k += 1;
        }
        assert(r@ =~= self.samples@[idx as int]@);
        r
    }
}

} // verus!
