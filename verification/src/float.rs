//! The abstract numeric type shared by the solver and the classifier.
//!
//! Each executable operation is paired with a specification-level mirror
//! (the `_s` functions), left abstract here: an implementation chooses a
//! machine float width (single or double precision) and its mirrors then
//! denote exactly what that width computes. Contracts throughout the crate
//! are stated over the mirrors, so every verified function's result is
//! pinned down as a deterministic function of its inputs, without
//! committing to a rounding model.
//!
//! The contracts of this trait are obligations on the implementor, not
//! checked here: each method must return a deterministic function of its
//! arguments, and the two cancellation facts must hold of the width. Both
//! are true of IEEE binary floats, where `(-x) + x` and `x - x` give a
//! zero or a NaN for every `x`, including infinities, and NaN compares
//! false against everything.

use vstd::prelude::*;

verus! {

/// Capabilities of a floating-point scalar: field operations, natural
/// logarithm, infinities, comparisons, and conversions from small integers
/// and from the handful of constants the algorithms use.
pub trait Float: Sized + Copy {
    /// Mirror of `add`.
    spec fn add_s(self, o: Self) -> Self;

    /// Mirror of `sub`.
    spec fn sub_s(self, o: Self) -> Self;

    /// Mirror of `mul`.
    spec fn mul_s(self, o: Self) -> Self;

    /// Mirror of `div`.
    spec fn div_s(self, o: Self) -> Self;

    /// Mirror of `neg`.
    spec fn neg_s(self) -> Self;

    /// Mirror of `ln`.
    spec fn ln_s(self) -> Self;

    /// Mirror of `max`.
    spec fn max_s(self, o: Self) -> Self;

    /// Mirror of `min`.
    spec fn min_s(self, o: Self) -> Self;

    /// Mirror of `lt`.
    spec fn lt_s(self, o: Self) -> bool;

    /// Mirror of `le`.
    spec fn le_s(self, o: Self) -> bool;

    /// Mirror of `gt`.
    spec fn gt_s(self, o: Self) -> bool;

    /// Mirror of `ge`.
    spec fn ge_s(self, o: Self) -> bool;

    /// Mirror of `eq_v`.
    spec fn eq_s(self, o: Self) -> bool;

    /// Mirror of `zero`.
    spec fn zero_s() -> Self;

    /// Mirror of `one`.
    spec fn one_s() -> Self;

    /// Mirror of `two`.
    spec fn two_s() -> Self;

    /// Mirror of `half`.
    spec fn half_s() -> Self;

    /// Mirror of `ten`.
    spec fn ten_s() -> Self;

    /// Mirror of `tiny`.
    spec fn tiny_s() -> Self;

    /// Mirror of `two_pi`.
    spec fn two_pi_s() -> Self;

    /// Mirror of `smoothing_default`.
    spec fn smoothing_default_s() -> Self;

    /// Mirror of `infinity`.
    spec fn infinity_s() -> Self;

    /// Mirror of `from_usize`.
    spec fn from_usize_s(n: usize) -> Self;

    /// Sum of two scalars.
    fn add(self, o: Self) -> (r: Self)
        ensures
            r == self.add_s(o),
    ;

    /// Difference of two scalars.
    fn sub(self, o: Self) -> (r: Self)
        ensures
            r == self.sub_s(o),
    ;

    /// Product of two scalars.
    fn mul(self, o: Self) -> (r: Self)
        ensures
            r == self.mul_s(o),
    ;

    /// Quotient of two scalars.
    fn div(self, o: Self) -> (r: Self)
        ensures
            r == self.div_s(o),
    ;

    /// Additive inverse.
    fn neg(self) -> (r: Self)
        ensures
            r == self.neg_s(),
    ;

    /// Natural logarithm.
    fn ln(self) -> (r: Self)
        ensures
            r == self.ln_s(),
    ;

    /// The larger of two scalars, as the float width defines it.
    fn max(self, o: Self) -> (r: Self)
        ensures
            r == self.max_s(o),
    ;

    /// The smaller of two scalars, as the float width defines it.
    fn min(self, o: Self) -> (r: Self)
        ensures
            r == self.min_s(o),
    ;

    /// Strictly-less comparison.
    fn lt(self, o: Self) -> (r: bool)
        ensures
            r == self.lt_s(o),
    ;

    /// Less-or-equal comparison.
    fn le(self, o: Self) -> (r: bool)
        ensures
            r == self.le_s(o),
    ;

    /// Strictly-greater comparison.
    fn gt(self, o: Self) -> (r: bool)
        ensures
            r == self.gt_s(o),
    ;

    /// Greater-or-equal comparison.
    fn ge(self, o: Self) -> (r: bool)
        ensures
            r == self.ge_s(o),
    ;

    /// Equality comparison of values.
    fn eq_v(self, o: Self) -> (r: bool)
        ensures
            r == self.eq_s(o),
    ;

    /// The scalar 0.
    fn zero() -> (r: Self)
        ensures
            r == Self::zero_s(),
    ;

    /// The scalar 1.
    fn one() -> (r: Self)
        ensures
            r == Self::one_s(),
    ;

    /// The scalar 2.
    fn two() -> (r: Self)
        ensures
            r == Self::two_s(),
    ;

    /// The scalar 1/2.
    fn half() -> (r: Self)
        ensures
            r == Self::half_s(),
    ;

    /// The scalar 10.
    fn ten() -> (r: Self)
        ensures
            r == Self::ten_s(),
    ;

    /// The guard 10^-10 that floors near-singular quadratic coefficients.
    fn tiny() -> (r: Self)
        ensures
            r == Self::tiny_s(),
    ;

    /// The scalar 2*pi.
    fn two_pi() -> (r: Self)
        ensures
            r == Self::two_pi_s(),
    ;

    /// The default variance-smoothing ratio, 10^-9.
    fn smoothing_default() -> (r: Self)
        ensures
            r == Self::smoothing_default_s(),
    ;

    /// Positive infinity.
    fn infinity() -> (r: Self)
        ensures
            r == Self::infinity_s(),
    ;

    /// The scalar closest to the given count.
    fn from_usize(n: usize) -> (r: Self)
        ensures
            r == Self::from_usize_s(n),
    ;

    /// A float width cancels `(-x) + x` to a zero or an undefined value,
    /// never to something strictly positive.
    proof fn axiom_cancel_add(x: Self)
        ensures
            !x.neg_s().add_s(x).gt_s(Self::zero_s()),
    ;

    /// A float width cancels `x - x` to a zero or an undefined value,
    /// never to something strictly positive.
    proof fn axiom_cancel_sub(x: Self)
        ensures
            !x.sub_s(x).gt_s(Self::zero_s()),
    ;
}

} // verus!
