//! A verified fragment of a classical machine-learning library: a sequential
//! minimal optimization (SMO) dual solver for support vector machines with
//! shrinking and an optional nu-formulation, together with a Gaussian naive
//! Bayes classifier with incremental fitting.
//!
//! Both cores are generic over an abstract floating-point trait. Every
//! arithmetic step is mirrored by a specification-level function of the trait,
//! so the contracts pin each result down as a deterministic function of the
//! inputs, while the concrete float width is chosen by the caller.

pub mod float;
pub mod gaussian_nb;
pub mod permutable_kernel;
pub mod solver_smo;

pub use float::Float;
pub use gaussian_nb::{GaussianNb, GaussianNbParams, NaiveBayesError};
pub use permutable_kernel::{DenseKernel, Permutable};
pub use solver_smo::{Alpha, ExitReason, SolverParams, SolverState, Svm};
