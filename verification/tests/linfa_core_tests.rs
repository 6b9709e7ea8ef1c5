use linfa_core::{
    DenseKernel, ExitReason, Float, GaussianNb, GaussianNbParams, NaiveBayesError, Permutable,
    SolverParams, SolverState,
};

#[derive(Clone, Copy, Debug, PartialEq)]
struct F64(f64);

impl Float for F64 {
    fn add(self, o: Self) -> Self {
        F64(self.0 + o.0)
    }
    fn sub(self, o: Self) -> Self {
        F64(self.0 - o.0)
    }
    fn mul(self, o: Self) -> Self {
        F64(self.0 * o.0)
    }
    fn div(self, o: Self) -> Self {
        F64(self.0 / o.0)
    }
    fn neg(self) -> Self {
        F64(-self.0)
    }
    fn ln(self) -> Self {
        F64(self.0.ln())
    }
    fn max(self, o: Self) -> Self {
        F64(self.0.max(o.0))
    }
    fn min(self, o: Self) -> Self {
        F64(self.0.min(o.0))
    }
    fn lt(self, o: Self) -> bool {
        self.0 < o.0
    }
    fn le(self, o: Self) -> bool {
        self.0 <= o.0
    }
    fn gt(self, o: Self) -> bool {
        self.0 > o.0
    }
    fn ge(self, o: Self) -> bool {
        self.0 >= o.0
    }
    fn eq_v(self, o: Self) -> bool {
        self.0 == o.0
    }
    fn zero() -> Self {
        F64(0.0)
    }
    fn one() -> Self {
        F64(1.0)
    }
    fn two() -> Self {
        F64(2.0)
    }
    fn half() -> Self {
        F64(0.5)
    }
    fn ten() -> Self {
        F64(10.0)
    }
    fn tiny() -> Self {
        F64(1e-10)
    }
    fn two_pi() -> Self {
        F64(2.0 * std::f64::consts::PI)
    }
    fn smoothing_default() -> Self {
        F64(1e-9)
    }
    fn infinity() -> Self {
        F64(f64::INFINITY)
    }
    fn from_usize(n: usize) -> Self {
        F64(n as f64)
    }
    fn add_s(self, o: Self) -> Self {
        F64(self.0 + o.0)
    }
    fn sub_s(self, o: Self) -> Self {
        F64(self.0 - o.0)
    }
    fn mul_s(self, o: Self) -> Self {
        F64(self.0 * o.0)
    }
    fn div_s(self, o: Self) -> Self {
        F64(self.0 / o.0)
    }
    fn neg_s(self) -> Self {
        F64(-self.0)
    }
    fn ln_s(self) -> Self {
        F64(self.0.ln())
    }
    fn max_s(self, o: Self) -> Self {
        F64(self.0.max(o.0))
    }
    fn min_s(self, o: Self) -> Self {
        F64(self.0.min(o.0))
    }
    fn lt_s(self, o: Self) -> bool {
        self.0 < o.0
    }
    fn le_s(self, o: Self) -> bool {
        self.0 <= o.0
    }
    fn gt_s(self, o: Self) -> bool {
        self.0 > o.0
    }
    fn ge_s(self, o: Self) -> bool {
        self.0 >= o.0
    }
    fn eq_s(self, o: Self) -> bool {
        self.0 == o.0
    }
    fn zero_s() -> Self {
        F64(0.0)
    }
    fn one_s() -> Self {
        F64(1.0)
    }
    fn two_s() -> Self {
        F64(2.0)
    }
    fn half_s() -> Self {
        F64(0.5)
    }
    fn ten_s() -> Self {
        F64(10.0)
    }
    fn tiny_s() -> Self {
        F64(1e-10)
    }
    fn two_pi_s() -> Self {
        F64(2.0 * std::f64::consts::PI)
    }
    fn smoothing_default_s() -> Self {
        F64(1e-9)
    }
    fn infinity_s() -> Self {
        F64(f64::INFINITY)
    }
    fn from_usize_s(n: usize) -> Self {
        F64(n as f64)
    }
    fn axiom_cancel_add(_x: Self) {}
    fn axiom_cancel_sub(_x: Self) {}
}

fn rows(data: &[&[f64]]) -> Vec<Vec<F64>> {
    data.iter().map(|r| r.iter().map(|&v| F64(v)).collect()).collect()
}

fn cluster_x() -> Vec<Vec<F64>> {
    rows(&[
        &[-2.0, -1.0],
        &[-1.0, -1.0],
        &[-1.0, -2.0],
        &[1.0, 1.0],
        &[1.0, 2.0],
        &[2.0, 1.0],
    ])
}

fn cluster_y() -> Vec<usize> {
    vec![1, 1, 1, 2, 2, 2]
}

fn expected_jll_class1() -> [f64; 6] {
    [
        -2.276946847943017,
        -1.5269468546930165,
        -2.276946847943017,
        -25.52694663869301,
        -38.27694652394301,
        -38.27694652394301,
    ]
}

fn expected_jll_class2() -> [f64; 6] {
    [
        -38.27694652394301,
        -25.52694663869301,
        -38.27694652394301,
        -1.5269468546930165,
        -2.276946847943017,
        -2.276946847943017,
    ]
}

#[test]
fn test_gaussian_nb() {
    let x = cluster_x();
    let y = cluster_y();

    let clf = GaussianNbParams::<F64>::params();
    let fitted_clf = clf.fit(&x, &y).unwrap();
    let pred = fitted_clf.predict(&x);
    println!("{:?}", pred);
    assert_eq!(pred, y);

    let jll = fitted_clf.joint_log_likelihood(&x);
    assert_eq!(fitted_clf.labels(), vec![1, 2]);
    let exp1 = expected_jll_class1();
    let exp2 = expected_jll_class2();
    for i in 0..6 {
        assert!((jll[0][i].0 - exp1[i]).abs() < 1e-6);
        assert!((jll[1][i].0 - exp2[i]).abs() < 1e-6);
    }
}

#[test]
fn test_gnb_fit_with() {
    let x = cluster_x();
    let y = cluster_y();

    let clf = GaussianNbParams::<F64>::params();

    let mut model = None;
    for chunk in 0..3 {
        let xc: Vec<Vec<F64>> = x[2 * chunk..2 * chunk + 2].to_vec();
        let yc: Vec<usize> = y[2 * chunk..2 * chunk + 2].to_vec();
        model = Some(clf.fit_with(model, &xc, &yc));
    }
    let model = model.unwrap().unwrap();

    let pred = model.predict(&x);
    assert_eq!(pred, y);

    let jll = model.joint_log_likelihood(&x);
    let exp1 = expected_jll_class1();
    let exp2 = expected_jll_class2();
    for i in 0..6 {
        assert!((jll[0][i].0 - exp1[i]).abs() < 1e-6);
        assert!((jll[1][i].0 - exp2[i]).abs() < 1e-6);
    }
}

#[test]
fn test_gnb_incremental_matches_batch() {
    let x = cluster_x();
    let y = cluster_y();
    let clf = GaussianNbParams::<F64>::params();

    let batch = clf.fit(&x, &y).unwrap();

    let mut model = None;
    for chunk in 0..3 {
        let xc: Vec<Vec<F64>> = x[2 * chunk..2 * chunk + 2].to_vec();
        let yc: Vec<usize> = y[2 * chunk..2 * chunk + 2].to_vec();
        model = Some(clf.fit_with(model, &xc, &yc));
    }
    let incremental = model.unwrap().unwrap();

    assert_eq!(batch.class_info.len(), incremental.class_info.len());
    for (a, b) in batch.class_info.iter().zip(incremental.class_info.iter()) {
        assert_eq!(a.label, b.label);
        assert_eq!(a.class_count, b.class_count);
        assert!((a.prior.0 - b.prior.0).abs() < 1e-6 * a.prior.0.abs().max(1.0));
        for f in 0..2 {
            assert!((a.theta[f].0 - b.theta[f].0).abs() < 1e-6 * a.theta[f].0.abs().max(1.0));
            assert!((a.sigma[f].0 - b.sigma[f].0).abs() < 1e-6 * a.sigma[f].0.abs().max(1.0));
        }
    }
}

#[test]
fn test_gnb_prior_sum() {
    let x = cluster_x();
    let y = cluster_y();
    let clf = GaussianNbParams::<F64>::params();
    let fitted = clf.fit(&x, &y).unwrap();
    let sum: f64 = fitted.class_info.iter().map(|c| c.prior.0).sum();
    assert!((sum - 1.0).abs() < 1e-12);
}

#[test]
fn test_gnb_empty_batch() {
    let clf = GaussianNbParams::<F64>::params();
    let x: Vec<Vec<F64>> = Vec::new();
    let y: Vec<usize> = Vec::new();
    assert!(matches!(clf.fit(&x, &y), Err(NaiveBayesError::EmptyBatch)));

    let fine = clf.fit(&cluster_x(), &cluster_y());
    let folded = clf.fit_with(Some(fine), &x, &y);
    assert!(matches!(folded, Err(NaiveBayesError::EmptyBatch)));

    let prior_err: Option<Result<GaussianNb<F64>, NaiveBayesError>> =
        Some(Err(NaiveBayesError::EmptyBatch));
    assert!(matches!(
        clf.fit_with(prior_err, &cluster_x(), &cluster_y()),
        Err(NaiveBayesError::EmptyBatch)
    ));
}

fn f64v(vals: &[f64]) -> Vec<F64> {
    vals.iter().map(|&v| F64(v)).collect()
}

#[test]
fn test_smo_two_points() {
    // identity kernel, opposite classes: the optimum is alpha = (1, 1)
    let kernel = DenseKernel::new(rows(&[&[1.0, 0.0], &[0.0, 1.0]]));
    let params = SolverParams { eps: F64(1e-6), shrinking: false };
    let state = SolverState::new(
        f64v(&[0.0, 0.0]),
        f64v(&[-1.0, -1.0]),
        vec![true, false],
        kernel,
        f64v(&[1.0, 1.0]),
        params,
        false,
    );
    let res = state.solve();

    assert_eq!(res.exit_reason, ExitReason::ReachedThreshold);
    // box feasibility at exit
    for a in res.alpha.iter() {
        assert!(a.0 >= 0.0 && a.0 <= 1.0);
    }
    // the equality constraint is conserved
    let sum_ya = res.alpha[0].0 - res.alpha[1].0;
    assert!(sum_ya.abs() < 1e-5);
    assert!(res.alpha[0].0 > 0.0);
    assert!((res.alpha[0].0 - res.alpha[1].0).abs() < 1e-6);
    // optimality: the violation at exit is below the tolerance
    let y = [1.0, -1.0];
    let q = [[1.0, -0.0], [-0.0, 1.0]];
    let g: Vec<f64> = (0..2)
        .map(|i| q[i][0] * res.alpha[0].0 + q[i][1] * res.alpha[1].0 - 1.0)
        .collect();
    // rho lies between the two y_i * g_i values at termination
    let yg0 = y[0] * g[0];
    let yg1 = y[1] * g[1];
    assert!(res.rho.0 >= yg0.min(yg1) - 1e-6 && res.rho.0 <= yg0.max(yg1) + 1e-6);
    assert!(res.r.is_none());
    assert!(res.iterations >= 1);
}

#[test]
fn test_smo_linear_kernel_weights() {
    // a linear kernel carries its samples; the primal weights come back
    let samples = rows(&[&[1.0, 0.0], &[0.0, 1.0]]);
    let kernel = DenseKernel::new_linear(rows(&[&[1.0, 0.0], &[0.0, 1.0]]), samples, 2);
    let params = SolverParams { eps: F64(1e-6), shrinking: false };
    let state = SolverState::new(
        f64v(&[0.0, 0.0]),
        f64v(&[-1.0, -1.0]),
        vec![true, false],
        kernel,
        f64v(&[1.0, 1.0]),
        params,
        false,
    );
    let res = state.solve();
    let w = res.linear_decision.as_ref().expect("linear kernel precomputes weights");
    // w = sum_i y_i alpha_i x_i, computed independently
    let expect_w0 = 1.0 * res.alpha[0].0 * 1.0 + (-1.0) * res.alpha[1].0 * 0.0;
    let expect_w1 = 1.0 * res.alpha[0].0 * 0.0 + (-1.0) * res.alpha[1].0 * 1.0;
    assert!((w[0].0 - expect_w0).abs() < 1e-12);
    assert!((w[1].0 - expect_w1).abs() < 1e-12);
}

fn four_point_problem(shrinking: bool) -> linfa_core::Svm<F64, DenseKernel<F64>> {
    let pts: [[f64; 2]; 4] = [[2.0, 0.0], [1.0, 1.0], [0.0, 2.0], [-1.0, 1.0]];
    let mut kmat: Vec<Vec<F64>> = Vec::new();
    for i in 0..4 {
        let mut row = Vec::new();
        for j in 0..4 {
            row.push(F64(pts[i][0] * pts[j][0] + pts[i][1] * pts[j][1]));
        }
        kmat.push(row);
    }
    let kernel = DenseKernel::new(kmat);
    let params = SolverParams { eps: F64(1e-6), shrinking };
    let state = SolverState::new(
        f64v(&[0.0, 0.0, 0.0, 0.0]),
        f64v(&[-1.0, -1.0, -1.0, -1.0]),
        vec![true, true, false, false],
        kernel,
        f64v(&[10.0, 10.0, 10.0, 10.0]),
        params,
        false,
    );
    state.solve()
}

#[test]
fn test_smo_shrinking_same_answer() {
    let with = four_point_problem(true);
    let without = four_point_problem(false);
    assert_eq!(with.exit_reason, without.exit_reason);
    for i in 0..4 {
        assert!((with.alpha[i].0 - without.alpha[i].0).abs() <= 1e-4);
        // box feasibility in both runs
        assert!(with.alpha[i].0 >= 0.0 && with.alpha[i].0 <= 10.0);
        assert!(without.alpha[i].0 >= 0.0 && without.alpha[i].0 <= 10.0);
    }
    // the equality constraint is conserved
    let y = [1.0, 1.0, -1.0, -1.0];
    let sum_with: f64 = (0..4).map(|i| y[i] * with.alpha[i].0).sum();
    let sum_without: f64 = (0..4).map(|i| y[i] * without.alpha[i].0).sum();
    assert!(sum_with.abs() < 1e-5);
    assert!(sum_without.abs() < 1e-5);
}

#[test]
fn test_smo_nu_variant() {
    // one coordinate per class: no within-class pair exists, so the state
    // is already optimal and the residual is reported
    let kernel = DenseKernel::new(rows(&[&[1.0, 0.0], &[0.0, 1.0]]));
    let params = SolverParams { eps: F64(1e-6), shrinking: false };
    let state = SolverState::new(
        f64v(&[0.5, 0.5]),
        f64v(&[0.0, 0.0]),
        vec![true, false],
        kernel,
        f64v(&[1.0, 1.0]),
        params,
        true,
    );
    let res = state.solve();
    assert_eq!(res.exit_reason, ExitReason::ReachedThreshold);
    assert_eq!(res.iterations, 0);
    assert!((res.alpha[0].0 - 0.5).abs() < 1e-12);
    assert!((res.alpha[1].0 - 0.5).abs() < 1e-12);
    assert!(res.r.is_some());
}

#[test]
fn test_gnb_var_smoothing_builder() {
    let clf = GaussianNbParams::<F64>::params().var_smoothing(F64(1e-6));
    let fitted = clf.fit(&cluster_x(), &cluster_y()).unwrap();
    let pred = fitted.predict(&cluster_x());
    assert_eq!(pred, cluster_y());
}

#[test]
fn test_kernel_swap_indices() {
    let mut kernel = DenseKernel::new_linear(
        rows(&[&[1.0, 2.0, 3.0], &[2.0, 5.0, 6.0], &[3.0, 6.0, 9.0]]),
        rows(&[&[1.0, 0.0], &[0.0, 1.0], &[3.0, 0.0]]),
        2,
    );
    kernel.swap_indices(0, 2);
    // rows and columns are permuted together
    assert_eq!(kernel.self_distance(0).0, 9.0);
    assert_eq!(kernel.self_distance(2).0, 1.0);
    let row0 = kernel.distances(0, 3);
    assert_eq!(vec![row0[0].0, row0[1].0, row0[2].0], vec![9.0, 6.0, 3.0]);
    let row2 = kernel.distances(2, 3);
    assert_eq!(vec![row2[0].0, row2[1].0, row2[2].0], vec![3.0, 2.0, 1.0]);
    // samples keep their original order
    assert_eq!(kernel.sample_row(0)[0].0, 1.0);
    assert_eq!(kernel.sample_row(2)[0].0, 3.0);
}

#[test]
fn test_solver_state_swap() {
    let kernel = DenseKernel::new(rows(&[&[1.0, 0.5], &[0.5, 1.0]]));
    let params = SolverParams { eps: F64(1e-6), shrinking: false };
    let mut state = SolverState::new(
        f64v(&[0.0, 0.25]),
        f64v(&[-1.0, -2.0]),
        vec![true, false],
        kernel,
        f64v(&[1.0, 2.0]),
        params,
        false,
    );
    assert_eq!(state.ntotal(), 2);
    assert_eq!(state.nactive(), 2);
    assert_eq!(state.target(0).0, 1.0);
    assert_eq!(state.target(1).0, -1.0);
    state.swap(0, 1);
    // targets, gradient and alpha move together; bounds stay in place
    assert_eq!(state.target(0).0, -1.0);
    assert_eq!(state.target(1).0, 1.0);
    assert_eq!(state.bound(0).0, 1.0);
    assert_eq!(state.bound(1).0, 2.0);
}

#[test]
fn test_max_violating_pair_values() {
    let kernel = DenseKernel::new(rows(&[&[1.0, 0.0], &[0.0, 1.0]]));
    let params = SolverParams { eps: F64(1e-6), shrinking: false };
    let state = SolverState::new(
        f64v(&[0.0, 0.0]),
        f64v(&[-1.0, -1.0]),
        vec![true, false],
        kernel,
        f64v(&[1.0, 1.0]),
        params,
        false,
    );
    // with alpha at zero the gradient equals the linear term
    let (gmax1, gmax2) = state.max_violating_pair();
    assert_eq!(gmax1.0 .0, 1.0);
    assert_eq!(gmax1.1, 0);
    assert_eq!(gmax2.0 .0, 1.0);
    assert_eq!(gmax2.1, 1);
    let (i, j, optimal) = state.select_working_set();
    assert!(!optimal);
    assert_eq!((i, j), (0, 1));
}

#[test]
fn test_alpha_status() {
    let a = linfa_core::Alpha::from(F64(0.0), F64(1.0));
    assert!(a.reached_lower());
    assert!(!a.reached_upper());
    assert!(!a.free_floating());
    assert_eq!(a.val().0, 0.0);
    let b = linfa_core::Alpha::from(F64(0.5), F64(1.0));
    assert!(b.free_floating());
    let c = linfa_core::Alpha::from(F64(1.0), F64(1.0));
    assert!(c.reached_upper());
    assert!(!c.free_floating());
}

#[test]
fn test_do_shrinking_moves_bounded_coordinate() {
    // coordinate 0 is locked at its upper bound with an outward gradient,
    // coordinate 1 floats freely: shrinking swaps the keeper to the front
    let kernel = DenseKernel::new(rows(&[&[1.0, 0.0], &[0.0, 1.0]]));
    let params = SolverParams { eps: F64(1e-6), shrinking: true };
    let mut state = SolverState::new(
        f64v(&[1.0, 0.5]),
        f64v(&[-2.0, 5.0]),
        vec![true, true],
        kernel,
        f64v(&[1.0, 1.0]),
        params,
        false,
    );
    state.do_shrinking();
    assert_eq!(state.nactive(), 1);
    assert_eq!(state.ntotal(), 2);
    // the free coordinate was swapped into the active prefix
    assert_eq!(state.active_set, vec![1, 0]);
    assert_eq!(state.alpha[0].val().0, 0.5);
    assert_eq!(state.alpha[1].val().0, 1.0);
    assert!(state.unshrink);
}
