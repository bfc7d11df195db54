//! The linear model and its training loop.
//!
//! The executable state holds fixed-point `i64` values; its view
//! [`ModelView`] holds the exact integers they stand for. One epoch of
//! training is the spec function [`epoch_of`]: forward pass, residuals,
//! loss, gradient update, in that order, so the recorded loss always
//! belongs to the parameters as they stood before their latest update.

use vstd::prelude::*;

verus! {

use crate::arith::div_trunc;
use crate::arith::lemma_sd_nonneg;
use crate::arith::lemma_sd_range;
use crate::arith::lemma_sum_bound;
use crate::arith::lemma_sum_nonneg;
use crate::arith::lemma_sum_step;
use crate::arith::sd;
use crate::arith::sum;
use crate::arith::LOSS_BOUND;
use crate::arith::LR_RECIP;
use crate::arith::MAX_LEN;
use crate::arith::SCALE;
use crate::arith::VALUE_BOUND;

/// Why a call was refused.
#[derive(Clone, Copy, Debug, PartialEq, Eq, Structural)]
pub enum Error {
    /// The dataset was empty, longer than [`MAX_LEN`], mismatched in
    /// length, or held a value outside the fixed-point range.
    InvalidInput,
    /// A training epoch would have taken a prediction or a parameter
    /// outside the fixed-point range (the run is diverging).
    OutOfRange,
}

/// The mathematical state of a model: the exact integers that the
/// fixed-point fields of [`LinearRegression`] stand for.
#[verifier::ext_equal]
pub ghost struct ModelView {
    pub x: Seq<int>,
    pub y: Seq<int>,
    pub weight: int,
    pub bias: int,
    pub predictions: Seq<int>,
    pub residuals: Seq<int>,
    pub loss: int,
}

/// The integers that a sequence of fixed-point values stands for.
pub open spec fn ints(s: Seq<i64>) -> Seq<int> {
    s.map_values(|v: i64| v as int)
}

/// An all-zero sequence.
pub open spec fn zeros(n: nat) -> Seq<int> {
    Seq::new(n, |i: int| 0)
}

/// Every element of `s` is at most `bound` in magnitude.
pub open spec fn in_range(s: Seq<int>, bound: int) -> bool {
    forall|i: int| 0 <= i < s.len() ==> -bound <= #[trigger] s[i] <= bound
}

/// Well-formed model state: consistent lengths, and every value within
/// the fixed-point range that training keeps to.
pub open spec fn wf(m: ModelView) -> bool {
    &&& 1 <= m.x.len() <= MAX_LEN
    &&& m.y.len() == m.x.len()
    &&& m.predictions.len() == m.x.len()
    &&& m.residuals.len() == m.x.len()
    &&& in_range(m.x, VALUE_BOUND as int)
    &&& in_range(m.y, VALUE_BOUND as int)
    &&& -VALUE_BOUND <= m.weight <= VALUE_BOUND
    &&& -VALUE_BOUND <= m.bias <= VALUE_BOUND
    &&& in_range(m.predictions, VALUE_BOUND as int)
    &&& in_range(m.residuals, 2 * VALUE_BOUND as int)
    &&& 0 <= m.loss <= LOSS_BOUND
}

/// The forward pass on one observation: `w * x / SCALE + b`, truncating.
pub open spec fn prediction_of(w: int, b: int, xi: int) -> int {
    sd(w * xi, SCALE as int) + b
}

/// The forward pass over the whole dataset.
pub open spec fn predictions_of(w: int, b: int, x: Seq<int>) -> Seq<int> {
    Seq::new(x.len(), |i: int| prediction_of(w, b, x[i]))
}

/// Residuals: prediction minus target, elementwise.
pub open spec fn residuals_of(p: Seq<int>, y: Seq<int>) -> Seq<int> {
    Seq::new(p.len(), |i: int| p[i] - y[i])
}

/// The square of each element.
pub open spec fn squares_of(r: Seq<int>) -> Seq<int> {
    r.map_values(|v: int| v * v)
}

/// Mean squared error of the residuals, in fixed point: each residual
/// carries one factor of `SCALE`, so the sum of squares is divided by
/// `n * SCALE`.
pub open spec fn loss_of(r: Seq<int>, n: int) -> int {
    sd(sum(squares_of(r)), n * SCALE)
}

/// Elementwise product of residuals and features.
pub open spec fn products_of(r: Seq<int>, x: Seq<int>) -> Seq<int> {
    Seq::new(r.len(), |i: int| r[i] * x[i])
}

/// Gradient of the loss with respect to the weight: the mean of
/// `residual * x` (without the textbook factor of 2, which is folded
/// into the learning rate).
pub open spec fn grad_weight_of(r: Seq<int>, x: Seq<int>, n: int) -> int {
    sd(sum(products_of(r, x)), n * SCALE)
}

/// Gradient of the loss with respect to the bias: the mean residual.
pub open spec fn grad_bias_of(r: Seq<int>, n: int) -> int {
    sd(sum(r), n)
}

/// One epoch: forward pass, residuals, loss, then the gradient update,
/// each step reading the one before it. The loss is computed from this
/// epoch's residuals, before the parameters move.
pub open spec fn epoch_of(m: ModelView) -> ModelView {
    let n = m.x.len() as int;
    let p = predictions_of(m.weight, m.bias, m.x);
    let r = residuals_of(p, m.y);
    ModelView {
        x: m.x,
        y: m.y,
        weight: m.weight - sd(grad_weight_of(r, m.x, n), LR_RECIP as int),
        bias: m.bias - sd(grad_bias_of(r, n), LR_RECIP as int),
        predictions: p,
        residuals: r,
        loss: loss_of(r, n),
    }
}

/// Whether one epoch from `m` stays within the fixed-point range.
pub open spec fn epoch_ok(m: ModelView) -> bool {
    &&& in_range(predictions_of(m.weight, m.bias, m.x), VALUE_BOUND as int)
    &&& -VALUE_BOUND <= epoch_of(m).weight <= VALUE_BOUND
    &&& -VALUE_BOUND <= epoch_of(m).bias <= VALUE_BOUND
}

/// `k` epochs, in order.
pub open spec fn train_of(m: ModelView, k: nat) -> ModelView
    decreases k,
{
    if k == 0 {
        m
    } else {
        train_of(epoch_of(m), (k - 1) as nat)
    }
}

/// Whether every one of `k` epochs from `m` stays within the fixed-point
/// range.
pub open spec fn train_ok(m: ModelView, k: nat) -> bool
    decreases k,
{
    k == 0 || (epoch_ok(m) && train_ok(epoch_of(m), (k - 1) as nat))
}

/// A run of `k + 1` epochs is a run of `k` epochs followed by one more.
pub proof fn lemma_train_snoc(m: ModelView, k: nat)
    ensures
        train_of(m, k + 1) == epoch_of(train_of(m, k)),
    decreases k,
{
    if k == 0 {
        assert(train_of(m, 1) == train_of(epoch_of(m), 0));
        assert(train_of(epoch_of(m), 0) == epoch_of(m));
    } else {
        lemma_train_snoc(epoch_of(m), (k - 1) as nat);
        assert(train_of(m, k + 1) == train_of(epoch_of(m), k));
        assert(train_of(m, k) == train_of(epoch_of(m), (k - 1) as nat));
    }
}

/// A run that stays in range stays in range when its last epoch does.
pub proof fn lemma_train_ok_snoc(m: ModelView, k: nat)
    requires
        train_ok(m, k),
        epoch_ok(train_of(m, k)),
    ensures
        train_ok(m, k + 1),
    decreases k,
{
    if k == 0 {
        assert(train_of(m, 0) == m);
        assert(train_ok(epoch_of(m), 0));
        assert(train_ok(m, 1));
    } else {
        lemma_train_ok_snoc(epoch_of(m), (k - 1) as nat);
        assert(train_of(m, k) == train_of(epoch_of(m), (k - 1) as nat));
        assert(train_ok(m, k + 1) == (epoch_ok(m) && train_ok(epoch_of(m), k)));
    }
}

/// Every epoch before the `k`-th of an in-range run is itself in range,
/// and the run up to it is too.
pub proof fn lemma_train_ok_prefix(m: ModelView, k: nat, j: nat)
    requires
        train_ok(m, k),
        j < k,
    ensures
        train_ok(m, j),
        epoch_ok(train_of(m, j)),
    decreases j,
{
    if j > 0 {
        lemma_train_ok_prefix(epoch_of(m), (k - 1) as nat, (j - 1) as nat);
    }
}

/// The mean of squares is never negative.
pub proof fn lemma_loss_of_nonneg(r: Seq<int>, n: int)
    requires
        1 <= n,
    ensures
        0 <= loss_of(r, n),
{
    let sq = squares_of(r);
    assert forall|i: int| 0 <= i < sq.len() implies 0 <= #[trigger] sq[i] by {
        let v = r[i];
        assert(0 <= v * v) by (nonlinear_arith);
    }
    lemma_sum_nonneg(sq);
    lemma_sd_nonneg(sum(sq), n * (SCALE as int));
}

/// An in-range epoch takes a well-formed state to a well-formed state.
pub proof fn lemma_epoch_preserves_wf(m: ModelView)
    requires
        wf(m),
        epoch_ok(m),
    ensures
        wf(epoch_of(m)),
{
    let n = m.x.len() as int;
    let p = predictions_of(m.weight, m.bias, m.x);
    let r = residuals_of(p, m.y);
    assert forall|i: int|
        0 <= i < r.len() implies -2 * VALUE_BOUND <= #[trigger] r[i] <= 2 * VALUE_BOUND by {
        assert(-VALUE_BOUND <= p[i] <= VALUE_BOUND);
        assert(-VALUE_BOUND <= m.y[i] <= VALUE_BOUND);
    }
    let sq = squares_of(r);
    assert forall|i: int|
        0 <= i < sq.len() implies -4_000_000_000_000_000_000_000_000 <= #[trigger] sq[i]
        <= 4_000_000_000_000_000_000_000_000 by {
        let v = r[i];
        assert(-2_000_000_000_000 <= v <= 2_000_000_000_000);
        assert(0 <= v * v <= 4_000_000_000_000_000_000_000_000) by (nonlinear_arith)
            requires
                -2_000_000_000_000 <= v <= 2_000_000_000_000,
        ;
    }
    lemma_sum_bound(sq, 4_000_000_000_000_000_000_000_000);
    assert(n * (SCALE as int) * (LOSS_BOUND as int) == n * 4_000_000_000_000_000_000_000_000)
        by (nonlinear_arith);
    lemma_sd_range(sum(sq), n * (SCALE as int), LOSS_BOUND as int);
    lemma_loss_of_nonneg(r, n);
}

/// The inputs `new` accepts: equal, non-zero lengths within [`MAX_LEN`],
/// and every value (and the initial weight) within the fixed-point range.
pub open spec fn valid_input(x: Seq<int>, y: Seq<int>, w0: int) -> bool {
    &&& x.len() == y.len()
    &&& 1 <= x.len() <= MAX_LEN
    &&& in_range(x, VALUE_BOUND as int)
    &&& in_range(y, VALUE_BOUND as int)
    &&& -VALUE_BOUND <= w0 <= VALUE_BOUND
}

/// The state of a freshly built model: the given initial weight, zero
/// bias, zero scratch sequences, zero loss.
pub open spec fn initial_of(x: Seq<int>, y: Seq<int>, w0: int) -> ModelView {
    ModelView {
        x: x,
        y: y,
        weight: w0,
        bias: 0,
        predictions: zeros(x.len()),
        residuals: zeros(x.len()),
        loss: 0,
    }
}

/// A univariate linear model `y = w * x + b`, trained by batch gradient
/// descent on mean-squared error over a fixed dataset.
pub struct LinearRegression {
    x_train: Vec<i64>,
    y_train: Vec<i64>,
    weight: i64,
    bias: i64,
    y_pred: Vec<i64>,
    residual: Vec<i64>,
    error: i64,
}

impl View for LinearRegression {
    type V = ModelView;

    closed spec fn view(&self) -> ModelView {
        ModelView {
            x: ints(self.x_train@),
            y: ints(self.y_train@),
            weight: self.weight as int,
            bias: self.bias as int,
            predictions: ints(self.y_pred@),
            residuals: ints(self.residual@),
            loss: self.error as int,
        }
    }
}

/// A vector of `n` zeros.
fn zero_vec(n: usize) -> (v: Vec<i64>)
    ensures
        ints(v@) == zeros(n as nat),
{
    let mut v: Vec<i64> = Vec::new();
    let mut i: usize = 0;
    while i < n
        invariant
            i <= n,
            v@.len() == i,
            forall|j: int| 0 <= j < i ==> v@[j] == 0i64,
        decreases n - i,
    {
        v.push(0);
        i = i + 1;
    }
    proof {
        assert(ints(v@) =~= zeros(n as nat));
    }
    v
}

/// Whether every element is at most [`VALUE_BOUND`] in magnitude.
fn check_in_range(v: &Vec<i64>) -> (r: bool)
    ensures
        r == in_range(ints(v@), VALUE_BOUND as int),
{
    let mut i: usize = 0;
    while i < v.len()
        invariant
            i <= v@.len(),
            forall|j: int|
                0 <= j < i ==> -VALUE_BOUND <= #[trigger] ints(v@)[j] <= VALUE_BOUND,
        decreases v@.len() - i,
    {
        let vi: i64 = v[i];
        if vi < -VALUE_BOUND || vi > VALUE_BOUND {
            proof {
                assert(ints(v@)[i as int] == vi as int);
            }
            return false;
        }
        i = i + 1;
    }
    true
}

impl LinearRegression {
    /// Builds a model over the dataset `(x_train, y_train)`.
    ///
    /// `initial_weight` is the starting weight in fixed-point form; the
    /// caller draws it (for instance from a normal distribution with mean
    /// 0 and standard deviation 0.01), so that the same draw gives the
    /// same run. The bias starts at zero and the learning rate is fixed
    /// at `1 / LR_RECIP`. Mismatched or empty inputs, or values outside
    /// the fixed-point range, are refused with [`Error::InvalidInput`].
    pub fn new(x_train: Vec<i64>, y_train: Vec<i64>, initial_weight: i64) -> (r: Result<
        LinearRegression,
        Error,
    >)
        ensures
            match r {
                Ok(m) => valid_input(ints(x_train@), ints(y_train@), initial_weight as int)
                    && m@ == initial_of(ints(x_train@), ints(y_train@), initial_weight as int)
                    && wf(m@),
                Err(e) => e == Error::InvalidInput && !valid_input(
                    ints(x_train@),
                    ints(y_train@),
                    initial_weight as int,
                ),
            },
    {
        if x_train.len() != y_train.len() || x_train.len() == 0 || x_train.len() > MAX_LEN {
            return Err(Error::InvalidInput);
        }
        if initial_weight < -VALUE_BOUND || initial_weight > VALUE_BOUND {
            return Err(Error::InvalidInput);
        }
        if !check_in_range(&x_train) {
            return Err(Error::InvalidInput);
        }
        if !check_in_range(&y_train) {
            return Err(Error::InvalidInput);
        }
        let n: usize = x_train.len();
        let y_pred = zero_vec(n);
        let residual = zero_vec(n);
        let m = LinearRegression {
            x_train,
            y_train,
            weight: initial_weight,
            bias: 0,
            y_pred,
            residual,
            error: 0,
        };
        proof {
            assert(m@ =~= initial_of(ints(m.x_train@), ints(m.y_train@), initial_weight as int));
            assert forall|j: int| 0 <= j < n implies -VALUE_BOUND <= #[trigger] zeros(
                n as nat,
            )[j] <= VALUE_BOUND by {}
        }
        Ok(m)
    }

    /// One training epoch: forward pass, residuals, loss, gradient
    /// update, committed only if every intermediate stays in range;
    /// otherwise the state is left as it was.
    fn run_epoch(&mut self) -> (r: Result<(), Error>)
        requires
            wf(old(self)@),
        ensures
            wf(final(self)@),
            match r {
                Ok(()) => epoch_ok(old(self)@) && final(self)@ == epoch_of(old(self)@),
                Err(e) => e == Error::OutOfRange && !epoch_ok(old(self)@) && final(self)@ == old(
                    self,
                )@,
            },
    {
        let ghost m = self@;
        let ghost pspec = predictions_of(m.weight, m.bias, m.x);
        let ghost rspec = residuals_of(pspec, m.y);
        let ghost nn: int = m.x.len() as int;

        let n: usize = self.x_train.len();
        let w128: i128 = self.weight as i128;
        let b128: i128 = self.bias as i128;
        let mut preds: Vec<i64> = Vec::new();
        let mut res: Vec<i64> = Vec::new();
        let mut acc_sq: i128 = 0;
        let mut acc_w: i128 = 0;
        let mut acc_b: i128 = 0;
        let mut i: usize = 0;
        while i < n
            invariant
                wf(m),
                self@ == m,
                pspec == predictions_of(m.weight, m.bias, m.x),
                rspec == residuals_of(pspec, m.y),
                n == m.x.len(),
                w128 == m.weight,
                b128 == m.bias,
                i <= n,
                preds@.len() == i,
                res@.len() == i,
                forall|j: int| 0 <= j < i ==> ints(preds@)[j] == pspec[j],
                forall|j: int| 0 <= j < i ==> -VALUE_BOUND <= #[trigger] pspec[j] <= VALUE_BOUND,
                forall|j: int| 0 <= j < i ==> ints(res@)[j] == rspec[j],
                acc_sq == sum(squares_of(rspec).subrange(0, i as int)),
                acc_w == sum(products_of(rspec, m.x).subrange(0, i as int)),
                acc_b == sum(rspec.subrange(0, i as int)),
                0 <= acc_sq <= i * 4_000_000_000_000_000_000_000_000,
                -(i * 2_000_000_000_000_000_000_000_000) <= acc_w <= i
                    * 2_000_000_000_000_000_000_000_000,
                -(i * 2_000_000_000_000) <= acc_b <= i * 2_000_000_000_000,
            decreases n - i,
        {
            let xi: i64 = self.x_train[i];
            let yi: i64 = self.y_train[i];
            proof {
                assert(m.x[i as int] == xi as int);
                assert(m.y[i as int] == yi as int);
                assert(-VALUE_BOUND <= m.x[i as int] <= VALUE_BOUND);
                assert(-VALUE_BOUND <= m.y[i as int] <= VALUE_BOUND);
                assert(-1_000_000_000_000_000_000_000_000 <= (w128 as int) * (xi as int)
                    <= 1_000_000_000_000_000_000_000_000) by (nonlinear_arith)
                    requires
                        -1_000_000_000_000 <= w128 as int <= 1_000_000_000_000,
                        -1_000_000_000_000 <= xi as int <= 1_000_000_000_000,
                ;
            }
            let prod: i128 = w128 * (xi as i128);
            let q: i128 = div_trunc(prod, SCALE as i128);
            proof {
                lemma_sd_range(prod as int, SCALE as int, 1_000_000_000_000_000_000);
            }
            let p128: i128 = q + b128;
            if p128 < -(VALUE_BOUND as i128) || p128 > VALUE_BOUND as i128 {
                proof {
                    assert(pspec[i as int] == p128 as int);
                    assert(!in_range(pspec, VALUE_BOUND as int));
                }
                return Err(Error::OutOfRange);
            }
            let p: i64 = p128 as i64;
            let r_i: i64 = p - yi;
            preds.push(p);
            res.push(r_i);
            let r128: i128 = r_i as i128;
            proof {
                assert(pspec[i as int] == p as int);
                assert(rspec[i as int] == r_i as int);
                assert(0 <= (r128 as int) * (r128 as int) <= 4_000_000_000_000_000_000_000_000)
                    by (nonlinear_arith)
                    requires
                        -2_000_000_000_000 <= r128 as int <= 2_000_000_000_000,
                ;
                assert(-2_000_000_000_000_000_000_000_000 <= (r128 as int) * (xi as int)
                    <= 2_000_000_000_000_000_000_000_000) by (nonlinear_arith)
                    requires
                        -2_000_000_000_000 <= r128 as int <= 2_000_000_000_000,
                        -1_000_000_000_000 <= xi as int <= 1_000_000_000_000,
                ;
                lemma_sum_step(squares_of(rspec), i as int);
                lemma_sum_step(products_of(rspec, m.x), i as int);
                lemma_sum_step(rspec, i as int);
                assert(squares_of(rspec)[i as int] == (r128 as int) * (r128 as int));
                assert(products_of(rspec, m.x)[i as int] == (r128 as int) * (xi as int));
            }
            acc_sq = acc_sq + r128 * r128;
            acc_w = acc_w + r128 * (xi as i128);
            acc_b = acc_b + r128;
            i = i + 1;
            proof {
                assert(forall|j: int|
                    0 <= j < i - 1 ==> ints(preds@)[j] == ints(preds@.subrange(0, i - 1))[j]);
            }
        }
        proof {
            assert(squares_of(rspec).subrange(0, n as int) =~= squares_of(rspec));
            assert(products_of(rspec, m.x).subrange(0, n as int) =~= products_of(rspec, m.x));
            assert(rspec.subrange(0, n as int) =~= rspec);
            assert(ints(preds@) =~= pspec);
            assert(ints(res@) =~= rspec);
        }
        let n_s: i128 = (n as i128) * (SCALE as i128);
        proof {
            assert(n_s as int == nn * (SCALE as int));
            assert((nn * (SCALE as int)) * (LOSS_BOUND as int) == nn
                * 4_000_000_000_000_000_000_000_000) by (nonlinear_arith);
            lemma_sd_range(acc_sq as int, n_s as int, LOSS_BOUND as int);
            lemma_sd_nonneg(acc_sq as int, n_s as int);
        }
        let loss128: i128 = div_trunc(acc_sq, n_s);
        let loss: i64 = loss128 as i64;
        proof {
            assert((nn * (SCALE as int)) * 2_000_000_000_000_000_000 == nn
                * 2_000_000_000_000_000_000_000_000) by (nonlinear_arith);
        }
        let gw: i128 = div_trunc(acc_w, n_s);
        proof {
            lemma_sd_range(acc_w as int, n_s as int, 2_000_000_000_000_000_000);
            lemma_sd_range(gw as int, LR_RECIP as int, 20_000_000_000_000_000);
        }
        let step_w: i128 = div_trunc(gw, LR_RECIP as i128);
        let new_w128: i128 = w128 - step_w;
        let gb: i128 = div_trunc(acc_b, n as i128);
        proof {
            lemma_sd_range(acc_b as int, nn, 2_000_000_000_000);
            lemma_sd_range(gb as int, LR_RECIP as int, 20_000_000_000);
        }
        let step_b: i128 = div_trunc(gb, LR_RECIP as i128);
        let new_b128: i128 = b128 - step_b;
        proof {
            assert(loss128 as int == loss_of(rspec, nn));
            assert(gw as int == grad_weight_of(rspec, m.x, nn));
            assert(gb as int == grad_bias_of(rspec, nn));
            assert(new_w128 as int == epoch_of(m).weight);
            assert(new_b128 as int == epoch_of(m).bias);
        }
        if new_w128 < -(VALUE_BOUND as i128) || new_w128 > VALUE_BOUND as i128 || new_b128 < -(
        VALUE_BOUND as i128) || new_b128 > VALUE_BOUND as i128 {
            return Err(Error::OutOfRange);
        }
        proof {
            assert(in_range(pspec, VALUE_BOUND as int));
            assert(epoch_ok(m));
        }
        self.weight = new_w128 as i64;
        self.bias = new_b128 as i64;
        self.y_pred = preds;
        self.residual = res;
        self.error = loss;
        proof {
            assert(self@ =~= epoch_of(m));
            lemma_epoch_preserves_wf(m);
        }
        Ok(())
    }

    /// Runs `epoch` training epochs in order; a count of zero or less is
    /// a no-op, as iterating an empty range is. Each epoch runs the
    /// forward pass, the residuals, the loss and the gradient update, in
    /// that order, so the reported loss belongs to the parameters as they
    /// stood before their last update. Training stops with
    /// [`Error::OutOfRange`] at the first epoch that would leave the
    /// fixed-point range, leaving the state at the last completed epoch.
    pub fn train(&mut self, epoch: i32) -> (r: Result<(), Error>)
        requires
            wf(old(self)@),
        ensures
            wf(final(self)@),
            ({
                let k = if epoch <= 0 {
                    0nat
                } else {
                    epoch as nat
                };
                match r {
                    Ok(()) => train_ok(old(self)@, k) && final(self)@ == train_of(old(self)@, k),
                    Err(e) => {
                        &&& e == Error::OutOfRange
                        &&& !train_ok(old(self)@, k)
                        &&& exists|j: nat|
                            j < k && #[trigger] train_ok(old(self)@, j) && !epoch_ok(
                                train_of(old(self)@, j),
                            ) && final(self)@ == train_of(old(self)@, j)
                    },
                }
            }),
    {
        let ghost m0 = self@;
        let ghost k: nat = if epoch <= 0 {
            0nat
        } else {
            epoch as nat
        };
        let mut i: i32 = 0;
        while i < epoch
            invariant
                m0 == old(self)@,
                k == (if epoch <= 0 {
                    0nat
                } else {
                    epoch as nat
                }),
                0 <= i,
                epoch > 0 ==> i <= epoch,
                epoch <= 0 ==> i == 0,
                wf(self@),
                self@ == train_of(m0, i as nat),
                train_ok(m0, i as nat),
            decreases epoch - i,
        {
            match self.run_epoch() {
                Ok(()) => {
                    proof {
                        lemma_train_snoc(m0, i as nat);
                        lemma_train_ok_snoc(m0, i as nat);
                    }
                    i = i + 1;
                },
                Err(e) => {
                    proof {
                        assert(!epoch_ok(train_of(m0, i as nat)));
                        if train_ok(m0, k) {
                            lemma_train_ok_prefix(m0, k, i as nat);
                            assert(false);
                        }
                        assert(i < k);
                    }
                    return Err(e);
                },
            }
        }
        Ok(())
    }

    /// Current weight, in fixed-point form.
    pub fn weight(&self) -> (w: i64)
        ensures
            w as int == self@.weight,
    {
        self.weight
    }

    /// Current bias, in fixed-point form.
    pub fn bias(&self) -> (b: i64)
        ensures
            b as int == self@.bias,
    {
        self.bias
    }

    /// Mean squared error recorded by the latest epoch (zero before any
    /// epoch has run), in fixed-point form.
    pub fn error(&self) -> (e: i64)
        ensures
            e as int == self@.loss,
    {
        self.error
    }

    /// Number of observations in the dataset.
    pub fn len(&self) -> (n: usize)
        ensures
            n as int == self@.x.len(),
    {
        self.x_train.len()
    }

    /// Predictions from the latest epoch's forward pass.
    pub fn predictions(&self) -> (p: &Vec<i64>)
        ensures
            ints(p@) == self@.predictions,
    {
        &self.y_pred
    }

    /// Residuals (prediction minus target) from the latest epoch.
    pub fn residuals(&self) -> (q: &Vec<i64>)
        ensures
            ints(q@) == self@.residuals,
    {
        &self.residual
    }

    /// The features the model was built over.
    pub fn features(&self) -> (f: &Vec<i64>)
        ensures
            ints(f@) == self@.x,
    {
        &self.x_train
    }

    /// The targets the model was built over.
    pub fn targets(&self) -> (t: &Vec<i64>)
        ensures
            ints(t@) == self@.y,
    {
        &self.y_train
    }
}

} // verus!
