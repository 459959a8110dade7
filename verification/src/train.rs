//! Full-batch gradient descent on mean squared error for the affine model.
//!
//! One epoch over rows `(x_i, y_i)` with parameters `(w, b)` and learning
//! rate `lr` (all in micro-units) computes, with truncating fixed-point
//! division at each scaling point:
//!   - per-row errors `e_i = pred(w, b, x_i) - y_i`,
//!   - gradients `dw = (2/n) * sum(e_i * x_i)` and `db = (2/n) * sum(e_i)`,
//!   - updates `w - lr*dw` and `b - lr*db`.
//! A step fails exactly when an error, a gradient or an updated parameter
//! leaves its representable range, or when the dataset is empty.

use vstd::prelude::*;
use vstd::arithmetic::div_mod::lemma_div_of0;
use crate::error::Error;
use crate::fixed::{div_t, div_trunc, lemma_div_t_bound, Fx, LIM, SCALE};
use crate::model::{pred_m, Params};

verus! {

/// Most rows a dataset may hold (keeps every epoch's sums in range).
pub const NMAX: usize = 1_000_000_000;

/// Largest per-row error magnitude, in micro-units, that a step accepts.
pub const EBOUND: i128 = 100_000_000_000_000;

/// Largest gradient magnitude, in micro-units, that a step accepts.
pub const DBOUND: i128 = 1_000_000_000_000_000_000;

/// The signed error of the model on one row, in micro-units.
pub open spec fn err_m(w: int, b: int, x: int, y: int) -> int {
    pred_m(w, b, x) - y
}

/// Sum of `e_i * x_i` over the first `k` rows.
pub open spec fn sum_we(w: int, b: int, xs: Seq<int>, ys: Seq<int>, k: int) -> int
    decreases k,
{
    if k <= 0 {
        0
    } else {
        sum_we(w, b, xs, ys, k - 1) + err_m(w, b, xs[k - 1], ys[k - 1]) * xs[k - 1]
    }
}

/// Sum of `e_i` over the first `k` rows.
pub open spec fn sum_e(w: int, b: int, xs: Seq<int>, ys: Seq<int>, k: int) -> int
    decreases k,
{
    if k <= 0 {
        0
    } else {
        sum_e(w, b, xs, ys, k - 1) + err_m(w, b, xs[k - 1], ys[k - 1])
    }
}

/// Sum of `e_i * e_i` over the first `k` rows.
pub open spec fn sum_sq(w: int, b: int, xs: Seq<int>, ys: Seq<int>, k: int) -> int
    decreases k,
{
    if k <= 0 {
        0
    } else {
        sum_sq(w, b, xs, ys, k - 1) + err_m(w, b, xs[k - 1], ys[k - 1]) * err_m(
            w,
            b,
            xs[k - 1],
            ys[k - 1],
        )
    }
}

/// Every row's error stays within the accepted magnitude.
pub open spec fn errs_ok(w: int, b: int, xs: Seq<int>, ys: Seq<int>) -> bool {
    forall|i: int|
        0 <= i < xs.len() ==> -(EBOUND as int) <= #[trigger] err_m(w, b, xs[i], ys[i]) <= EBOUND
            as int
}

/// The weight gradient `(2/n) * sum(e_i * x_i)`, in micro-units.
pub open spec fn dw_raw(w: int, b: int, xs: Seq<int>, ys: Seq<int>) -> int {
    div_t(2 * sum_we(w, b, xs, ys, xs.len() as int), xs.len() * (SCALE as int))
}

/// The bias gradient `(2/n) * sum(e_i)`, in micro-units. The errors are
/// already micro-valued, so only the row count divides here; the weight
/// gradient's summands are products of two micro values, so it scales
/// down by `SCALE` as well.
pub open spec fn db_raw(w: int, b: int, xs: Seq<int>, ys: Seq<int>) -> int {
    div_t(2 * sum_e(w, b, xs, ys, xs.len() as int), xs.len() as int)
}

/// The weight after one gradient step.
pub open spec fn step_w(w: int, b: int, xs: Seq<int>, ys: Seq<int>, lr: int) -> int {
    w - div_t(lr * dw_raw(w, b, xs, ys), SCALE as int)
}

/// The bias after one gradient step.
pub open spec fn step_b(w: int, b: int, xs: Seq<int>, ys: Seq<int>, lr: int) -> int {
    b - div_t(lr * db_raw(w, b, xs, ys), SCALE as int)
}

/// One epoch of gradient descent on a nonempty dataset: the updated
/// `(weight, bias)` pair, or `None` when an error, a gradient or an updated
/// parameter leaves its representable range.
pub open spec fn step_res(w: int, b: int, xs: Seq<int>, ys: Seq<int>, lr: int) -> Option<(int, int)>
    recommends
        xs.len() == ys.len(),
        xs.len() > 0,
{
    if errs_ok(w, b, xs, ys) && -(DBOUND as int) <= dw_raw(w, b, xs, ys) <= DBOUND as int && -(
    DBOUND as int) <= db_raw(w, b, xs, ys) <= DBOUND as int && -(LIM as int) <= step_w(
        w,
        b,
        xs,
        ys,
        lr,
    ) <= LIM as int && -(LIM as int) <= step_b(w, b, xs, ys, lr) <= LIM as int {
        Some((step_w(w, b, xs, ys, lr), step_b(w, b, xs, ys, lr)))
    } else {
        None
    }
}

/// Exactly `epochs` gradient steps from `(w, b)`: the final pair, or `None`
/// when the dataset is empty (with at least one epoch to run) or some step
/// overflows.
pub open spec fn train_res(
    w: int,
    b: int,
    xs: Seq<int>,
    ys: Seq<int>,
    lr: int,
    epochs: nat,
) -> Option<(int, int)>
    decreases epochs,
{
    if epochs == 0 {
        Some((w, b))
    } else if xs.len() == 0 {
        None
    } else {
        match step_res(w, b, xs, ys, lr) {
            Option::None => Option::None,
            Option::Some(wb) => train_res(wb.0, wb.1, xs, ys, lr, (epochs - 1) as nat),
        }
    }
}

/// The mean squared error `(1/n) * sum(e_i^2)` of the model on a nonempty
/// dataset, in micro-units; `None` when a row's error or the loss itself
/// leaves its representable range.
pub open spec fn loss_res(w: int, b: int, xs: Seq<int>, ys: Seq<int>) -> Option<int>
    recommends
        xs.len() == ys.len(),
        xs.len() > 0,
{
    let l = div_t(sum_sq(w, b, xs, ys, xs.len() as int), xs.len() * (SCALE as int));
    if errs_ok(w, b, xs, ys) && l <= LIM as int {
        Some(l)
    } else {
        None
    }
}

/// An ordered dataset of `(bmi, life expectancy)` rows, held as two
/// equal-length columns.
#[derive(Debug)]
pub struct Dataset {
    pub(crate) xs: Vec<Fx>,
    pub(crate) ys: Vec<Fx>,
}

impl Dataset {
    /// The feature column, in micro-units.
    pub open(crate) spec fn xs_m(self) -> Seq<int> {
        self.xs@.map(|i: int, f: Fx| f.m())
    }

    /// The label column, in micro-units.
    pub open(crate) spec fn ys_m(self) -> Seq<int> {
        self.ys@.map(|i: int, f: Fx| f.m())
    }

    /// Both columns have one entry per row, at most `NMAX` rows, and every
    /// entry is a well-formed fixed-point value.
    pub open(crate) spec fn wf(self) -> bool {
        &&& self.xs@.len() == self.ys@.len()
        &&& self.xs@.len() <= NMAX
        &&& forall|i: int| 0 <= i < self.xs@.len() ==> (#[trigger] self.xs@[i]).wf()
        &&& forall|i: int| 0 <= i < self.ys@.len() ==> (#[trigger] self.ys@[i]).wf()
    }

    /// An empty dataset.
    pub fn new() -> (r: Dataset)
        ensures
            r.wf(),
            r.xs_m() == Seq::<int>::empty(),
            r.ys_m() == Seq::<int>::empty(),
    {
        let r = Dataset { xs: Vec::new(), ys: Vec::new() };
        proof {
            assert(r.xs_m() =~= Seq::<int>::empty());
            assert(r.ys_m() =~= Seq::<int>::empty());
        }
        r
    }

    /// Number of rows.
    pub fn len(&self) -> (n: usize)
        ensures
            n == self.xs_m().len(),
    {
        self.xs.len()
    }

    /// Appends one row, preserving order; refused (returning `false` and
    /// changing nothing) only when the dataset already holds `NMAX` rows.
    pub fn push_row(&mut self, x: Fx, y: Fx) -> (r: bool)
        requires
            old(self).wf(),
            x.wf(),
            y.wf(),
        ensures
            final(self).wf(),
            r == (old(self).xs_m().len() < NMAX),
            r ==> final(self).xs_m() == old(self).xs_m().push(x.m()) && final(self).ys_m() == old(
                self,
            ).ys_m().push(y.m()),
            !r ==> final(self).xs_m() == old(self).xs_m() && final(self).ys_m() == old(
                self,
            ).ys_m(),
    {
        if self.xs.len() < NMAX {
            self.xs.push(x);
            self.ys.push(y);
            proof {
                assert(self.xs_m() =~= old(self).xs_m().push(x.m()));
                assert(self.ys_m() =~= old(self).ys_m().push(y.m()));
            }
            true
        } else {
            false
        }
    }
}

/// One epoch of full-batch gradient descent, exactly as `step_res` states
/// it: `Err(EmptyDataset)` on an empty dataset, `Err(Overflow)` when the
/// step overflows, and otherwise the updated parameters.
#[verifier::loop_isolation(false)]
pub fn epoch_step(p: Params, data: &Dataset, lr: Fx) -> (r: Result<Params, Error>)
    requires
        p.wf(),
        data.wf(),
        lr.wf(),
    ensures
        data.xs_m().len() == 0 <==> r == Err::<Params, Error>(Error::EmptyDataset),
        data.xs_m().len() > 0 ==> (step_res(p.w_m(), p.b_m(), data.xs_m(), data.ys_m(), lr.m())
            matches Some(wb) ==> (r matches Ok(q) && q.w_m() == wb.0 && q.b_m() == wb.1
            && q.wf())),
        data.xs_m().len() > 0 ==> (step_res(p.w_m(), p.b_m(), data.xs_m(), data.ys_m(), lr.m())
            is None ==> r == Err::<Params, Error>(Error::Overflow)),
{
    let n = data.xs.len();
    if n == 0 {
        return Err(Error::EmptyDataset);
    }
    let ghost xsm = data.xs_m();
    let ghost ysm = data.ys_m();
    let ghost wg = p.w_m();
    let ghost bg = p.b_m();
    let w: i128 = p.weight.micros as i128;
    let b: i128 = p.bias.micros as i128;
    let lrm: i128 = lr.micros as i128;
    let mut swe: i128 = 0;
    let mut se: i128 = 0;
    let mut i: usize = 0;
    while i < n
        invariant
            i <= n,
            swe == sum_we(wg, bg, xsm, ysm, i as int),
            se == sum_e(wg, bg, xsm, ysm, i as int),
            forall|j: int|
                0 <= j < i ==> -(EBOUND as int) <= #[trigger] err_m(wg, bg, xsm[j], ysm[j])
                    <= EBOUND as int,
            -(i as int) * ((EBOUND as int) * (LIM as int)) <= swe <= (i as int) * ((EBOUND as int)
                * (LIM as int)),
            -(i as int) * (EBOUND as int) <= se <= (i as int) * (EBOUND as int),
        decreases n - i,
    {
        let x: i128 = data.xs[i].micros as i128;
        let y: i128 = data.ys[i].micros as i128;
        proof {
            assert(data.xs@[i as int].wf());
            assert(data.ys@[i as int].wf());
            assert(-(LIM as int) * (LIM as int) <= w * x <= (LIM as int) * (LIM as int))
                by (nonlinear_arith)
                requires
                    -(LIM as int) <= w <= LIM as int,
                    -(LIM as int) <= x <= LIM as int,
            ;
        }
        let wx: i128 = w * x;
        let q = div_trunc(wx, SCALE as i128);
        proof {
            lemma_div_t_bound(wx as int, SCALE as int);
        }
        let e: i128 = q + b - y;
        assert(e == err_m(wg, bg, xsm[i as int], ysm[i as int]));
        if e > EBOUND || e < -EBOUND {
            proof {
                assert(!errs_ok(wg, bg, xsm, ysm));
            }
            return Err(Error::Overflow);
        }
        proof {
            assert(-((EBOUND as int) * (LIM as int)) <= e * x <= (EBOUND as int) * (LIM as int))
                by (nonlinear_arith)
                requires
                    -(EBOUND as int) <= e <= EBOUND as int,
                    -(LIM as int) <= x <= LIM as int,
            ;
        }
        swe = swe + e * x;
        se = se + e;
        i = i + 1;
        proof {
            assert(swe == sum_we(wg, bg, xsm, ysm, i as int));
            assert(se == sum_e(wg, bg, xsm, ysm, i as int));
        }
    }
    assert(errs_ok(wg, bg, xsm, ysm));
    let ns: i128 = (n as i128) * (SCALE as i128);
    let dw = div_trunc(2 * swe, ns);
    let db = div_trunc(2 * se, n as i128);
    assert(dw == dw_raw(wg, bg, xsm, ysm));
    assert(db == db_raw(wg, bg, xsm, ysm));
    if dw > DBOUND || dw < -DBOUND || db > DBOUND || db < -DBOUND {
        return Err(Error::Overflow);
    }
    proof {
        assert(-((LIM as int) * (DBOUND as int)) <= lrm * dw <= (LIM as int) * (DBOUND as int))
            by (nonlinear_arith)
            requires
                -(LIM as int) <= lrm <= LIM as int,
                -(DBOUND as int) <= dw <= DBOUND as int,
        ;
        assert(-((LIM as int) * (DBOUND as int)) <= lrm * db <= (LIM as int) * (DBOUND as int))
            by (nonlinear_arith)
            requires
                -(LIM as int) <= lrm <= LIM as int,
                -(DBOUND as int) <= db <= DBOUND as int,
        ;
    }
    let lw: i128 = lrm * dw;
    let lb: i128 = lrm * db;
    proof {
        lemma_div_t_bound(lw as int, SCALE as int);
        lemma_div_t_bound(lb as int, SCALE as int);
    }
    let uw = div_trunc(lw, SCALE as i128);
    let ub = div_trunc(lb, SCALE as i128);
    let nw: i128 = w - uw;
    let nb: i128 = b - ub;
    if nw > LIM as i128 || nw < -(LIM as i128) || nb > LIM as i128 || nb < -(LIM as i128) {
        return Err(Error::Overflow);
    }
    Ok(Params { weight: Fx { micros: nw as i64 }, bias: Fx { micros: nb as i64 } })
}

/// Exactly `epochs` epochs of gradient descent, as `train_res` states it.
/// Zero epochs return the initial parameters unchanged.
#[verifier::loop_isolation(false)]
pub fn train(p: Params, data: &Dataset, lr: Fx, epochs: u64) -> (r: Result<Params, Error>)
    requires
        p.wf(),
        data.wf(),
        lr.wf(),
    ensures
        (epochs > 0 && data.xs_m().len() == 0) <==> r == Err::<Params, Error>(Error::EmptyDataset),
        epochs == 0 ==> r == Ok::<Params, Error>(p),
        train_res(p.w_m(), p.b_m(), data.xs_m(), data.ys_m(), lr.m(), epochs as nat)
            matches Some(wb) ==> (r matches Ok(q) && q.w_m() == wb.0 && q.b_m() == wb.1
            && q.wf()),
        data.xs_m().len() > 0 ==> (train_res(p.w_m(), p.b_m(), data.xs_m(), data.ys_m(), lr.m(),
        epochs as nat) is None ==> r == Err::<Params, Error>(Error::Overflow)),
{
    let ghost xsm = data.xs_m();
    let ghost ysm = data.ys_m();
    if epochs == 0 {
        return Ok(p);
    }
    if data.len() == 0 {
        return Err(Error::EmptyDataset);
    }
    let mut cur = p;
    let mut k: u64 = 0;
    while k < epochs
        invariant
            k <= epochs,
            cur.wf(),
            train_res(p.w_m(), p.b_m(), xsm, ysm, lr.m(), epochs as nat) == train_res(
                cur.w_m(),
                cur.b_m(),
                xsm,
                ysm,
                lr.m(),
                (epochs - k) as nat,
            ),
        decreases epochs - k,
    {
        match epoch_step(cur, data, lr) {
            Ok(q) => {
                proof {
                    assert(train_res(cur.w_m(), cur.b_m(), xsm, ysm, lr.m(), (epochs - k) as nat)
                        == train_res(q.w_m(), q.b_m(), xsm, ysm, lr.m(), (epochs - k - 1) as nat));
                }
                cur = q;
                k = k + 1;
            },
            Err(_) => {
                proof {
                    assert(train_res(cur.w_m(), cur.b_m(), xsm, ysm, lr.m(), (epochs - k) as nat)
                        is None);
                }
                return Err(Error::Overflow);
            },
        }
    }
    Ok(cur)
}

/// The mean squared error of the model on the dataset, exactly as
/// `loss_res` states it.
#[verifier::loop_isolation(false)]
pub fn mse_loss(p: Params, data: &Dataset) -> (r: Result<Fx, Error>)
    requires
        p.wf(),
        data.wf(),
    ensures
        data.xs_m().len() == 0 <==> r == Err::<Fx, Error>(Error::EmptyDataset),
        data.xs_m().len() > 0 ==> (loss_res(p.w_m(), p.b_m(), data.xs_m(), data.ys_m())
            matches Some(l) ==> (r matches Ok(f) && f.m() == l && f.wf())),
        data.xs_m().len() > 0 ==> (loss_res(p.w_m(), p.b_m(), data.xs_m(), data.ys_m()) is None
            ==> r == Err::<Fx, Error>(Error::Overflow)),
{
    let n = data.xs.len();
    if n == 0 {
        return Err(Error::EmptyDataset);
    }
    let ghost xsm = data.xs_m();
    let ghost ysm = data.ys_m();
    let ghost wg = p.w_m();
    let ghost bg = p.b_m();
    let w: i128 = p.weight.micros as i128;
    let b: i128 = p.bias.micros as i128;
    let mut ssq: i128 = 0;
    let mut i: usize = 0;
    while i < n
        invariant
            i <= n,
            ssq == sum_sq(wg, bg, xsm, ysm, i as int),
            forall|j: int|
                0 <= j < i ==> -(EBOUND as int) <= #[trigger] err_m(wg, bg, xsm[j], ysm[j])
                    <= EBOUND as int,
            0 <= ssq <= (i as int) * ((EBOUND as int) * (EBOUND as int)),
        decreases n - i,
    {
        let x: i128 = data.xs[i].micros as i128;
        let y: i128 = data.ys[i].micros as i128;
        proof {
            assert(data.xs@[i as int].wf());
            assert(data.ys@[i as int].wf());
            assert(-(LIM as int) * (LIM as int) <= w * x <= (LIM as int) * (LIM as int))
                by (nonlinear_arith)
                requires
                    -(LIM as int) <= w <= LIM as int,
                    -(LIM as int) <= x <= LIM as int,
            ;
        }
        let wx: i128 = w * x;
        let q = div_trunc(wx, SCALE as i128);
        proof {
            lemma_div_t_bound(wx as int, SCALE as int);
        }
        let e: i128 = q + b - y;
        assert(e == err_m(wg, bg, xsm[i as int], ysm[i as int]));
        if e > EBOUND || e < -EBOUND {
            proof {
                assert(!errs_ok(wg, bg, xsm, ysm));
            }
            return Err(Error::Overflow);
        }
        proof {
            assert(0 <= e * e <= (EBOUND as int) * (EBOUND as int)) by (nonlinear_arith)
                requires
                    -(EBOUND as int) <= e <= EBOUND as int,
            ;
        }
        ssq = ssq + e * e;
        i = i + 1;
        proof {
            assert(ssq == sum_sq(wg, bg, xsm, ysm, i as int));
        }
    }
    assert(errs_ok(wg, bg, xsm, ysm));
    let ns: i128 = (n as i128) * (SCALE as i128);
    let l = div_trunc(ssq, ns);
    proof {
        lemma_div_t_bound(ssq as int, ns as int);
    }
    if l > LIM as i128 {
        return Err(Error::Overflow);
    }
    Ok(Fx { micros: l as i64 })
}

/// When every sampled feature is zero, the per-row terms `e_i * x_i` all
/// vanish, so the summed weight gradient is zero over any prefix.
proof fn lemma_sum_we_zero(w: int, b: int, xs: Seq<int>, ys: Seq<int>, k: int)
    requires
        k <= xs.len(),
        forall|i: int| 0 <= i < xs.len() ==> xs[i] == 0,
    ensures
        sum_we(w, b, xs, ys, k) == 0,
    decreases k,
{
    if k > 0 {
        lemma_sum_we_zero(w, b, xs, ys, k - 1);
    }
}

/// Sums of vanished errors vanish: when every feature is zero and every
/// label equals the bias, each row's error is zero, and so is any prefix
/// sum of them.
proof fn lemma_sum_e_zero(w: int, b: int, xs: Seq<int>, ys: Seq<int>, k: int)
    requires
        k <= xs.len(),
        xs.len() == ys.len(),
        forall|i: int| 0 <= i < xs.len() ==> xs[i] == 0,
        forall|i: int| 0 <= i < ys.len() ==> ys[i] == b,
    ensures
        sum_e(w, b, xs, ys, k) == 0,
    decreases k,
{
    if k > 0 {
        lemma_sum_e_zero(w, b, xs, ys, k - 1);
    }
}

/// With zero features, a bias sitting at the labels' common value is a
/// fixed point of gradient descent: every error is zero, both gradients
/// vanish, and training returns the parameters unchanged however many
/// epochs run. This is the resting point the bias converges toward.
pub proof fn lemma_zero_features_fixed_point(
    w: int,
    b: int,
    xs: Seq<int>,
    ys: Seq<int>,
    lr: int,
    epochs: nat,
)
    requires
        xs.len() == ys.len(),
        xs.len() > 0,
        forall|i: int| 0 <= i < xs.len() ==> xs[i] == 0,
        forall|i: int| 0 <= i < ys.len() ==> ys[i] == b,
        -(LIM as int) <= w <= LIM as int,
        -(LIM as int) <= b <= LIM as int,
    ensures
        train_res(w, b, xs, ys, lr, epochs) == Some((w, b)),
    decreases epochs,
{
    if epochs > 0 {
        assert forall|i: int| 0 <= i < xs.len() implies #[trigger] err_m(w, b, xs[i], ys[i])
            == 0 by {
            assert(xs[i] == 0 && ys[i] == b);
        }
        lemma_sum_we_zero(w, b, xs, ys, xs.len() as int);
        lemma_sum_e_zero(w, b, xs, ys, xs.len() as int);
        assert(xs.len() * (SCALE as int) > 0);
        lemma_div_of0(xs.len() * (SCALE as int));
        lemma_div_of0(xs.len() as int);
        assert(dw_raw(w, b, xs, ys) == 0);
        assert(db_raw(w, b, xs, ys) == 0);
        lemma_div_of0(SCALE as int);
        assert(step_w(w, b, xs, ys, lr) == w);
        assert(step_b(w, b, xs, ys, lr) == b);
        assert(step_res(w, b, xs, ys, lr) == Some((w, b)));
        lemma_zero_features_fixed_point(w, b, xs, ys, lr, (epochs - 1) as nat);
    }
}

/// A dataset whose features are all zero contributes no gradient signal to
/// the weight: however many epochs run, a successful training leaves the
/// weight exactly where it started.
pub proof fn lemma_zero_features_weight_unchanged(
    w: int,
    b: int,
    xs: Seq<int>,
    ys: Seq<int>,
    lr: int,
    epochs: nat,
)
    requires
        xs.len() == ys.len(),
        forall|i: int| 0 <= i < xs.len() ==> xs[i] == 0,
    ensures
        train_res(w, b, xs, ys, lr, epochs) matches Some(wb) ==> wb.0 == w,
    decreases epochs,
{
    if epochs == 0 || xs.len() == 0 {
    } else {
        lemma_sum_we_zero(w, b, xs, ys, xs.len() as int);
        assert(xs.len() * (SCALE as int) > 0);
        lemma_div_of0(xs.len() * (SCALE as int));
        assert(dw_raw(w, b, xs, ys) == 0);
        lemma_div_of0(SCALE as int);
        assert(step_w(w, b, xs, ys, lr) == w);
        match step_res(w, b, xs, ys, lr) {
            Option::None => {},
            Option::Some(wb) => {
                lemma_zero_features_weight_unchanged(w, wb.1, xs, ys, lr, (epochs - 1) as nat);
            },
        }
    }
}

} // verus!
