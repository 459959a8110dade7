//! The affine model `y = w*x + b` over fixed-point scalars.

use vstd::prelude::*;
use crate::error::Error;
use crate::fixed::{div_t, div_trunc, Fx, LIM, SCALE};

verus! {

/// The two model parameters of the affine transform.
#[derive(Clone, Copy, Debug, PartialEq, Eq, Structural)]
pub struct Params {
    pub(crate) weight: Fx,
    pub(crate) bias: Fx,
}

/// The model's prediction for input `x` under parameters `(w, b)`, all in
/// micro-units: `w*x + b`, the product scaled back down with truncation.
pub open spec fn pred_m(w: int, b: int, x: int) -> int {
    div_t(w * x, SCALE as int) + b
}

impl Params {
    /// The weight, in micro-units.
    pub open(crate) spec fn w_m(self) -> int {
        self.weight.m()
    }

    /// The bias, in micro-units.
    pub open(crate) spec fn b_m(self) -> int {
        self.bias.m()
    }

    pub open spec fn wf(self) -> bool {
        -(LIM as int) <= self.w_m() <= LIM as int && -(LIM as int) <= self.b_m() <= LIM as int
    }

    /// A fresh model: weight and bias both start at zero.
    pub fn zeros() -> (r: Params)
        ensures
            r.w_m() == 0,
            r.b_m() == 0,
            r.wf(),
    {
        Params { weight: Fx::zero(), bias: Fx::zero() }
    }

    pub fn new(weight: Fx, bias: Fx) -> (r: Params)
        ensures
            r.w_m() == weight.m(),
            r.b_m() == bias.m(),
            weight.wf() && bias.wf() ==> r.wf(),
    {
        Params { weight, bias }
    }

    pub fn weight(&self) -> (r: Fx)
        ensures
            r.m() == self.w_m(),
    {
        self.weight
    }

    pub fn bias(&self) -> (r: Fx)
        ensures
            r.m() == self.b_m(),
    {
        self.bias
    }

    /// Applies the affine transform to one input. The result is pinned to
    /// `pred_m` of the current parameters and the input alone, so repeated
    /// calls with unchanged parameters return the identical value; `Err`
    /// comes exactly when the prediction leaves the representable range.
    pub fn predict(&self, x: Fx) -> (r: Result<Fx, Error>)
        requires
            self.wf(),
            x.wf(),
        ensures
            r matches Ok(p) ==> p.m() == pred_m(self.w_m(), self.b_m(), x.m()) && p.wf(),
            r is Ok <==> -(LIM as int) <= pred_m(self.w_m(), self.b_m(), x.m()) <= LIM as int,
            r is Err ==> r == Err::<Fx, Error>(Error::Overflow),
    {
        let wm: i128 = self.weight.micros() as i128;
        let xm: i128 = x.micros() as i128;
        proof {
            assert(-(LIM as int) * (LIM as int) <= wm * xm <= (LIM as int) * (LIM as int))
                by (nonlinear_arith)
                requires
                    -(LIM as int) <= wm <= LIM as int,
                    -(LIM as int) <= xm <= LIM as int,
            ;
        }
        let wx: i128 = wm * xm;
        let q = div_trunc(wx, SCALE as i128);
        proof {
            crate::fixed::lemma_div_t_bound(wx as int, SCALE as int);
        }
        let p: i128 = q + self.bias.micros() as i128;
        if -(LIM as i128) <= p && p <= LIM as i128 {
            Ok(Fx { micros: p as i64 })
        } else {
            Err(Error::Overflow)
        }
    }
}

/// Inference is idempotent: parameter pairs holding the same values answer
/// the same input with the identical prediction, since `predict` pins its
/// result to `pred_m` of those values alone.
pub proof fn lemma_predict_deterministic(p1: Params, p2: Params, x1: Fx, x2: Fx)
    requires
        p1.w_m() == p2.w_m(),
        p1.b_m() == p2.b_m(),
        x1.m() == x2.m(),
    ensures
        pred_m(p1.w_m(), p1.b_m(), x1.m()) == pred_m(p2.w_m(), p2.b_m(), x2.m()),
{
}

} // verus!

