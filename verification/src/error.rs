//! Errors of the training and inference routines.

use vstd::prelude::*;

verus! {

/// Why a numeric routine could not produce a result.
#[derive(Clone, Copy, Debug, PartialEq, Eq, Structural)]
pub enum Error {
    /// The dataset holds no rows, so the mean-squared-error gradients are
    /// undefined.
    EmptyDataset,
    /// An intermediate or final quantity left the representable fixed-point
    /// range.
    Overflow,
}

} // verus!
