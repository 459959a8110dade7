//! Text served by the informational index route.

use vstd::prelude::*;

verus! {

/// The usage banner that the root route answers with.
pub fn index() -> (r: &'static str)
    ensures
        r@ == "Life Expectancy Prediction Server: curl -d 'bmi=<bmi>' -X POST http://localhost:8080/predict"@,
{
    "Life Expectancy Prediction Server: curl -d 'bmi=<bmi>' -X POST http://localhost:8080/predict"
}

} // verus!
