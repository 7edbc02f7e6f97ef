//! The names under which the transfer curves are offered.
use crate::image::scalars::Scaling;
use vstd::prelude::*;

verus! {

/// The name of a curve in the scaling menu, with its short form.
pub fn format_scaling_method(method: Scaling) -> (s: &'static str)
    ensures
        s@ == match method {
            Scaling::LINEAR => "Linear (lin)"@,
            Scaling::LOGARITHMIC => "Logarithmic (log)"@,
            Scaling::SQUAREROOT => "Square Root (sqrt)"@,
            Scaling::ASINH => "Asinh (asinh)"@,
        },
{
    match method {
        Scaling::LINEAR => "Linear (lin)",
        Scaling::LOGARITHMIC => "Logarithmic (log)",
        Scaling::SQUAREROOT => "Square Root (sqrt)",
        Scaling::ASINH => "Asinh (asinh)",
    }
}

} // verus!
