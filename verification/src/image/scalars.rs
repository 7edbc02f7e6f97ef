//! The transfer curves that map pixel values onto display levels.
use vstd::prelude::*;
use vstd::string::StringExecFns;

verus! {

/// A transfer curve between black point and white point.
#[allow(non_camel_case_types)]
#[derive(PartialEq, Eq, Clone, Copy, Debug, Structural)]
pub enum Scaling {
    LINEAR,
    LOGARITHMIC,
    SQUAREROOT,
    ASINH,
}

impl Default for Scaling {
    fn default() -> (s: Self)
        ensures
            s == Scaling::LINEAR,
    {
        Scaling::LINEAR
    }
}

/// The name under which a curve is shown.
pub open spec fn spec_scaling_name(s: Scaling) -> Seq<char> {
    match s {
        Scaling::LINEAR => "Linear"@,
        Scaling::LOGARITHMIC => "Logarithmic"@,
        Scaling::SQUAREROOT => "Square Root"@,
        Scaling::ASINH => "Asinh"@,
    }
}

impl Scaling {
    /// The name under which the curve is shown.
    pub fn to_display_string(&self) -> (s: String)
        ensures
            s@ == spec_scaling_name(*self),
    {
        match self {
            Scaling::LINEAR => String::from_str("Linear"),
            Scaling::LOGARITHMIC => String::from_str("Logarithmic"),
            Scaling::SQUAREROOT => String::from_str("Square Root"),
            Scaling::ASINH => String::from_str("Asinh"),
        }
    }

    /// The number by which the shader's `scaling_mode` selects the curve.
    pub fn shader_mode(&self) -> (m: u32)
        ensures
            m == match *self {
                Scaling::LINEAR => 0u32,
                Scaling::LOGARITHMIC => 1u32,
                Scaling::SQUAREROOT => 2u32,
                Scaling::ASINH => 3u32,
            },
    {
        match self {
            Scaling::LINEAR => 0,
            Scaling::LOGARITHMIC => 1,
            Scaling::SQUAREROOT => 2,
            Scaling::ASINH => 3,
        }
    }
}

/// The short name of a curve: `lin`, `log`, `sqrt`, `asinh`.
pub fn format_scaling_method_short(method: Scaling) -> (s: &'static str)
    ensures
        s@ == match method {
            Scaling::LINEAR => "lin"@,
            Scaling::LOGARITHMIC => "log"@,
            Scaling::SQUAREROOT => "sqrt"@,
            Scaling::ASINH => "asinh"@,
        },
{
    match method {
        Scaling::LINEAR => "lin",
        Scaling::LOGARITHMIC => "log",
        Scaling::SQUAREROOT => "sqrt",
        Scaling::ASINH => "asinh",
    }
}

} // verus!
