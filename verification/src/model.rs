//! Model-level attributes shared by every kind in the zoo: the input a
//! prediction consumes and the layering restriction a kind carries.  The
//! numeric fitting itself is floating point and lives outside the verified
//! core; what is checked here is the integer side every kind agrees on.

use vstd::prelude::*;

use crate::floatbits::f64_bits_trunc;
use crate::floatbits::f64_bits_to_u64_trunc;

verus! {

/// A prediction input: an integer key, or a float key carried as its
/// binary64 bit pattern.
pub enum ModelInput {
    Int(u64),
    Float(u64),
}

/// The input as an integer: float values are rounded toward zero.
pub open spec fn spec_input_as_int(inp: ModelInput) -> u64 {
    match inp {
        ModelInput::Int(x) => x,
        ModelInput::Float(b) => f64_bits_trunc(b),
    }
}

impl ModelInput {
    /// This input as a `u64`; a float input is rounded toward zero.
    pub fn as_int(&self) -> (r: u64)
        ensures
            r == spec_input_as_int(*self),
    {
        match self {
            ModelInput::Int(x) => *x,
            ModelInput::Float(b) => f64_bits_to_u64_trunc(*b),
        }
    }
}

/// Where a model kind may stand in the two-layer index.  `Anywhere` marks
/// the kinds with no placement restriction.
pub enum ModelRestriction {
    Anywhere,
    MustBeTop,
    MustBeBottom,
}

/// Whether a `(top, leaf)` pairing respects both kinds' restrictions: a
/// leaf must not demand the top position, and a top must not demand the
/// bottom one.  A pairing that fails this check is an incompatible layering
/// and training refuses it.
pub fn layering_allowed(top: &ModelRestriction, leaf: &ModelRestriction) -> (r: bool)
    ensures
        r == !(leaf is MustBeTop || top is MustBeBottom),
{
    let leaf_ok = match leaf {
        ModelRestriction::MustBeTop => false,
        _ => true,
    };
    let top_ok = match top {
        ModelRestriction::MustBeBottom => false,
        _ => true,
    };
    leaf_ok && top_ok
}

} // verus!
