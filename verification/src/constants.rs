//! Numeric constants, as raw fixed-point values.

use vstd::prelude::*;

verus! {

/// Raw value of positive infinity: the largest scalar.
pub const INFINITY_RAW: i64 = 9223372036854775807;

/// Raw value of the circle constant, rounded down.
pub const PI_RAW: i64 = 13493037704;

} // verus!
