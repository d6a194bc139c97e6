//! Fixed-point scalars for the simulation.
//!
//! Every continuous quantity of the simulation (positions, velocities,
//! accelerations, lifetimes, decay rates) is a signed fixed-point number
//! with three decimal places: the `i64` value `1000` stands for one pixel
//! (or one unit of lifetime).  Arithmetic saturates at `FX_MAX` /
//! `FX_MIN`, so every operation is total: the model has a finite range
//! where the reals have none, and saturation pins down what happens at
//! its edge instead of leaving it to overflow.

use vstd::prelude::*;

verus! {

/// Largest representable fixed-point value.
pub const FX_MAX: i64 = 0x3fff_ffff_ffff_ffff;

/// Smallest representable fixed-point value; the range is symmetric.
pub const FX_MIN: i64 = -0x3fff_ffff_ffff_ffff;

/// Whether a mathematical integer is representable without clipping.
pub open spec fn in_fx_range(x: int) -> bool {
    FX_MIN <= x <= FX_MAX
}

/// Clamp a mathematical integer into the representable range.
pub open spec fn fx_clip(x: int) -> int {
    if x > FX_MAX as int {
        FX_MAX as int
    } else if x < FX_MIN as int {
        FX_MIN as int
    } else {
        x
    }
}

/// Saturating fixed-point sum.
pub open spec fn fx_add(a: int, b: int) -> int {
    fx_clip(a + b)
}

/// Saturating fixed-point difference.
pub open spec fn fx_sub(a: int, b: int) -> int {
    fx_clip(a - b)
}

/// Whole-pixel value of a fixed-point coordinate: divide by `FX_ONE`,
/// rounding half away from zero.  Out-of-range inputs are clipped first,
/// which no value produced by this crate ever needs.
pub open spec fn fx_round(x: int) -> int {
    let c = fx_clip(x);
    if c >= 0 {
        (c + 500) / 1000
    } else {
        -((-c + 500) / 1000)
    }
}

/// A whole number of units as a fixed-point value, clipped into range.
pub open spec fn fx_of_units(x: int) -> int {
    fx_clip(x * 1000)
}

/// Saturating fixed-point addition.
pub fn add(a: i64, b: i64) -> (r: i64)
    ensures
        r == fx_add(a as int, b as int),
{
    if b >= 0 {
        if a > FX_MAX - b {
            FX_MAX
        } else {
            let s = a + b;
            if s < FX_MIN {
                FX_MIN
            } else {
                s
            }
        }
    } else {
        if a < FX_MIN - b {
            FX_MIN
        } else {
            let s = a + b;
            if s > FX_MAX {
                FX_MAX
            } else {
                s
            }
        }
    }
}

/// Saturating fixed-point subtraction.
pub fn sub(a: i64, b: i64) -> (r: i64)
    ensures
        r == fx_sub(a as int, b as int),
{
    if b >= 0 {
        if a < FX_MIN + b {
            FX_MIN
        } else {
            let s = a - b;
            if s > FX_MAX {
                FX_MAX
            } else {
                s
            }
        }
    } else {
        if a > FX_MAX + b {
            FX_MAX
        } else {
            let s = a - b;
            if s < FX_MIN {
                FX_MIN
            } else {
                s
            }
        }
    }
}

/// Round a fixed-point coordinate to whole pixels, half away from zero.
pub fn round(x: i64) -> (r: i64)
    ensures
        r == fx_round(x as int),
{
    let c = if x > FX_MAX {
        FX_MAX
    } else if x < FX_MIN {
        FX_MIN
    } else {
        x
    };
    if c >= 0 {
        (c + 500) / 1000
    } else {
        -((-c + 500) / 1000)
    }
}

/// Convert whole units (pixels) to a fixed-point value.
pub fn of_units(x: i64) -> (r: i64)
    ensures
        r == fx_of_units(x as int),
{
    let q = FX_MAX / 1000;
    if x > q {
        FX_MAX
    } else if x < -q {
        FX_MIN
    } else {
        x * 1000
    }
}

} // verus!
