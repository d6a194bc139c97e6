//! The randomness source.
//!
//! The simulation draws all of its randomness from the `pixel_loop`
//! engine environment, whose `rand` field is a boxed `rand::RngCore`
//! generator.  The raw 32-bit draw is trusted; everything derived from
//! it (bounded samples, random bytes) is verified.

use vstd::prelude::*;

use pixel_loop::rand::RngCore;
use pixel_loop::EngineEnvironment;

verus! {

#[verifier::external_type_specification]
#[verifier::external_body]
pub struct ExEngineEnvironment(EngineEnvironment);

/// Relies on `rand::RngCore::next_u32` through the engine environment's
/// boxed generator: one 32-bit draw.  A randomness source promises
/// nothing about its value, so nothing is stated of it.
#[verifier::external_body]
fn next_u32(ee: &mut EngineEnvironment) -> u32 {
    ee.rand.next_u32()
}

/// A sample in `[0, bound)`, reduced from one 32-bit draw.
pub fn sample_below(ee: &mut EngineEnvironment, bound: u32) -> (r: u32)
    requires
        bound > 0,
    ensures
        r < bound,
{
    next_u32(ee) % bound
}

/// A random byte.
pub fn sample_byte(ee: &mut EngineEnvironment) -> u8
{
    (next_u32(ee) % 256) as u8
}

/// A random color with independently uniform channels.
pub fn sample_color(ee: &mut EngineEnvironment) -> crate::color::Rgb {
    crate::color::Rgb {
        r: sample_byte(ee),
        g: sample_byte(ee),
        b: sample_byte(ee),
    }
}

} // verus!
