//! The atomic simulated object: a small rectangle with position,
//! velocity, acceleration, a fading lifetime and a base color.
//!
//! All continuous fields are fixed-point milli-units (see `fx`).  A
//! particle whose `lifetime` has reached zero is dead: it is never drawn
//! again and its physics step is a no-op, so death freezes its state.

use vstd::prelude::*;

use crate::color::Rgb;
use crate::frame::DrawOp;
use crate::frame::Frame;
use crate::fx;

verus! {

/// Lifetime of a freshly created particle (1.0).
pub const FRESH_LIFETIME: i64 = 1000;

/// Default per-tick lifetime decay of a particle (0.01).
pub const DEFAULT_FADING: i64 = 10;

#[derive(Clone, Copy, Debug)]
pub struct Particle {
    /// Top-left corner of the drawn rectangle, fixed-point pixels.
    pub position: (i64, i64),
    /// Width and height in whole surface pixels.
    pub dimensions: (u32, u32),
    /// Remaining life in `[0, 1000]` while alive; `<= 0` means dead.
    pub lifetime: i64,
    /// Per-tick lifetime decay; zero makes the particle immortal.
    pub fading: i64,
    /// Per-tick position delta, fixed-point pixels.
    pub speed: (i64, i64),
    /// Per-tick speed delta, fixed-point pixels; constant for life.
    pub acceleration: (i64, i64),
    /// Base color; the drawn color is scaled by the current lifetime.
    pub color: Rgb,
}

/// A particle is dead once its lifetime is used up.
pub open spec fn p_dead(p: Particle) -> bool {
    p.lifetime <= 0
}

/// One physics tick: a dead particle is frozen; a live one first gains
/// its acceleration onto its speed, loses `fading` from its lifetime,
/// and then moves by its *new* speed (semi-implicit Euler).
pub open spec fn p_step(p: Particle) -> Particle {
    if p_dead(p) {
        p
    } else {
        let sx = fx::fx_add(p.speed.0 as int, p.acceleration.0 as int);
        let sy = fx::fx_add(p.speed.1 as int, p.acceleration.1 as int);
        Particle {
            position: (
                fx::fx_add(p.position.0 as int, sx) as i64,
                fx::fx_add(p.position.1 as int, sy) as i64,
            ),
            dimensions: p.dimensions,
            lifetime: fx::fx_sub(p.lifetime as int, p.fading as int) as i64,
            fading: p.fading,
            speed: (sx as i64, sy as i64),
            acceleration: p.acceleration,
            color: p.color,
        }
    }
}

/// `n` physics ticks in a row.
pub open spec fn p_step_n(p: Particle, n: nat) -> Particle
    decreases n,
{
    if n == 0 {
        p
    } else {
        p_step(p_step_n(p, (n - 1) as nat))
    }
}

/// The particle a fresh construction yields: at `(x, y)` in whole
/// pixels, at rest, fully alive, with the default decay.
pub open spec fn p_new(x: int, y: int, width: u32, height: u32, color: Rgb) -> Particle {
    Particle {
        position: (fx::fx_of_units(x) as i64, fx::fx_of_units(y) as i64),
        dimensions: (width, height),
        lifetime: FRESH_LIFETIME,
        fading: DEFAULT_FADING,
        speed: (0, 0),
        acceleration: (0, 0),
        color,
    }
}

/// One color channel scaled by a (positive) lifetime, rounded to
/// nearest and clamped to a byte.
pub open spec fn spec_fade_channel(c: u8, lifetime: int) -> u8 {
    let v = (c * lifetime + 500) / 1000;
    if v > 255 {
        255
    } else {
        v as u8
    }
}

/// The base color scaled by the current lifetime.
pub open spec fn spec_faded(c: Rgb, lifetime: int) -> Rgb {
    Rgb {
        r: spec_fade_channel(c.r, lifetime),
        g: spec_fade_channel(c.g, lifetime),
        b: spec_fade_channel(c.b, lifetime),
    }
}

/// The rectangle a live particle draws: its position rounded to whole
/// pixels, its dimensions, and its lifetime-scaled color.
pub open spec fn p_draw_op(p: Particle) -> DrawOp {
    DrawOp {
        x: fx::fx_round(p.position.0 as int) as i64,
        y: fx::fx_round(p.position.1 as int) as i64,
        width: p.dimensions.0,
        height: p.dimensions.1,
        color: spec_faded(p.color, p.lifetime as int),
    }
}

/// What one particle contributes to a frame: nothing when dead, its
/// rectangle when alive.
pub open spec fn p_ops(p: Particle) -> Seq<DrawOp> {
    if p_dead(p) {
        Seq::empty()
    } else {
        seq![p_draw_op(p)]
    }
}

impl Particle {
    /// A fresh particle at `(x, y)` whole pixels: at rest, fully alive,
    /// fading by the default amount each tick.
    pub fn new(x: i64, y: i64, width: u32, height: u32, color: Rgb) -> (p: Particle)
        ensures
            p == p_new(x as int, y as int, width, height, color),
    {
        Particle {
            position: (fx::of_units(x), fx::of_units(y)),
            dimensions: (width, height),
            lifetime: FRESH_LIFETIME,
            fading: DEFAULT_FADING,
            speed: (0, 0),
            acceleration: (0, 0),
            color,
        }
    }

    /// The same particle with another per-tick decay.
    pub fn with_fading(self, fading: i64) -> (p: Particle)
        ensures
            p == (Particle { fading, ..self }),
    {
        Particle { fading, ..self }
    }

    /// The same particle with another speed.
    pub fn with_speed(self, x: i64, y: i64) -> (p: Particle)
        ensures
            p == (Particle { speed: (x, y), ..self }),
    {
        Particle { speed: (x, y), ..self }
    }

    /// The same particle with another acceleration.
    pub fn with_acceleration(self, x: i64, y: i64) -> (p: Particle)
        ensures
            p == (Particle { acceleration: (x, y), ..self }),
    {
        Particle { acceleration: (x, y), ..self }
    }

    /// One physics tick, exactly `p_step`.
    pub fn update(&mut self)
        ensures
            *final(self) == p_step(*old(self)),
    {
        if self.lifetime <= 0 {
            return ;
        }
        self.speed = (
            fx::add(self.speed.0, self.acceleration.0),
            fx::add(self.speed.1, self.acceleration.1),
        );
        self.lifetime = fx::sub(self.lifetime, self.fading);
        self.position = (
            fx::add(self.position.0, self.speed.0),
            fx::add(self.position.1, self.speed.1),
        );
    }

    /// Whether the particle's lifetime is used up.
    pub fn is_dead(&self) -> (r: bool)
        ensures
            r == p_dead(*self),
    {
        self.lifetime <= 0
    }

    /// Draw the particle: a dead one contributes nothing, a live one
    /// appends exactly its rectangle.
    pub fn draw(&self, frame: &mut Frame)
        ensures
            final(frame).ops@ == old(frame).ops@ + p_ops(*self),
    {
        if self.lifetime <= 0 {
            proof {
                assert(frame.ops@ =~= old(frame).ops@ + p_ops(*self));
            }
            return ;
        }
        let color = Rgb {
            r: fade_channel(self.color.r, self.lifetime),
            g: fade_channel(self.color.g, self.lifetime),
            b: fade_channel(self.color.b, self.lifetime),
        };
        frame.filled_rect(
            fx::round(self.position.0),
            fx::round(self.position.1),
            self.dimensions.0,
            self.dimensions.1,
            color,
        );
        proof {
            assert(frame.ops@ =~= old(frame).ops@ + p_ops(*self));
        }
    }
}

/// An immortal particle keeps its lifetime: with no fading, any number
/// of ticks leaves `lifetime` exactly as it was.
pub proof fn lemma_immortal_lifetime(p: Particle, n: nat)
    requires
        p.fading == 0,
        fx::in_fx_range(p.lifetime as int),
    ensures
        p_step_n(p, n).lifetime == p.lifetime,
        p_step_n(p, n).fading == 0,
    decreases n,
{
    if n > 0 {
        lemma_immortal_lifetime(p, (n - 1) as nat);
    }
}

/// Death freezes a particle: once its lifetime is used up, any number
/// of ticks leaves the whole particle (position, speed, lifetime, all
/// of it) unchanged.
pub proof fn lemma_frozen_when_dead(p: Particle, n: nat)
    requires
        p_dead(p),
    ensures
        p_step_n(p, n) == p,
    decreases n,
{
    if n > 0 {
        lemma_frozen_when_dead(p, (n - 1) as nat);
    }
}

/// One color channel scaled by a positive lifetime.
fn fade_channel(c: u8, lifetime: i64) -> (r: u8)
    requires
        lifetime > 0,
    ensures
        r == spec_fade_channel(c, lifetime as int),
{
    let capped = if lifetime > 1000000 {
        1000000i64
    } else {
        lifetime
    };
    proof {
        assert(0 <= c as int * capped as int <= 255 * 1000000) by (nonlinear_arith)
            requires
                0 <= c as int <= 255,
                0 <= capped as int <= 1000000,
        ;
    }
    let v = (c as i64) * capped + 500;
    let q = v / 1000;
    proof {
        if lifetime > 1000000 {
            if c == 0 {
                assert((c as int * lifetime as int + 500) / 1000 == 0);
                assert((c as int * capped as int + 500) / 1000 == 0);
            } else {
                assert(c as int * lifetime as int >= lifetime as int) by (nonlinear_arith)
                    requires
                        c as int >= 1,
                        lifetime as int > 0,
                ;
                assert(c as int * capped as int >= capped as int) by (nonlinear_arith)
                    requires
                        c as int >= 1,
                        capped as int > 0,
                ;
                assert((c as int * lifetime as int + 500) / 1000 > 255) by {
                    vstd::arithmetic::div_mod::lemma_div_is_ordered(
                        1000500int,
                        c as int * lifetime as int + 500,
                        1000,
                    );
                };
                assert((c as int * capped as int + 500) / 1000 > 255) by {
                    vstd::arithmetic::div_mod::lemma_div_is_ordered(
                        1000500int,
                        c as int * capped as int + 500,
                        1000,
                    );
                };
            }
        }
    }
    if q > 255 {
        255
    } else {
        q as u8
    }
}

} // verus!
