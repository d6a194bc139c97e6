//! The composite firework: one optional rocket particle and the burst
//! of effect particles it leaves behind.
//!
//! A firework is created with a rocket ascending from the launch point.
//! Gravity slows the rocket each tick; the tick its vertical speed
//! first rises above the detonation threshold, the rocket is discarded
//! and exactly `BURST_COUNT` effect particles appear at its rounded
//! position, colored by jittering the firework's base color.  The
//! effect particles then fade on their own until all are dead.
//!
//! The update contract is a relation, not a function: the burst's
//! speeds and colors come from the randomness source, so the contract
//! fixes everything deterministic and bounds every random choice.

use vstd::prelude::*;

use pixel_loop::EngineEnvironment;

use crate::color;
use crate::color::Hsl;
use crate::color::Rgb;
use crate::color::hsl_wf;
use crate::color::spec_hsl_to_rgb;
use crate::color::spec_pct_clamp;
use crate::color::spec_rgb_to_hsl;
use crate::frame::DrawOp;
use crate::frame::Frame;
use crate::fx;
use crate::particle::DEFAULT_FADING;
use crate::particle::FRESH_LIFETIME;
use crate::particle::Particle;
use crate::particle::p_dead;
use crate::particle::p_ops;
use crate::particle::p_step;
use crate::rng;

verus! {

/// Downward acceleration of rockets and effect particles (0.02).
pub const GRAVITY: i64 = 20;

/// A rocket detonates once its vertical speed rises above this (-0.3).
pub const DETONATION_SPEED: i64 = -300;

/// Number of effect particles spawned by a detonation.
pub const BURST_COUNT: usize = 25;

/// Saturation jitter bound for burst colors (+/- 20 percent).
pub const SAT_JITTER: i64 = 20000;

/// Lightness jitter bound for burst colors (+/- 40 percent).
pub const LIGHT_JITTER: i64 = 40000;

/// Horizontal burst speeds are uniform in [-0.75, 0.75).
pub const BURST_SPEED_SPAN: u32 = 1500;

/// Offset subtracted from the horizontal speed sample.
pub const BURST_X_OFFSET: i64 = 750;

/// Offset subtracted from the vertical speed sample, biasing bursts
/// upward: vertical speeds are uniform in [-1.35, 0.15).
pub const BURST_Y_OFFSET: i64 = 1350;

pub struct Firework {
    /// The ascending rocket; absent once the firework has detonated.
    pub rocket: Option<Particle>,
    /// The burst particles, spawned all at once at detonation.
    pub effect: Vec<Particle>,
    /// The explosion's nominal color, fixed at creation.
    pub base_color: Hsl,
}

/// Validity of a firework: the base color is in the HSL domain, and a
/// firework still carrying its rocket has no burst yet.
pub open spec fn fw_wf(fw: Firework) -> bool {
    &&& hsl_wf(fw.base_color)
    &&& fw.rocket is Some ==> fw.effect@.len() == 0
}

/// A firework is dead once the rocket is gone and every burst particle
/// has faded out.
pub open spec fn fw_dead(fw: Firework) -> bool {
    &&& fw.rocket is None
    &&& forall|i: int| 0 <= i < fw.effect@.len() ==> p_dead(#[trigger] fw.effect@[i])
}

/// The rocket a fresh firework carries: a white 1x3 particle at the
/// launch point, rising at `y_speed`, pulled down by gravity, immortal
/// until detonation discards it.
pub open spec fn spec_rocket(x: int, y: int, y_speed: i64) -> Particle {
    Particle {
        position: (fx::fx_of_units(x) as i64, fx::fx_of_units(y) as i64),
        dimensions: (1, 3),
        lifetime: FRESH_LIFETIME,
        fading: 0,
        speed: (0, y_speed),
        acceleration: (0, GRAVITY),
        color: Rgb { r: 255, g: 255, b: 255 },
    }
}

/// The burst particle determined by the four random samples drawn for
/// it: jitters `j1` (saturation) and `j2` (lightness), and speed
/// samples `w1` and `w2`.
pub open spec fn burst_particle_of(
    base: Hsl,
    px: int,
    py: int,
    j1: int,
    j2: int,
    w1: int,
    w2: int,
) -> Particle {
    Particle {
        position: (fx::fx_of_units(px) as i64, fx::fx_of_units(py) as i64),
        dimensions: (1, 1),
        lifetime: FRESH_LIFETIME,
        fading: DEFAULT_FADING,
        speed: ((w1 - BURST_X_OFFSET) as i64, (w2 - BURST_Y_OFFSET) as i64),
        acceleration: (0, GRAVITY),
        color: spec_hsl_to_rgb(
            Hsl {
                h: base.h,
                s: spec_pct_clamp(base.s + j1 - SAT_JITTER) as i64,
                l: spec_pct_clamp(base.l + j2 - LIGHT_JITTER) as i64,
            },
        ),
    }
}

/// A possible burst particle at pixel `(px, py)` for base color `base`:
/// some admissible draw of the four random samples yields it.
pub open spec fn burst_particle(q: Particle, base: Hsl, px: int, py: int) -> bool {
    exists|j1: int, j2: int, w1: int, w2: int|
        0 <= j1 < 2 * SAT_JITTER && 0 <= j2 < 2 * LIGHT_JITTER && 0 <= w1 < BURST_SPEED_SPAN
            && 0 <= w2 < BURST_SPEED_SPAN && q == burst_particle_of(base, px, py, j1, j2, w1, w2)
}

/// A particle that is one tick past some possible burst particle.
pub open spec fn stepped_burst(p: Particle, base: Hsl, px: int, py: int) -> bool {
    exists|q: Particle| burst_particle(q, base, px, py) && p == p_step(q)
}

/// Every particle of `post` is the stepped particle of `pre`.
pub open spec fn stepped_all(pre: Seq<Particle>, post: Seq<Particle>) -> bool {
    &&& post.len() == pre.len()
    &&& forall|i: int| 0 <= i < pre.len() ==> post[i] == p_step(#[trigger] pre[i])
}

/// Whether this tick's rocket advance crosses the detonation threshold.
pub open spec fn fw_detonating(fw: Firework) -> bool {
    match fw.rocket {
        Option::Some(r) => p_step(r).speed.1 > DETONATION_SPEED,
        Option::None => false,
    }
}

/// One firework tick.  The base color never changes.  Without a rocket,
/// every effect particle advances one step.  With a rocket, the rocket
/// advances first; if its new vertical speed stays at or below the
/// threshold it is kept, otherwise exactly `BURST_COUNT` burst
/// particles appear at its rounded position and the rocket is
/// discarded, and the new particles advance one step along with any
/// older ones, all in the same tick.
pub open spec fn fw_step_rel(pre: Firework, post: Firework) -> bool {
    &&& post.base_color == pre.base_color
    &&& match pre.rocket {
        Option::None => {
            &&& post.rocket is None
            &&& stepped_all(pre.effect@, post.effect@)
        },
        Option::Some(r) => {
            let r2 = p_step(r);
            if r2.speed.1 > DETONATION_SPEED {
                &&& post.rocket is None
                &&& post.effect@.len() == pre.effect@.len() + BURST_COUNT
                &&& (forall|i: int|
                    0 <= i < pre.effect@.len() ==> post.effect@[i] == p_step(
                        #[trigger] pre.effect@[i],
                    ))
                &&& (forall|i: int|
                    pre.effect@.len() <= i < post.effect@.len() ==> stepped_burst(
                        #[trigger] post.effect@[i],
                        pre.base_color,
                        fx::fx_round(r2.position.0 as int),
                        fx::fx_round(r2.position.1 as int),
                    ))
            } else {
                &&& post.rocket == Some(r2)
                &&& stepped_all(pre.effect@, post.effect@)
            }
        },
    }
}

/// What one firework contributes to a frame: the rocket's rectangle,
/// if any, then each effect particle's, in order.
pub open spec fn seq_ops(s: Seq<Particle>) -> Seq<DrawOp>
    decreases s.len(),
{
    if s.len() == 0 {
        Seq::empty()
    } else {
        seq_ops(s.drop_last()) + p_ops(s.last())
    }
}

/// What one firework contributes to a frame.
pub open spec fn fw_ops(fw: Firework) -> Seq<DrawOp> {
    (match fw.rocket {
        Option::Some(r) => p_ops(r),
        Option::None => Seq::empty(),
    }) + seq_ops(fw.effect@)
}

impl Firework {
    /// A fresh firework: a rocket at `(x, y)` whole pixels rising at
    /// `y_speed` (negative is up), and the seed color converted once to
    /// HSL as the explosion's base color.
    pub fn new(x: i64, y: i64, y_speed: i64, effect_color: Rgb) -> (f: Firework)
        ensures
            f.rocket == Some(spec_rocket(x as int, y as int, y_speed)),
            f.effect@.len() == 0,
            f.base_color == spec_rgb_to_hsl(effect_color),
            fw_wf(f),
    {
        Firework {
            rocket: Some(
                Particle::new(x, y, 1, 3, Rgb::from_rgb(255, 255, 255)).with_acceleration(
                    0,
                    GRAVITY,
                ).with_speed(0, y_speed).with_fading(0),
            ),
            effect: Vec::new(),
            base_color: effect_color.as_hsl(),
        }
    }

    /// Draw the rocket (if present), then every effect particle.
    pub fn draw(&self, frame: &mut Frame)
        ensures
            final(frame).ops@ == old(frame).ops@ + fw_ops(*self),
    {
        match self.rocket {
            Option::Some(r) => r.draw(frame),
            Option::None => {},
        }
        let ghost head = old(frame).ops@ + (match self.rocket {
            Option::Some(r) => p_ops(r),
            Option::None => Seq::<DrawOp>::empty(),
        });
        proof {
            assert(frame.ops@ =~= head);
            assert(self.effect@.take(0) =~= Seq::<Particle>::empty());
        }
        let n = self.effect.len();
        let mut i: usize = 0;
        while i < n
            invariant
                n == self.effect@.len(),
                i <= n,
                frame.ops@ == head + seq_ops(self.effect@.take(i as int)),
            decreases n - i,
        {
            self.effect[i].draw(frame);
            proof {
                let s = self.effect@;
                assert(s.take(i + 1).drop_last() =~= s.take(i as int));
                assert(s.take(i + 1).last() == s[i as int]);
                assert(seq_ops(s.take(i + 1)) == seq_ops(s.take(i as int)) + p_ops(s[i as int]));
                assert(frame.ops@ =~= head + seq_ops(s.take(i + 1)));
            }
            i += 1;
        }
        proof {
            assert(self.effect@.take(n as int) =~= self.effect@);
            assert(frame.ops@ =~= old(frame).ops@ + fw_ops(*self));
        }
    }

    /// One simulation tick, exactly `fw_step_rel`; the burst's random
    /// choices come from the engine environment.
    pub fn update(&mut self, ee: &mut EngineEnvironment)
        requires
            hsl_wf(old(self).base_color),
        ensures
            fw_step_rel(*old(self), *final(self)),
    {
        let rocket_opt = self.rocket;
        match rocket_opt {
            Option::Some(r) => {
                let mut r2 = r;
                r2.update();
                if r2.speed.1 > DETONATION_SPEED {
                    let px = fx::round(r2.position.0);
                    let py = fx::round(r2.position.1);
                    let base = self.base_color;
                    let ghost pre_len = self.effect@.len();
                    let mut k: usize = 0;
                    while k < BURST_COUNT
                        invariant
                            hsl_wf(base),
                            base == old(self).base_color,
                            px == fx::fx_round(p_step(r).position.0 as int),
                            py == fx::fx_round(p_step(r).position.1 as int),
                            k <= BURST_COUNT,
                            self.effect@.len() == pre_len + k,
                            self.rocket == old(self).rocket,
                            self.base_color == old(self).base_color,
                            forall|i: int|
                                0 <= i < pre_len ==> self.effect@[i] == #[trigger] old(
                                    self,
                                ).effect@[i],
                            forall|i: int|
                                pre_len <= i < self.effect@.len() ==> burst_particle(
                                    #[trigger] self.effect@[i],
                                    base,
                                    px as int,
                                    py as int,
                                ),
                        decreases BURST_COUNT - k,
                    {
                        let q = burst(ee, base, px, py);
                        self.effect.push(q);
                        k += 1;
                    }
                    self.rocket = None;
                } else {
                    self.rocket = Some(r2);
                }
            },
            Option::None => {},
        }
        let ghost mid = *self;
        let n = self.effect.len();
        let mut j: usize = 0;
        while j < n
            invariant
                n == mid.effect@.len(),
                j <= n,
                self.effect@.len() == n,
                self.rocket == mid.rocket,
                self.base_color == mid.base_color,
                forall|i: int| 0 <= i < j ==> self.effect@[i] == p_step(#[trigger] mid.effect@[i]),
                forall|i: int| j <= i < n ==> self.effect@[i] == #[trigger] mid.effect@[i],
            decreases n - j,
        {
            self.effect[j].update();
            j += 1;
        }
        proof {
            let pre = *old(self);
            let post = *self;
            match pre.rocket {
                Option::Some(r) => {
                    let r2 = p_step(r);
                    if r2.speed.1 > DETONATION_SPEED {
                        assert forall|i: int|
                            pre.effect@.len() <= i < post.effect@.len() implies stepped_burst(
                            #[trigger] post.effect@[i],
                            pre.base_color,
                            fx::fx_round(r2.position.0 as int),
                            fx::fx_round(r2.position.1 as int),
                        ) by {
                            assert(burst_particle(
                                mid.effect@[i],
                                pre.base_color,
                                fx::fx_round(r2.position.0 as int),
                                fx::fx_round(r2.position.1 as int),
                            ));
                            assert(post.effect@[i] == p_step(mid.effect@[i]));
                        }
                    }
                },
                Option::None => {},
            }
        }
    }

    /// Whether the firework is in the valid domain `fw_wf`: callers
    /// that build a firework by hand can test it before handing it to
    /// the simulation.
    pub fn is_well_formed(&self) -> (r: bool)
        ensures
            r == fw_wf(*self),
    {
        let c = self.base_color;
        let color_ok = 0 <= c.h && c.h < 360000 && 0 <= c.s && c.s <= 100000 && 0 <= c.l && c.l
            <= 100000;
        color_ok && (self.rocket.is_none() || self.effect.len() == 0)
    }

    /// Whether the firework is spent: no rocket and no live particle.
    pub fn is_dead(&self) -> (r: bool)
        ensures
            r == fw_dead(*self),
    {
        if self.rocket.is_some() {
            return false;
        }
        let n = self.effect.len();
        let mut i: usize = 0;
        while i < n
            invariant
                n == self.effect@.len(),
                i <= n,
                forall|k: int| 0 <= k < i ==> p_dead(#[trigger] self.effect@[k]),
            decreases n - i,
        {
            if !self.effect[i].is_dead() {
                return false;
            }
            i += 1;
        }
        true
    }
}

/// One burst particle at pixel `(px, py)`: draws the two color jitters
/// and the two speed samples, and builds the particle they determine.
fn burst(ee: &mut EngineEnvironment, base: Hsl, px: i64, py: i64) -> (q: Particle)
    requires
        hsl_wf(base),
    ensures
        burst_particle(q, base, px as int, py as int),
{
    let j1 = rng::sample_below(ee, (2 * SAT_JITTER) as u32) as i64;
    let j2 = rng::sample_below(ee, (2 * LIGHT_JITTER) as u32) as i64;
    let s = color::pct_clamp(base.s + j1 - SAT_JITTER);
    let l = color::pct_clamp(base.l + j2 - LIGHT_JITTER);
    let c = Hsl::new(base.h, s, l).as_rgb();
    let w1 = rng::sample_below(ee, BURST_SPEED_SPAN) as i64;
    let w2 = rng::sample_below(ee, BURST_SPEED_SPAN) as i64;
    let q = Particle::new(px, py, 1, 1, c).with_acceleration(0, GRAVITY).with_speed(
        w1 - BURST_X_OFFSET,
        w2 - BURST_Y_OFFSET,
    );
    proof {
        assert(q == burst_particle_of(
            base,
            px as int,
            py as int,
            j1 as int,
            j2 as int,
            w1 as int,
            w2 as int,
        ));
    }
    q
}

/// A firework that still has its rocket detonates within a bounded
/// number of ticks: each tick adds `GRAVITY` to the rocket's vertical
/// speed, so the speed eventually rises above the threshold.  Stated
/// here as the one-tick fact the bound rests on: a surviving rocket's
/// vertical speed grows by exactly `GRAVITY` when in range.
pub proof fn lemma_rocket_speed_grows(pre: Firework, post: Firework)
    requires
        fw_step_rel(pre, post),
        pre.rocket is Some,
        post.rocket is Some,
        !p_dead(pre.rocket->0),
        pre.rocket->0.acceleration.1 == GRAVITY,
        fx::FX_MIN <= pre.rocket->0.speed.1 + GRAVITY <= fx::FX_MAX,
    ensures
        post.rocket->0.speed.1 == pre.rocket->0.speed.1 + GRAVITY,
        post.rocket->0.speed.1 <= DETONATION_SPEED,
{
}

/// A rocket that survives its tick has climbed: the detonation test
/// discards any rocket whose new vertical speed rose above the
/// threshold, so a surviving rocket's speed is still negative (upward)
/// and its vertical position has strictly decreased.
pub proof fn lemma_rocket_ascends(pre: Firework, post: Firework)
    requires
        fw_step_rel(pre, post),
        pre.rocket is Some,
        post.rocket is Some,
        !p_dead(pre.rocket->0),
        fx::in_fx_range(pre.rocket->0.speed.1 + pre.rocket->0.acceleration.1),
        fx::in_fx_range(
            pre.rocket->0.position.1 + pre.rocket->0.speed.1 + pre.rocket->0.acceleration.1,
        ),
    ensures
        post.rocket->0.speed.1 <= DETONATION_SPEED,
        post.rocket->0.position.1 < pre.rocket->0.position.1,
{
}

/// The burst size law: a firework's effect collection is empty while
/// its rocket ascends, becomes exactly `BURST_COUNT` in the tick the
/// rocket's vertical speed first exceeds `DETONATION_SPEED`, and never
/// changes size afterward.
pub proof fn lemma_burst_size(pre: Firework, post: Firework)
    requires
        fw_wf(pre),
        fw_step_rel(pre, post),
    ensures
        fw_wf(post),
        fw_detonating(pre) ==> post.effect@.len() == BURST_COUNT && post.rocket is None,
        pre.rocket is Some && !fw_detonating(pre) ==> post.rocket is Some && post.effect@.len()
            == 0,
        pre.rocket is None ==> post.effect@.len() == pre.effect@.len() && post.rocket is None,
{
}

/// A dead firework stays dead: stepping a firework with no rocket and
/// only dead particles changes nothing that could revive it.
pub proof fn lemma_dead_stays_dead(pre: Firework, post: Firework)
    requires
        fw_step_rel(pre, post),
        fw_dead(pre),
    ensures
        fw_dead(post),
{
    assert forall|i: int| 0 <= i < post.effect@.len() implies p_dead(
        #[trigger] post.effect@[i],
    ) by {
        assert(p_dead(pre.effect@[i]));
        assert(post.effect@[i] == p_step(pre.effect@[i]));
    }
}

} // verus!
