//! The top-level simulation state and its per-tick policy.
//!
//! Each tick does three things, in an order that is part of the
//! contract: first every dead firework is removed (reap), then with a
//! fixed probability exactly one new firework is launched from the
//! bottom edge at a random column, and finally every remaining
//! firework advances one step.  Reversing reap and spawn would change
//! steady-state density, so the tick relation applies the spawn to the
//! already-reaped sequence.

use vstd::prelude::*;

use pixel_loop::EngineEnvironment;

use crate::color::Hsl;
use crate::color::Rgb;
use crate::color::spec_rgb_to_hsl;
use crate::firework::Firework;
use crate::firework::fw_dead;
use crate::firework::fw_step_rel;
use crate::firework::fw_wf;
use crate::firework::fw_ops;
use crate::firework::lemma_burst_size;
use crate::firework::spec_rocket;
use crate::frame::DrawOp;
use crate::frame::Frame;
use crate::rng;

verus! {

/// Per-tick spawn probability in thousandths (0.10).
pub const SPAWN_PROBABILITY: u32 = 100;

/// Thousandths making up certainty.
pub const PROBABILITY_ONE: u32 = 1000;

/// All live fireworks, in launch order; later entries draw on top.
pub struct State {
    pub fireworks: Vec<Firework>,
}

/// Validity of the whole state: every firework is well formed.
pub open spec fn st_wf(s: Seq<Firework>) -> bool {
    forall|i: int| 0 <= i < s.len() ==> fw_wf(#[trigger] s[i])
}

/// The sequence with every dead firework removed, order kept.
pub open spec fn reaped(s: Seq<Firework>) -> Seq<Firework>
    decreases s.len(),
{
    if s.len() == 0 {
        Seq::empty()
    } else {
        let rest = reaped(s.drop_last());
        if fw_dead(s.last()) {
            rest
        } else {
            rest.push(s.last())
        }
    }
}

/// A firework exactly as the spawn policy launches it: rocket at
/// column `x` on the bottom edge `y`, rising at `y_speed`, no burst
/// yet, base color derived from the random seed color.
pub open spec fn launched(f: Firework, x: int, y: int, y_speed: i64, color: Rgb) -> bool {
    &&& f.rocket == Some(spec_rocket(x, y, y_speed))
    &&& f.effect@.len() == 0
    &&& f.base_color == spec_rgb_to_hsl(color)
}

/// One simulation tick over the firework sequence, given the spawn
/// decision sample `u` (a thousandths sample): reap, then spawn one
/// firework exactly when `u < prob`, then advance every entry.
pub open spec fn tick_rel(
    pre: Seq<Firework>,
    post: Seq<Firework>,
    u: int,
    prob: int,
    w: int,
    h: int,
) -> bool {
    let kept = reaped(pre);
    if u < prob {
        &&& post.len() == kept.len() + 1
        &&& (forall|i: int| 0 <= i < kept.len() ==> fw_step_rel(#[trigger] kept[i], post[i]))
        &&& (exists|g: Firework, x: int, ys: i64, color: Rgb|
            #[trigger] launched(g, x, h, ys, color) && 0 <= x < w && -2000 < ys <= -1000
                && fw_step_rel(g, post[kept.len() as int]))
    } else {
        &&& post.len() == kept.len()
        &&& (forall|i: int| 0 <= i < kept.len() ==> fw_step_rel(#[trigger] kept[i], post[i]))
    }
}

/// What the whole state contributes to a frame: each firework's
/// operations, in order.
pub open spec fn st_ops(s: Seq<Firework>) -> Seq<DrawOp>
    decreases s.len(),
{
    if s.len() == 0 {
        Seq::empty()
    } else {
        st_ops(s.drop_last()) + fw_ops(s.last())
    }
}

impl State {
    /// An empty simulation.
    pub fn new() -> (s: State)
        ensures
            s.fireworks@.len() == 0,
    {
        State { fireworks: Vec::new() }
    }

    /// Whether every firework is in the valid domain `st_wf`: the tick
    /// asks for this, and a caller that assembled a state by hand can
    /// test it here.
    pub fn is_well_formed(&self) -> (r: bool)
        ensures
            r == st_wf(self.fireworks@),
    {
        let n = self.fireworks.len();
        let mut i: usize = 0;
        while i < n
            invariant
                n == self.fireworks@.len(),
                i <= n,
                forall|k: int| 0 <= k < i ==> fw_wf(#[trigger] self.fireworks@[k]),
            decreases n - i,
        {
            if !self.fireworks[i].is_well_formed() {
                return false;
            }
            i += 1;
        }
        true
    }

    /// Remove every dead firework, keeping the order of the rest.
    pub fn reap(&mut self)
        ensures
            final(self).fireworks@ == reaped(old(self).fireworks@),
    {
        let ghost orig = self.fireworks@;
        let mut out: Vec<Firework> = Vec::new();
        proof {
            assert(orig.take(0) =~= Seq::<Firework>::empty());
        }
        let n = self.fireworks.len();
        let mut i: usize = 0;
        while i < n
            invariant
                n == orig.len(),
                i <= n,
                self.fireworks@.len() == n,
                out@ == reaped(orig.take(i as int)),
                forall|j: int| i <= j < n ==> self.fireworks@[j] == #[trigger] orig[j],
            decreases n - i,
        {
            proof {
                assert(orig.take(i + 1).drop_last() =~= orig.take(i as int));
                assert(orig.take(i + 1).last() == orig[i as int]);
            }
            if !self.fireworks[i].is_dead() {
                let mut tmp = Firework {
                    rocket: None,
                    effect: Vec::new(),
                    base_color: Hsl { h: 0, s: 0, l: 0 },
                };
                core::mem::swap(&mut tmp, &mut self.fireworks[i]);
                out.push(tmp);
            }
            i += 1;
        }
        proof {
            assert(orig.take(n as int) =~= orig);
        }
        self.fireworks = out;
    }

    /// One tick with the given spawn probability in thousandths:
    /// reap, spawn with probability `prob_millis / 1000`, advance.
    pub fn update_with_probability(
        &mut self,
        ee: &mut EngineEnvironment,
        width: u32,
        height: u32,
        prob_millis: u32,
    )
        requires
            width >= 1,
            st_wf(old(self).fireworks@),
        ensures
            st_wf(final(self).fireworks@),
            exists|u: int|
                0 <= u < 1000 && #[trigger] tick_rel(
                    old(self).fireworks@,
                    final(self).fireworks@,
                    u,
                    prob_millis as int,
                    width as int,
                    height as int,
                ),
    {
        self.reap();
        proof {
            lemma_reaped_wf(old(self).fireworks@);
        }
        let ghost kept = self.fireworks@;
        let u = rng::sample_below(ee, PROBABILITY_ONE);
        let ghost mut launch: (int, i64, Rgb) = (0int, 0i64, Rgb { r: 0, g: 0, b: 0 });
        if u < prob_millis {
            let x = rng::sample_below(ee, width) as i64;
            let ys = -1000 - (rng::sample_below(ee, 1000) as i64);
            let c = rng::sample_color(ee);
            let fw = Firework::new(x, height as i64, ys, c);
            proof {
                launch = (x as int, ys, c);
            }
            let ghost gfw = fw;
            self.fireworks.push(fw);
            proof {
                assert(launched(gfw, launch.0, height as int, launch.1, launch.2));
                assert(0 <= launch.0 < width as int);
                assert(-2000 < launch.1 <= -1000);
                assert(self.fireworks@ == kept.push(gfw));
                assert forall|k: int| 0 <= k < self.fireworks@.len() implies fw_wf(
                    #[trigger] self.fireworks@[k],
                ) by {
                    if k < kept.len() {
                        assert(self.fireworks@[k] == kept[k]);
                    } else {
                        assert(self.fireworks@[k] == gfw);
                    }
                }
            }
        }
        let ghost mid = self.fireworks@;
        let n = self.fireworks.len();
        let mut i: usize = 0;
        while i < n
            invariant
                n == mid.len(),
                i <= n,
                self.fireworks@.len() == n,
                st_wf(mid),
                forall|k: int|
                    0 <= k < i ==> fw_step_rel(#[trigger] mid[k], self.fireworks@[k]) && fw_wf(
                        self.fireworks@[k],
                    ),
                forall|k: int| i <= k < n ==> self.fireworks@[k] == #[trigger] mid[k],
            decreases n - i,
        {
            self.fireworks[i].update(ee);
            proof {
                lemma_burst_size(mid[i as int], self.fireworks@[i as int]);
            }
            i += 1;
        }
        proof {
            let pre = old(self).fireworks@;
            let post = self.fireworks@;
            let ui = u as int;
            let prob = prob_millis as int;
            assert(kept == reaped(pre));
            assert forall|k: int| 0 <= k < post.len() implies fw_wf(#[trigger] post[k]) by {
                assert(fw_step_rel(mid[k], post[k]) && fw_wf(post[k]));
            }
            assert forall|k: int| 0 <= k < kept.len() implies fw_step_rel(
                #[trigger] reaped(pre)[k],
                post[k],
            ) by {
                assert(mid[k] == kept[k]);
                assert(fw_step_rel(mid[k], post[k]));
            }
            if ui < prob {
                let g = mid[kept.len() as int];
                assert(launched(g, launch.0, height as int, launch.1, launch.2));
                assert(fw_step_rel(g, post[kept.len() as int]));
                assert(tick_rel(pre, post, ui, prob, width as int, height as int));
            } else {
                assert(tick_rel(pre, post, ui, prob, width as int, height as int));
            }
        }
    }

    /// One tick with the standard spawn probability.
    pub fn update(&mut self, ee: &mut EngineEnvironment, width: u32, height: u32)
        requires
            width >= 1,
            st_wf(old(self).fireworks@),
        ensures
            st_wf(final(self).fireworks@),
            exists|u: int|
                0 <= u < 1000 && #[trigger] tick_rel(
                    old(self).fireworks@,
                    final(self).fireworks@,
                    u,
                    SPAWN_PROBABILITY as int,
                    width as int,
                    height as int,
                ),
    {
        self.update_with_probability(ee, width, height, SPAWN_PROBABILITY)
    }
}

/// Render the whole state: every firework's rectangles, in order, so
/// later fireworks draw on top.
pub fn render(state: &State) -> (f: Frame)
    ensures
        f.ops@ == st_ops(state.fireworks@),
{
    let mut frame = Frame::new();
    proof {
        assert(frame.ops@ =~= st_ops(state.fireworks@.take(0)));
    }
    let n = state.fireworks.len();
    let mut i: usize = 0;
    while i < n
        invariant
            n == state.fireworks@.len(),
            i <= n,
            frame.ops@ == st_ops(state.fireworks@.take(i as int)),
        decreases n - i,
    {
        state.fireworks[i].draw(&mut frame);
        proof {
            let s = state.fireworks@;
            assert(s.take(i + 1).drop_last() =~= s.take(i as int));
            assert(s.take(i + 1).last() == s[i as int]);
            assert(frame.ops@ =~= st_ops(s.take(i + 1)));
        }
        i += 1;
    }
    proof {
        assert(state.fireworks@.take(n as int) =~= state.fireworks@);
    }
    frame
}

/// Every firework of a well-formed state stays well formed after
/// reaping: reaping only removes entries.
pub proof fn lemma_reaped_wf(s: Seq<Firework>)
    requires
        st_wf(s),
    ensures
        st_wf(reaped(s)),
    decreases s.len(),
{
    if s.len() > 0 {
        assert(forall|i: int| 0 <= i < s.drop_last().len() ==> s.drop_last()[i] == #[trigger] s[i]);
        lemma_reaped_wf(s.drop_last());
    }
}

/// Nothing dead survives a reap.
pub proof fn lemma_reaped_alive(s: Seq<Firework>)
    ensures
        forall|j: int| 0 <= j < reaped(s).len() ==> !fw_dead(#[trigger] reaped(s)[j]),
    decreases s.len(),
{
    if s.len() > 0 {
        lemma_reaped_alive(s.drop_last());
        let rest = reaped(s.drop_last());
        assert forall|j: int| 0 <= j < reaped(s).len() implies !fw_dead(
            #[trigger] reaped(s)[j],
        ) by {
            if !fw_dead(s.last()) {
                assert(reaped(s) == rest.push(s.last()));
                if j < rest.len() {
                    assert(reaped(s)[j] == rest[j]);
                } else {
                    assert(reaped(s)[j] == s.last());
                }
            } else {
                assert(reaped(s) == rest);
            }
        }
    }
}

/// A reap of a sequence with no dead firework changes nothing.
pub proof fn lemma_reaped_all_alive(s: Seq<Firework>)
    requires
        forall|i: int| 0 <= i < s.len() ==> !fw_dead(#[trigger] s[i]),
    ensures
        reaped(s) == s,
    decreases s.len(),
{
    if s.len() > 0 {
        assert(forall|i: int| 0 <= i < s.drop_last().len() ==> s.drop_last()[i] == #[trigger] s[i]);
        lemma_reaped_all_alive(s.drop_last());
        assert(reaped(s) =~= s);
    }
}

/// With the spawn probability at zero an empty simulation stays empty
/// for the tick, and so, by induction over ticks, forever.
pub proof fn lemma_no_spawn(pre: Seq<Firework>, post: Seq<Firework>, u: int, w: int, h: int)
    requires
        tick_rel(pre, post, u, 0, w, h),
        0 <= u,
        pre.len() == 0,
    ensures
        post.len() == 0,
{
}

/// With the spawn probability at one every tick launches exactly one
/// firework: the state grows by one entry past the reaped survivors,
/// and by exactly one entry while nothing has died.
pub proof fn lemma_certain_spawn(
    pre: Seq<Firework>,
    post: Seq<Firework>,
    u: int,
    prob: int,
    w: int,
    h: int,
)
    requires
        tick_rel(pre, post, u, prob, w, h),
        0 <= u < 1000,
        prob >= 1000,
    ensures
        post.len() == reaped(pre).len() + 1,
        (forall|i: int| 0 <= i < pre.len() ==> !fw_dead(#[trigger] pre[i])) ==> post.len()
            == pre.len() + 1,
{
    if forall|i: int| 0 <= i < pre.len() ==> !fw_dead(#[trigger] pre[i]) {
        lemma_reaped_all_alive(pre);
    }
}

/// A run of ticks: `states` are the firework sequences after each
/// tick, `us` the spawn samples, one per step.
pub open spec fn run_rel(
    states: Seq<Seq<Firework>>,
    us: Seq<int>,
    prob: int,
    w: int,
    h: int,
) -> bool {
    &&& us.len() + 1 == states.len()
    &&& forall|i: int|
        0 <= i < us.len() ==> 0 <= #[trigger] us[i] < 1000 && tick_rel(
            states[i],
            states[i + 1],
            us[i],
            prob,
            w,
            h,
        )
}

/// With the spawn probability at zero, a simulation that starts empty
/// is still empty after any number of ticks.
pub proof fn lemma_empty_stays_empty(
    states: Seq<Seq<Firework>>,
    us: Seq<int>,
    w: int,
    h: int,
    n: int,
)
    requires
        run_rel(states, us, 0, w, h),
        states.len() >= 1,
        states[0].len() == 0,
        0 <= n < states.len(),
    ensures
        states[n].len() == 0,
    decreases n,
{
    if n > 0 {
        lemma_empty_stays_empty(states, us, w, h, n - 1);
        lemma_no_spawn(states[n - 1], states[n], us[n - 1], w, h);
    }
}

/// With the spawn probability at one, each tick adds exactly one
/// firework as long as none has died: after `n` such ticks the
/// simulation holds exactly `n` more fireworks than it started with.
pub proof fn lemma_one_per_tick(
    states: Seq<Seq<Firework>>,
    us: Seq<int>,
    prob: int,
    w: int,
    h: int,
    n: int,
)
    requires
        run_rel(states, us, prob, w, h),
        prob >= 1000,
        states.len() >= 1,
        0 <= n < states.len(),
        forall|i: int, j: int|
            0 <= i < states.len() && 0 <= j < states[i].len() ==> !fw_dead(
                #[trigger] states[i][j],
            ),
    ensures
        states[n].len() == states[0].len() + n,
    decreases n,
{
    if n > 0 {
        lemma_one_per_tick(states, us, prob, w, h, n - 1);
        lemma_certain_spawn(states[n - 1], states[n], us[n - 1], prob, w, h);
    }
}

/// Reap comes strictly before spawn: the spawn decision and the
/// advance phase only ever see the reaped sequence, which holds no
/// dead firework; a firework dead at the start of a tick is gone
/// before that tick's spawn is evaluated.
pub proof fn lemma_reap_before_spawn(
    pre: Seq<Firework>,
    post: Seq<Firework>,
    u: int,
    prob: int,
    w: int,
    h: int,
)
    requires
        tick_rel(pre, post, u, prob, w, h),
    ensures
        forall|j: int| 0 <= j < reaped(pre).len() ==> !fw_dead(#[trigger] reaped(pre)[j]),
        forall|i: int|
            0 <= i < pre.len() && fw_dead(#[trigger] pre[i]) ==> !reaped(pre).contains(pre[i]),
{
    lemma_reaped_alive(pre);
    assert forall|i: int|
        0 <= i < pre.len() && fw_dead(#[trigger] pre[i]) implies !reaped(pre).contains(
        pre[i],
    ) by {
        if reaped(pre).contains(pre[i]) {
            let j = choose|j: int| 0 <= j < reaped(pre).len() && reaped(pre)[j] == pre[i];
            assert(!fw_dead(reaped(pre)[j]));
        }
    }
}

} // verus!

