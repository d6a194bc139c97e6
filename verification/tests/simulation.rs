use fireworks::color::Rgb;
use fireworks::firework::Firework;
use fireworks::firework::BURST_COUNT;
use fireworks::frame::Frame;
use fireworks::particle::Particle;
use fireworks::state::render;
use fireworks::state::State;
use pixel_loop::EngineEnvironment;

fn env() -> EngineEnvironment {
    EngineEnvironment::default()
}

#[test]
fn immortal_rocket_keeps_lifetime() {
    // fading == 0 leaves the lifetime untouched, tick after tick.
    let mut p = Particle::new(5, 5, 1, 3, Rgb::from_rgb(255, 255, 255))
        .with_fading(0)
        .with_speed(0, -1500)
        .with_acceleration(0, 20);
    for _ in 0..500 {
        p.update();
        assert_eq!(p.lifetime, 1000);
    }
}

#[test]
fn dead_particle_is_frozen() {
    let mut p = Particle::new(7, 9, 1, 1, Rgb::from_rgb(10, 20, 30))
        .with_speed(300, -400);
    p.lifetime = 0;
    let before = (p.position, p.speed, p.lifetime);
    for _ in 0..100 {
        p.update();
    }
    assert_eq!((p.position, p.speed, p.lifetime), before);
}

#[test]
fn particle_steps_semi_implicit() {
    // The new speed moves the particle: acceleration first, then motion.
    let mut p = Particle::new(0, 0, 1, 1, Rgb::from_rgb(1, 2, 3))
        .with_speed(100, -200)
        .with_acceleration(10, 20);
    p.update();
    assert_eq!(p.speed, (110, -180));
    assert_eq!(p.position, (110, -180));
    assert_eq!(p.lifetime, 990);
}

#[test]
fn live_particle_draws_scaled_color() {
    let mut p = Particle::new(10, 20, 1, 1, Rgb::from_rgb(255, 100, 0));
    p.position = (10400, 20600);
    p.lifetime = 500;
    let mut frame = Frame::new();
    p.draw(&mut frame);
    assert_eq!(frame.ops.len(), 1);
    let op = frame.ops[0];
    assert_eq!((op.x, op.y), (10, 21));
    assert_eq!((op.width, op.height), (1, 1));
    assert_eq!((op.color.r, op.color.g, op.color.b), (128, 50, 0));
}

#[test]
fn dead_particle_draws_nothing() {
    let mut p = Particle::new(1, 1, 2, 2, Rgb::from_rgb(9, 9, 9));
    p.lifetime = 0;
    let mut frame = Frame::new();
    p.draw(&mut frame);
    assert_eq!(frame.ops.len(), 0);
}

#[test]
fn rocket_ascends_then_bursts_once() {
    // Launch at (10, 100) rising at -1.5: the rocket climbs while its
    // vertical speed stays at or below -0.3, then one tick produces the
    // whole burst and discards the rocket.
    let mut ee = env();
    let mut fw = Firework::new(10, 100, -1500, Rgb::from_rgb(255, 0, 0));
    let mut ticks: u32 = 0;
    loop {
        let y_before = fw.rocket.as_ref().unwrap().position.1;
        fw.update(&mut ee);
        ticks += 1;
        match fw.rocket {
            Some(ref r) => {
                assert!(r.speed.1 <= -300);
                assert!(r.position.1 < y_before, "rocket must move up");
                assert_eq!(fw.effect.len(), 0, "no burst before detonation");
            }
            None => break,
        }
        assert!(ticks < 1000, "rocket never detonated");
    }
    // -1500 + 20 * 61 == -280 > -300: detonation on tick 61.
    assert_eq!(ticks, 61);
    assert_eq!(fw.effect.len(), BURST_COUNT);
    // The burst never grows afterward.
    for _ in 0..50 {
        fw.update(&mut ee);
        assert_eq!(fw.effect.len(), BURST_COUNT);
        assert!(fw.rocket.is_none());
    }
}

#[test]
fn burst_particles_start_within_ranges() {
    let mut ee = env();
    let mut fw = Firework::new(40, 200, -1200, Rgb::from_rgb(30, 200, 90));
    while fw.rocket.is_some() {
        fw.update(&mut ee);
    }
    // The first update after detonation has already stepped each burst
    // particle once: speeds have gained one tick of gravity.
    for p in fw.effect.iter() {
        assert_eq!(p.dimensions, (1, 1));
        assert_eq!(p.acceleration, (0, 20));
        assert_eq!(p.fading, 10);
        assert_eq!(p.lifetime, 990);
        assert!(p.speed.0 >= -750 && p.speed.0 < 750);
        assert!(p.speed.1 >= -1330 && p.speed.1 < 170);
    }
}

#[test]
fn firework_fades_to_death() {
    let mut ee = env();
    let mut fw = Firework::new(0, 50, -1000, Rgb::from_rgb(200, 10, 10));
    let mut ticks: u32 = 0;
    while !fw.is_dead() {
        fw.update(&mut ee);
        ticks += 1;
        assert!(ticks < 1000, "firework never died");
    }
    assert!(fw.rocket.is_none());
    assert_eq!(fw.effect.len(), BURST_COUNT);
    for p in fw.effect.iter() {
        assert!(p.lifetime <= 0);
    }
}

#[test]
fn zero_probability_spawns_nothing() {
    let mut ee = env();
    let mut st = State::new();
    for _ in 0..1000 {
        st.update_with_probability(&mut ee, 80, 48, 0);
        assert_eq!(st.fireworks.len(), 0);
    }
}

#[test]
fn certain_probability_spawns_one_per_tick() {
    let mut ee = env();
    let mut st = State::new();
    for n in 1..=10 {
        st.update_with_probability(&mut ee, 80, 48, 1000);
        assert_eq!(st.fireworks.len(), n, "one new firework per tick");
    }
}

#[test]
fn reap_removes_dead_before_spawn() {
    // A dead firework present at the start of a tick is gone by the end
    // of that tick's reap, whatever the spawn decision was.
    let mut ee = env();
    let mut st = State::new();
    st.fireworks.push(Firework {
        rocket: None,
        effect: Vec::new(),
        base_color: Rgb::from_rgb(1, 2, 3).as_hsl(),
    });
    assert!(st.fireworks[0].is_dead());
    st.update_with_probability(&mut ee, 80, 48, 1000);
    // The dead entry was reaped first, then exactly one was spawned.
    assert_eq!(st.fireworks.len(), 1);
    assert!(!st.fireworks[0].is_dead());
}

#[test]
fn reap_keeps_live_fireworks_in_order() {
    let mut st = State::new();
    st.fireworks.push(Firework::new(1, 10, -1500, Rgb::from_rgb(255, 0, 0)));
    st.fireworks.push(Firework {
        rocket: None,
        effect: Vec::new(),
        base_color: Rgb::from_rgb(0, 0, 0).as_hsl(),
    });
    st.fireworks.push(Firework::new(2, 10, -1700, Rgb::from_rgb(0, 255, 0)));
    st.reap();
    assert_eq!(st.fireworks.len(), 2);
    assert_eq!(st.fireworks[0].rocket.as_ref().unwrap().position.0, 1000);
    assert_eq!(st.fireworks[1].rocket.as_ref().unwrap().position.0, 2000);
}

#[test]
fn render_draws_rockets_on_their_columns() {
    let mut st = State::new();
    st.fireworks.push(Firework::new(3, 40, -1500, Rgb::from_rgb(255, 0, 0)));
    st.fireworks.push(Firework::new(7, 40, -1500, Rgb::from_rgb(0, 0, 255)));
    let frame = render(&st);
    assert_eq!(frame.ops.len(), 2);
    assert_eq!((frame.ops[0].x, frame.ops[0].y), (3, 40));
    assert_eq!((frame.ops[1].x, frame.ops[1].y), (7, 40));
    // Rockets are white 1x3 rectangles at full brightness.
    assert_eq!((frame.ops[0].width, frame.ops[0].height), (1, 3));
    assert_eq!(
        (frame.ops[0].color.r, frame.ops[0].color.g, frame.ops[0].color.b),
        (255, 255, 255)
    );
}

#[test]
fn well_formedness_is_checkable() {
    let fw = Firework::new(5, 10, -1500, Rgb::from_rgb(90, 30, 200));
    assert!(fw.is_well_formed());
    let bad = Firework {
        rocket: fw.rocket,
        effect: Vec::new(),
        base_color: fireworks::color::Hsl::new(400000, 0, 0),
    };
    assert!(!bad.is_well_formed());
    let mut st = State::new();
    assert!(st.is_well_formed());
    st.fireworks.push(Firework::new(1, 2, -1100, Rgb::from_rgb(0, 0, 0)));
    assert!(st.is_well_formed());
    st.fireworks.push(bad);
    assert!(!st.is_well_formed());
}

#[test]
fn sampling_respects_bounds() {
    let mut ee = env();
    for _ in 0..200 {
        let v = fireworks::rng::sample_below(&mut ee, 10);
        assert!(v < 10);
    }
}

#[test]
fn standard_update_runs() {
    let mut ee = env();
    let mut st = State::new();
    let mut ticks_with_spawn: usize = 0;
    for _ in 0..300 {
        let before = st.fireworks.len();
        st.update(&mut ee, 80, 48);
        // Reap can only shrink the state; the spawn adds at most one.
        assert!(st.fireworks.len() <= before + 1);
        if st.fireworks.len() > before {
            ticks_with_spawn += 1;
        }
    }
    // A 10% spawn chance over 300 ticks fires essentially always.
    assert!(ticks_with_spawn >= 1);
}
