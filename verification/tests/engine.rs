//! The engine end to end: stepping, merging, history and rewind.

use orbit_simulator::bodies::{Body, Kinemat, Orbiter, Vec2};
use orbit_simulator::system::{SimConfig, SimulationMode, SolarSystem};

/// Gravitational constant in SI units, for expected-value math.
const G: f64 = 6.674e-11;

fn body(mass: u128, radius: u128, immovable: bool) -> Body {
    Body {
        mass,
        radius,
        color: 0x123456,
        outline: 0x654321,
        name: "B".to_string(),
        immovable,
    }
}

fn kin(px: i128, py: i128, vx: i128, vy: i128) -> Kinemat {
    Kinemat::new(Vec2 { x: px, y: py }, Vec2 { x: vx, y: vy })
}

fn wide_open(save_every: u64, max_saves: usize) -> SimConfig {
    SimConfig {
        save_every,
        max_saves,
        min_pull_mass: 0,
        max_pull_distance: 1_000_000_000_000_000_000,
    }
}

/// Earth and Moon at their real separation, on circular orbits about
/// their barycenter. Positions in mm, velocities in um/s.
fn earth_moon() -> (SolarSystem, f64, f64) {
    let m1: f64 = 5.97e24;
    let m2: f64 = 7.342e22;
    let r: f64 = 3.844e8; // metres
    let k = (G / ((m1 + m2) * r)).sqrt();
    let v1 = m2 * k; // earth's speed, m/s
    let v2 = m1 * k; // moon's speed, m/s
    let earth = Orbiter(
        body(5_970_000_000_000_000_000_000_000, 6_371_000_000, false),
        kin(0, 0, 0, -((v1 * 1e6) as i128)),
    );
    let moon = Orbiter(
        body(73_420_000_000_000_000_000_000, 1_737_400_000, false),
        kin((r * 1e3) as i128, 0, 0, (v2 * 1e6) as i128),
    );
    let sys = SolarSystem::with_config(vec![earth, moon], wide_open(1_000_000, 4));
    (sys, m1, m2)
}

fn positions(sys: &SolarSystem) -> Vec<(usize, (i128, i128), (i128, i128))> {
    sys.get_orbiters()
        .into_iter()
        .map(|(id, o)| (id, (o.1.pos.x, o.1.pos.y), (o.1.vel.x, o.1.vel.y)))
        .collect()
}

#[test]
fn ids_are_sequential_and_queryable() {
    let mut sys = SolarSystem::with_config(Vec::new(), wide_open(10, 4));
    let a = sys.add_orbiter(Orbiter(body(100, 10, false), kin(0, 0, 0, 0)));
    let b = sys.add_orbiter(Orbiter(body(200, 10, false), kin(5_000, 0, 0, 0)));
    assert_eq!(a, 0);
    assert_eq!(b, 1);
    assert_eq!(sys.get_body(0).unwrap().mass, 100);
    assert_eq!(sys.get_body(1).unwrap().mass, 200);
    assert!(sys.get_body(2).is_none());
}

#[test]
fn get_orbiters_is_ordered_and_complete() {
    let mut sys = SolarSystem::with_config(Vec::new(), wide_open(10, 4));
    for i in 0..5u128 {
        sys.add_orbiter(Orbiter(
            body(100 + i, 10, false),
            kin(1_000_000_000 * i as i128, 0, 0, 0),
        ));
    }
    let orbs = sys.get_orbiters();
    assert_eq!(orbs.len(), 5);
    for (k, (id, o)) in orbs.iter().enumerate() {
        assert_eq!(*id, k);
        assert_eq!(o.0.mass, 100 + k as u128);
    }
}

#[test]
fn collision_merges_into_single_survivor() {
    // Two bodies closer than the sum of their radii: after exactly
    // one step a single body remains, of exactly the summed mass,
    // and both original ids are gone from the active table.
    let m1: u128 = 5_000_000_000_000_000_000_000_000;
    let m2: u128 = 70_000_000_000_000_000_000_000;
    let a = Orbiter(body(m1, 2_000_000_000, false), kin(0, 0, 0, 0));
    let b = Orbiter(body(m2, 2_000_000_000, false), kin(3_000_000_000, 0, 0, 0));
    let mut sys = SolarSystem::with_config(vec![a, b], wide_open(1_000_000, 4));
    sys.update(1_000);
    let orbs = sys.get_orbiters();
    assert_eq!(orbs.len(), 1);
    let (id, merged) = &orbs[0];
    assert_eq!(*id, 2);
    assert_eq!(merged.0.mass, m1 + m2);
    assert!(!orbs.iter().any(|(id, _)| *id == 0 || *id == 1));
}

#[test]
fn registry_keeps_consumed_ids_after_merge() {
    // Id permanence: the records of merged-away ids stay readable
    // and unchanged.
    let m1: u128 = 5_000_000_000_000_000_000_000_000;
    let m2: u128 = 70_000_000_000_000_000_000_000;
    let a = Orbiter(body(m1, 2_000_000_000, false), kin(0, 0, 0, 0));
    let b = Orbiter(body(m2, 2_000_000_000, false), kin(3_000_000_000, 0, 0, 0));
    let mut sys = SolarSystem::with_config(vec![a, b], wide_open(1_000_000, 4));
    sys.update(1_000);
    assert_eq!(sys.get_body(0).unwrap().mass, m1);
    assert_eq!(sys.get_body(1).unwrap().mass, m2);
    assert_eq!(sys.get_body(2).unwrap().mass, m1 + m2);
}

#[test]
fn history_never_exceeds_its_bound() {
    // Save every step, keep at most 3: after many more steps than
    // that, the history holds exactly 3 snapshots.
    let a = Orbiter(body(1_000, 10, false), kin(0, 0, 0, 0));
    let mut sys = SolarSystem::with_config(vec![a], wide_open(1, 3));
    for step in 0..10 {
        sys.update(1_000);
        assert!(sys.history_length() <= 3, "bound broken at step {}", step);
    }
    assert_eq!(sys.history_length(), 3);
}

#[test]
fn mode_is_always_exactly_one_state() {
    let a = Orbiter(body(1_000, 10, false), kin(0, 0, 0, 0));
    let mut sys = SolarSystem::with_config(vec![a], wide_open(1, 4));
    assert!(matches!(sys.get_mode(), SimulationMode::Simulating));
    sys.update(1_000);
    sys.enable_load();
    assert!(matches!(sys.get_mode(), SimulationMode::LoadingSave(_)));
    sys.exit_load();
    assert!(matches!(sys.get_mode(), SimulationMode::Simulating));
}

#[test]
fn change_load_clamps_and_never_fails() {
    let a = Orbiter(body(1_000, 10, false), kin(0, 0, 0, 0));
    let mut sys = SolarSystem::with_config(vec![a], wide_open(1, 5));
    for _ in 0..4 {
        sys.update(1_000);
    }
    sys.enable_load();
    let len = sys.history_length();
    assert_eq!(sys.get_mode(), SimulationMode::LoadingSave(len - 1));
    sys.change_load(-1000);
    assert_eq!(sys.get_mode(), SimulationMode::LoadingSave(0));
    sys.change_load(2);
    assert_eq!(sys.get_mode(), SimulationMode::LoadingSave(2));
    sys.change_load(isize::MAX);
    assert_eq!(sys.get_mode(), SimulationMode::LoadingSave(len - 1));
    sys.exit_load();
}

#[test]
fn rewind_round_trip_restores_state_exactly() {
    // enable_load then exit_load with no move in between gives back
    // bit-identical positions and velocities.
    let (mut sys, _, _) = earth_moon();
    for _ in 0..50 {
        sys.update(60_000);
    }
    let before = positions(&sys);
    sys.enable_load();
    sys.exit_load();
    let after = positions(&sys);
    assert_eq!(before, after);
}

#[test]
fn update_while_viewing_is_frozen() {
    let (mut sys, _, _) = earth_moon();
    sys.update(60_000);
    sys.enable_load();
    let before = positions(&sys);
    for _ in 0..5 {
        sys.update(60_000);
    }
    assert_eq!(positions(&sys), before);
    sys.exit_load();
}

#[test]
fn exit_load_truncates_newer_history() {
    let a = Orbiter(body(1_000, 10, false), kin(0, 0, 0, 0));
    let mut sys = SolarSystem::with_config(vec![a], wide_open(1, 10));
    for _ in 0..6 {
        sys.update(1_000);
    }
    sys.enable_load();
    assert_eq!(sys.history_length(), 7);
    sys.change_load(-4); // view snapshot 2
    sys.exit_load();
    assert_eq!(sys.history_length(), 3); // snapshots 0..=2 survive
}

#[test]
fn gravity_formula_is_exact_fixed_point() {
    // One puller, one pebble 1000 km away on the x axis. The pull on
    // the pebble is m * 66740 / d2 nanometres per second squared,
    // applied for one second; every division truncates toward zero.
    let m: u128 = 5_970_000_000_000_000_000_000_000;
    let puller = Orbiter(body(m, 1_000_000, false), kin(0, 0, 0, 0));
    let pebble = Orbiter(body(1_000, 1_000, false), kin(1_000_000_000, 0, 0, 0));
    let cfg = SimConfig {
        save_every: 1_000_000,
        max_saves: 4,
        min_pull_mass: 1_000_000,
        max_pull_distance: 1_000_000_000_000_000_000,
    };
    let mut sys = SolarSystem::with_config(vec![puller, pebble], cfg);
    sys.update(1_000);
    let orbs = sys.get_orbiters();
    // acc = 5.97e24 * 66740 / 1e18 = 398_437_800_000 nm/s^2 toward
    // the puller; dv = acc / 1000 um/s; dp = dv * 1 s / 1e6 mm.
    let k = &orbs[1].1 .1;
    assert_eq!(k.vel, Vec2 { x: -398_437_800, y: 0 });
    assert_eq!(
        k.pos,
        Vec2 {
            x: 1_000_000_000 - 398_437,
            y: 0
        }
    );
    // The puller itself felt nothing: the pebble is under the
    // threshold.
    assert_eq!(orbs[0].1 .1.vel, Vec2 { x: 0, y: 0 });
    assert_eq!(orbs[0].1 .1.pos, Vec2 { x: 0, y: 0 });
}

#[test]
fn rewind_past_a_merge_revives_old_ids() {
    // A merge happens after the first snapshot; rewinding to that
    // snapshot brings the consumed ids back, and the merge product,
    // which nothing references any more, is pruned from the registry.
    let m1: u128 = 5_000_000_000_000_000_000_000_000;
    let m2: u128 = 70_000_000_000_000_000_000_000;
    let a = Orbiter(body(m1, 2_000_000_000, false), kin(0, 0, 0, 0));
    let b = Orbiter(body(m2, 2_000_000_000, false), kin(3_000_000_000, 0, 0, 0));
    let mut sys = SolarSystem::with_config(vec![a, b], wide_open(1, 10));
    sys.update(1_000); // snapshot of {0, 1}, then the merge
    sys.update(1_000); // snapshot of {2}
    assert_eq!(sys.get_orbiters().len(), 1);
    sys.enable_load();
    sys.change_load(-1000); // view the oldest snapshot
    sys.exit_load();
    let orbs = sys.get_orbiters();
    assert_eq!(orbs.len(), 2);
    assert_eq!(orbs[0].0, 0);
    assert_eq!(orbs[1].0, 1);
    assert_eq!(orbs[1].1 .1.pos, Vec2 { x: 3_000_000_000, y: 0 });
    assert!(sys.get_body(0).is_some());
    assert!(sys.get_body(1).is_some());
    // Only the restored table and older snapshots survive, so the
    // merge product's record is gone and its id is never reused.
    assert!(sys.get_body(2).is_none());
    assert_eq!(sys.history_length(), 1);
    // Simulation resumes cleanly: the same collision happens again,
    // and the pruned id 2 is not reused for the new product.
    sys.update(1_000);
    let orbs = sys.get_orbiters();
    assert_eq!(orbs.len(), 1);
    assert_eq!(orbs[0].0, 3);
    assert_eq!(orbs[0].1 .0.mass, m1 + m2);
}

#[test]
fn momentum_stays_near_constant_without_collision() {
    // An isolated two-body system: total momentum drifts only by the
    // fixed-point truncation, well under one percent of the moon's
    // momentum over a simulated day.
    let (mut sys, m1, m2) = earth_moon();
    let p = |sys: &SolarSystem| -> (f64, f64) {
        let orbs = sys.get_orbiters();
        let mut px = 0.0;
        let mut py = 0.0;
        for (_, o) in orbs {
            let m = o.0.mass as f64;
            px += m * o.1.vel.x as f64 * 1e-6;
            py += m * o.1.vel.y as f64 * 1e-6;
        }
        (px, py)
    };
    let (px0, py0) = p(&sys);
    for _ in 0..8640 {
        sys.update(10_000); // 10 s steps, one day in all
    }
    assert_eq!(sys.get_orbiters().len(), 2, "no collision expected");
    let (px1, py1) = p(&sys);
    let scale = m2 * (G * (m1 + m2) / 3.844e8).sqrt(); // moon momentum
    let drift = ((px1 - px0).powi(2) + (py1 - py0).powi(2)).sqrt();
    assert!(
        drift < 0.01 * scale,
        "momentum drift {} exceeds 1% of {}",
        drift,
        scale
    );
}

#[test]
fn earth_moon_separation_holds_for_a_day() {
    // Circular-orbit seeding from G: after one simulated day the
    // separation is still within a few percent of 3.844e8 m.
    let (mut sys, _, _) = earth_moon();
    for _ in 0..8640 {
        sys.update(10_000);
    }
    let orbs = sys.get_orbiters();
    assert_eq!(orbs.len(), 2);
    let a = &orbs[0].1 .1;
    let b = &orbs[1].1 .1;
    let dx = (a.pos.x - b.pos.x) as f64 * 1e-3;
    let dy = (a.pos.y - b.pos.y) as f64 * 1e-3;
    let d = (dx * dx + dy * dy).sqrt();
    let rel = (d - 3.844e8).abs() / 3.844e8;
    assert!(rel < 0.03, "separation {} drifted {}", d, rel);
}

#[test]
fn mass_is_conserved_across_steps_with_merges() {
    // Three bodies, two of them colliding: the total active mass
    // after the step equals the total before it.
    let a = Orbiter(body(1_000_000, 1_000_000, false), kin(0, 0, 0, 0));
    let b = Orbiter(body(2_000_000, 1_000_000, false), kin(1_500_000, 0, 0, 0));
    let c = Orbiter(
        body(4_000_000, 1_000_000, false),
        kin(900_000_000_000, 0, 0, 0),
    );
    let mut sys = SolarSystem::with_config(vec![a, b, c], wide_open(1_000_000, 4));
    let total =
        |sys: &SolarSystem| -> u128 { sys.get_orbiters().into_iter().map(|(_, o)| o.0.mass).sum() };
    let t0 = total(&sys);
    sys.update(1_000);
    assert_eq!(total(&sys), t0);
    assert_eq!(sys.get_orbiters().len(), 2);
}

#[test]
fn immovable_body_is_never_pulled_or_merged() {
    // An immovable body is skipped as a pull and collision target.
    let star = Orbiter(body(5_000_000_000_000_000_000_000_000, 2_000_000_000, true), kin(0, 0, 0, 0));
    let rock = Orbiter(
        body(70_000_000_000_000_000_000_000, 2_000_000_000, true),
        kin(3_000_000_000, 0, 0, 0),
    );
    let mut sys = SolarSystem::with_config(vec![star, rock], wide_open(1_000_000, 4));
    sys.update(1_000);
    let orbs = sys.get_orbiters();
    assert_eq!(orbs.len(), 2);
    assert_eq!(orbs[0].1 .1.pos, Vec2 { x: 0, y: 0 });
    assert_eq!(
        orbs[1].1 .1.pos,
        Vec2 {
            x: 3_000_000_000,
            y: 0
        }
    );
}
