//! Arithmetic helpers, merge rules, and prefab bodies.

use orbit_simulator::bodies::{
    merge_bodies, merge_kinemat, mix_colors, Body, Kinemat, Vec2,
};
use orbit_simulator::nums::{clamp, iabs, icbrt, isqrt, scale_signed, ACC_SUM_LIMIT};
use orbit_simulator::prefabs;

fn body(mass: u128, radius: u128, immovable: bool) -> Body {
    Body {
        mass,
        radius,
        color: 0xff0000,
        outline: 0x00ff00,
        name: "T".to_string(),
        immovable,
    }
}

#[test]
fn isqrt_exact_values() {
    assert_eq!(isqrt(0), 0);
    assert_eq!(isqrt(1), 1);
    assert_eq!(isqrt(3), 1);
    assert_eq!(isqrt(4), 2);
    assert_eq!(isqrt(99), 9);
    assert_eq!(isqrt(100), 10);
    assert_eq!(isqrt(1_000_000_000_000), 1_000_000);
    assert_eq!(isqrt(u128::MAX), (1u128 << 64) - 1);
}

#[test]
fn icbrt_exact_values() {
    assert_eq!(icbrt(0), 0);
    assert_eq!(icbrt(1), 1);
    assert_eq!(icbrt(7), 1);
    assert_eq!(icbrt(8), 2);
    assert_eq!(icbrt(26), 2);
    assert_eq!(icbrt(27), 3);
    assert_eq!(icbrt(1_000_000_000_000_000_000), 1_000_000);
}

#[test]
fn scale_and_clamp_exact() {
    // 7 * 3 / 2 truncates toward zero, also for negatives.
    assert_eq!(scale_signed(7, 3, 2), 10);
    assert_eq!(scale_signed(-7, 3, 2), -10);
    assert_eq!(scale_signed(0, 5, 7), 0);
    assert_eq!(iabs(-5), 5);
    assert_eq!(iabs(i128::MIN), 1u128 << 127);
    assert_eq!(clamp(10, 3), 3);
    assert_eq!(clamp(-10, 3), -3);
    assert_eq!(clamp(2, 3), 2);
}

#[test]
fn mix_colors_even_weights() {
    // Each channel averages half-and-half, rounding down.
    assert_eq!(mix_colors(0xff0000, 1, 0x000000, 1), 0x7f0000);
    assert_eq!(mix_colors(0x00ff00, 1, 0x000000, 1), 0x007f00);
    assert_eq!(mix_colors(0x0000ff, 1, 0x0000ff, 1), 0x0000ff);
    assert_eq!(mix_colors(0x102030, 1, 0x304050, 1), 0x203040);
}

#[test]
fn mix_colors_mass_weighted() {
    // A weight of 3:1 pulls the channel three quarters of the way.
    assert_eq!(mix_colors(0x000000, 1, 0x000040, 3), 0x000030);
}

#[test]
fn merge_adds_masses_exactly() {
    let a = body(5_970_000_000_000_000_000_000_000, 6_371_000_000, false);
    let b = body(73_420_000_000_000_000_000_000, 1_737_400_000, false);
    let m = merge_bodies(&a, &b);
    assert_eq!(m.mass, a.mass + b.mass);
}

#[test]
fn merge_radius_is_cbrt_of_summed_cubes() {
    // Volumes add: radii 30 and 40 merge into the rounded-down cube
    // root of 27000 + 64000 = 91000, not into the plain sum.
    let a = body(10, 30, false);
    let b = body(10, 40, false);
    let m = merge_bodies(&a, &b);
    assert_eq!(m.radius, icbrt(30u128.pow(3) + 40u128.pow(3)));
    assert_eq!(m.radius, 44); // cbrt(91000) = 44.98..., rounded down
}

#[test]
fn merge_concatenates_names() {
    let mut a = body(10, 30, false);
    a.name = "Alpha".to_string();
    let mut b = body(10, 40, false);
    b.name = "Beta".to_string();
    let m = merge_bodies(&a, &b);
    assert_eq!(m.name, "Alpha & Beta");
}

#[test]
fn merge_immovability_is_inherited() {
    let a = body(10, 30, false);
    let b = body(10, 40, true);
    assert!(merge_bodies(&a, &b).immovable);
    assert!(!merge_bodies(&a, &a.clone()).immovable);
}

#[test]
fn merge_kinemat_movable_pair_is_zeroed() {
    // The literal rule: unless a movable puller absorbs an immovable
    // body, the merge product starts at rest at the origin.
    let a = body(10, 30, false);
    let b = body(10, 40, false);
    let ka = Kinemat::new(Vec2 { x: 100, y: 200 }, Vec2 { x: 5, y: 6 });
    let kb = Kinemat::new(Vec2 { x: 300, y: 400 }, Vec2 { x: 7, y: 8 });
    let m = merge_kinemat(&a, &ka, &b, &kb);
    assert_eq!(m.pos, Vec2 { x: 0, y: 0 });
    assert_eq!(m.vel, Vec2 { x: 0, y: 0 });
}

#[test]
fn merge_kinemat_immovable_other_is_weighted() {
    // Equal masses: position and velocity land halfway.
    let a = body(10, 30, false);
    let b = body(10, 40, true);
    let ka = Kinemat::new(Vec2 { x: 0, y: 0 }, Vec2 { x: 0, y: 100 });
    let kb = Kinemat::new(Vec2 { x: 1000, y: 0 }, Vec2 { x: 0, y: 300 });
    let m = merge_kinemat(&a, &ka, &b, &kb);
    assert_eq!(m.pos, Vec2 { x: 500, y: 0 });
    assert_eq!(m.vel, Vec2 { x: 0, y: 200 });
}

#[test]
fn kinemat_update_is_exact_integer_integration() {
    // Semi-implicit Euler: the velocity absorbs the acceleration
    // first, then the position absorbs the new velocity.
    let mut k = Kinemat::new(Vec2 { x: 1_000, y: 0 }, Vec2 { x: 4_000_000, y: 0 });
    k.update(3_000, Vec2 { x: 2_000_000, y: 0 });
    // velocity: 4_000_000 um/s + 2e6 nm/s^2 * 3 s = 4_006_000 um/s.
    assert_eq!(k.vel, Vec2 { x: 4_006_000, y: 0 });
    // position: 1_000 mm + 4_006_000 um/s * 3 s = 1_000 + 12_018 mm.
    assert_eq!(k.pos, Vec2 { x: 13_018, y: 0 });
    assert!(k.vel.x <= ACC_SUM_LIMIT);
}

#[test]
fn prefab_lookup_finds_known_bodies() {
    let sol = prefabs::get_body_from_id("sol".to_string());
    assert_eq!(sol.name, "Sol");
    assert!(sol.immovable);
    assert_eq!(sol.mass, 1_988_400_000_000_000_000_000_000_000_000u128);
    let luna = prefabs::get_body_from_id("luna".to_string());
    assert_eq!(luna.mass, 73_420_000_000_000_000_000_000u128);
    assert_eq!(luna.radius, 1_737_400_000u128);
    assert!(!luna.immovable);
}

#[test]
fn prefab_lookup_rejects_unknown_names() {
    assert!(prefabs::find_prefab("phlebotinum").is_none());
    assert!(prefabs::find_prefab("").is_none());
    assert!(prefabs::find_prefab("halleys_comet").is_some());
}
