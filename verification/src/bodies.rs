//! Bodies, kinematic state, and the merge rules applied on collision.
//!
//! A [`Body`] holds the immutable physical attributes of a star, planet
//! or other orbiter; a [`Kinemat`] holds its current position and
//! velocity. An [`Orbiter`] pairs the two. Masses are kilograms, radii
//! and positions millimetres, velocities micrometres per second.

use vstd::prelude::*;

use crate::nums::{
    clamp, iabs, icbrt, scale_signed, spec_abs, spec_clamp, spec_icbrt, spec_scale,
    ACC_SUM_LIMIT, COORD_LIMIT, DT_LIMIT, MASS_LIMIT, MICRO, VOLUME_LIMIT,
};

verus! {

/// Denominator of the mass-weight ratio used when merging kinematic
/// state: weights are expressed in 2^20ths.
pub const WEIGHT_SCALE: u128 = 1_048_576;

/// A two-dimensional vector of fixed-point coordinates.
#[derive(Clone, Copy, Debug, PartialEq, Eq, Structural)]
pub struct Vec2 {
    pub x: i128,
    pub y: i128,
}

impl Vec2 {
    /// The zero vector.
    pub fn zero() -> (v: Vec2)
        ensures
            v.x == 0 && v.y == 0,
    {
        Vec2 { x: 0, y: 0 }
    }
}

/// The representation of a body: a star, planet, comet...
/// Does not store its position or velocity.
#[derive(Clone, Debug)]
pub struct Body {
    /// Mass in kilograms.
    pub mass: u128,
    /// Radius in millimetres.
    pub radius: u128,
    /// Fill color, stored as 0xRRGGBB.
    pub color: u32,
    /// Outline color, stored as 0xRRGGBB.
    pub outline: u32,
    /// Display name.
    pub name: String,
    /// An immovable body is never pulled, never moves, and never
    /// merges into another.
    pub immovable: bool,
}

/// The mathematical content of a [`Body`].
pub ghost struct BodyView {
    pub mass: int,
    pub radius: int,
    pub color: int,
    pub outline: int,
    pub name: Seq<char>,
    pub immovable: bool,
}

impl View for Body {
    type V = BodyView;

    open spec fn view(&self) -> BodyView {
        BodyView {
            mass: self.mass as int,
            radius: self.radius as int,
            color: self.color as int,
            outline: self.outline as int,
            name: self.name@,
            immovable: self.immovable,
        }
    }
}

/// A body the engine can hold: mass and radius strictly positive and
/// small enough that every arithmetic step of the engine fits its
/// integer types.
pub open spec fn valid_body(b: BodyView) -> bool {
    &&& 1 <= b.mass <= MASS_LIMIT
    &&& 1 <= b.radius
    &&& b.radius * b.radius * b.radius <= VOLUME_LIMIT
    &&& 0 <= b.color <= u32::MAX
    &&& 0 <= b.outline <= u32::MAX
}

/// A Kinemat holds all the kinematic information about something:
/// position in millimetres and velocity in micrometres per second.
#[derive(Clone, Copy, Debug, PartialEq, Eq, Structural)]
pub struct Kinemat {
    pub pos: Vec2,
    pub vel: Vec2,
}

/// Kinematic state the engine can hold: every component within the
/// coordinate range.
pub open spec fn valid_kinemat(k: Kinemat) -> bool {
    &&& -COORD_LIMIT <= k.pos.x <= COORD_LIMIT
    &&& -COORD_LIMIT <= k.pos.y <= COORD_LIMIT
    &&& -COORD_LIMIT <= k.vel.x <= COORD_LIMIT
    &&& -COORD_LIMIT <= k.vel.y <= COORD_LIMIT
}

/// One step of semi-implicit Euler integration: the velocity absorbs
/// the accumulated acceleration first, then the position absorbs the
/// new velocity. `acc` is in nanometres per second squared, `dt` in
/// milliseconds; both unit conversions truncate toward zero.
pub open spec fn spec_integrate(k: Kinemat, acc: Vec2, dt: int) -> Kinemat {
    let vx = spec_clamp(k.vel.x + spec_scale(acc.x as int, dt, MICRO as int), COORD_LIMIT as int);
    let vy = spec_clamp(k.vel.y + spec_scale(acc.y as int, dt, MICRO as int), COORD_LIMIT as int);
    let px = spec_clamp(k.pos.x + spec_scale(vx, dt, MICRO as int), COORD_LIMIT as int);
    let py = spec_clamp(k.pos.y + spec_scale(vy, dt, MICRO as int), COORD_LIMIT as int);
    Kinemat {
        pos: Vec2 { x: px as i128, y: py as i128 },
        vel: Vec2 { x: vx as i128, y: vy as i128 },
    }
}

impl Kinemat {
    pub fn new(pos: Vec2, vel: Vec2) -> (k: Kinemat)
        ensures
            k.pos == pos && k.vel == vel,
    {
        Kinemat { pos, vel }
    }

    /// At the origin, at rest.
    pub fn zero() -> (k: Kinemat)
        ensures
            k.pos.x == 0 && k.pos.y == 0 && k.vel.x == 0 && k.vel.y == 0,
    {
        Kinemat { pos: Vec2 { x: 0, y: 0 }, vel: Vec2 { x: 0, y: 0 } }
    }

    /// Applies an accumulated acceleration over a time increment.
    pub fn update(&mut self, dt: u64, acc: Vec2)
        requires
            valid_kinemat(*old(self)),
            dt <= DT_LIMIT,
            -ACC_SUM_LIMIT <= acc.x <= ACC_SUM_LIMIT,
            -ACC_SUM_LIMIT <= acc.y <= ACC_SUM_LIMIT,
        ensures
            *final(self) == spec_integrate(*old(self), acc, dt as int),
            valid_kinemat(*final(self)),
    {
        proof {
            lemma_scale_bounded(acc.x as int, dt as int, ACC_SUM_LIMIT as int);
            lemma_scale_bounded(acc.y as int, dt as int, ACC_SUM_LIMIT as int);
        }
        let dvx = scale_signed(acc.x, dt as u128, MICRO);
        let dvy = scale_signed(acc.y, dt as u128, MICRO);
        let vx = clamp(self.vel.x + dvx, COORD_LIMIT);
        let vy = clamp(self.vel.y + dvy, COORD_LIMIT);
        proof {
            lemma_scale_bounded(vx as int, dt as int, COORD_LIMIT as int);
            lemma_scale_bounded(vy as int, dt as int, COORD_LIMIT as int);
        }
        let dpx = scale_signed(vx, dt as u128, MICRO);
        let dpy = scale_signed(vy, dt as u128, MICRO);
        let px = clamp(self.pos.x + dpx, COORD_LIMIT);
        let py = clamp(self.pos.y + dpy, COORD_LIMIT);
        self.vel = Vec2 { x: vx, y: vy };
        self.pos = Vec2 { x: px, y: py };
    }
}

/// Helper bound: scaling a value of magnitude at most `lim` by
/// `dt / MICRO` keeps the product and quotient within comfortable
/// range of `i128`.
proof fn lemma_scale_bounded(a: int, dt: int, lim: int)
    requires
        spec_abs(a) <= lim,
        0 <= lim <= ACC_SUM_LIMIT,
        0 <= dt <= DT_LIMIT,
    ensures
        spec_abs(a) * dt <= u128::MAX,
        spec_abs(a) * dt / (MICRO as int) <= i128::MAX,
        spec_abs(spec_scale(a, dt, MICRO as int)) <= spec_abs(a) * dt / (MICRO as int),
{
    assert(spec_abs(a) * dt <= ACC_SUM_LIMIT * DT_LIMIT) by (nonlinear_arith)
        requires
            0 <= spec_abs(a) <= ACC_SUM_LIMIT,
            0 <= dt <= DT_LIMIT,
    ;
    assert(ACC_SUM_LIMIT * DT_LIMIT <= u128::MAX);
    vstd::arithmetic::div_mod::lemma_div_is_ordered(
        spec_abs(a) * dt,
        (ACC_SUM_LIMIT * DT_LIMIT) as int,
        MICRO as int,
    );
    assert((ACC_SUM_LIMIT * DT_LIMIT) as int / (MICRO as int) <= i128::MAX);
    let s = spec_scale(a, dt, MICRO as int);
    assert(spec_abs(s) <= spec_abs(a) * dt / (MICRO as int)) by {
        if a >= 0 {
            assert(a * dt >= 0) by (nonlinear_arith)
                requires
                    a >= 0,
                    dt >= 0,
            ;
            vstd::arithmetic::div_mod::lemma_div_pos_is_pos(a * dt, MICRO as int);
        } else {
            assert((-a) * dt == -(a * dt)) by (nonlinear_arith);
            assert((-a) * dt >= 0) by (nonlinear_arith)
                requires
                    a < 0,
                    dt >= 0,
            ;
            vstd::arithmetic::div_mod::lemma_div_pos_is_pos((-a) * dt, MICRO as int);
        }
    }
}

/// An Orbiter is a combination of a Body and a Kinemat:
/// a thing, where it is, and how fast it is going.
#[derive(Clone, Debug)]
pub struct Orbiter(pub Body, pub Kinemat);

impl Body {
    /// A copy of this body with the same view.
    pub fn duplicate(&self) -> (r: Body)
        ensures
            r@ == self@,
    {
        Body {
            mass: self.mass,
            radius: self.radius,
            color: self.color,
            outline: self.outline,
            name: self.name.clone(),
            immovable: self.immovable,
        }
    }
}

/// One color channel interpolated by a weighted average of the masses,
/// rounded down.
pub open spec fn spec_mix_channel(a: int, w1: int, b: int, w2: int) -> int
    recommends
        w1 + w2 > 0,
{
    (a * w1 + b * w2) / (w1 + w2)
}

/// Two 0xRRGGBB colors interpolated channel by channel with a weighted
/// average of the masses; channels recombine without cross-channel
/// carry.
pub open spec fn spec_mix_colors(c1: int, w1: int, c2: int, w2: int) -> int
    recommends
        w1 + w2 > 0,
{
    let r = spec_mix_channel(c1 / 65536 % 256, w1, c2 / 65536 % 256, w2);
    let g = spec_mix_channel(c1 / 256 % 256, w1, c2 / 256 % 256, w2);
    let b = spec_mix_channel(c1 % 256, w1, c2 % 256, w2);
    r * 65536 + g * 256 + b
}

/// One channel of [`mix_colors`].
fn mix_channel(a: u32, w1: u128, b: u32, w2: u128) -> (r: u32)
    requires
        a <= 255,
        b <= 255,
        1 <= w1 <= MASS_LIMIT,
        1 <= w2 <= MASS_LIMIT,
    ensures
        r == spec_mix_channel(a as int, w1 as int, b as int, w2 as int),
        r <= 255,
{
    proof {
        assert((a as int) * w1 <= 255 * w1 && (b as int) * w2 <= 255 * w2)
            by (nonlinear_arith)
            requires
                a <= 255,
                b <= 255,
                w1 >= 0,
                w2 >= 0,
        ;
        assert(255 * (w1 as int) + 255 * (w2 as int) <= u128::MAX);
    }
    let num = (a as u128) * w1 + (b as u128) * w2;
    let den = w1 + w2;
    proof {
        assert(num <= 255 * (den as int));
        vstd::arithmetic::div_mod::lemma_div_is_ordered(
            num as int,
            255 * (den as int),
            den as int,
        );
        vstd::arithmetic::div_mod::lemma_div_multiples_vanish(255, den as int);
    }
    (num / den) as u32
}

/// Interpolates two colors with a weighted average of the masses.
pub fn mix_colors(c1: u32, w1: u128, c2: u32, w2: u128) -> (r: u32)
    requires
        1 <= w1 <= MASS_LIMIT,
        1 <= w2 <= MASS_LIMIT,
    ensures
        r == spec_mix_colors(c1 as int, w1 as int, c2 as int, w2 as int),
{
    let hr = mix_channel(c1 / 65536 % 256, w1, c2 / 65536 % 256, w2);
    let hg = mix_channel(c1 / 256 % 256, w1, c2 / 256 % 256, w2);
    let hb = mix_channel(c1 % 256, w1, c2 % 256, w2);
    hr * 65536 + hg * 256 + hb
}

/// The body produced when two bodies merge: masses add exactly, radii
/// combine as if the bodies were spheres of equal density, colors are
/// mass-weighted averages, the names are joined, and immovability is
/// inherited from either operand.
pub open spec fn spec_merge_bodies(a: BodyView, b: BodyView) -> BodyView
    recommends
        valid_body(a),
        valid_body(b),
{
    BodyView {
        mass: a.mass + b.mass,
        radius: spec_icbrt(
            (a.radius * a.radius * a.radius + b.radius * b.radius * b.radius) as nat,
        ) as int,
        color: spec_mix_colors(a.color, a.mass, b.color, b.mass),
        outline: spec_mix_colors(a.outline, a.mass, b.outline, b.mass),
        name: a.name + " & "@ + b.name,
        immovable: a.immovable || b.immovable,
    }
}

/// Merges the physical attributes of two colliding bodies.
/// The merged mass is exactly the sum of the two input masses.
pub fn merge_bodies(a: &Body, b: &Body) -> (r: Body)
    requires
        valid_body(a@),
        valid_body(b@),
        a@.mass + b@.mass <= MASS_LIMIT,
        a@.radius * a@.radius * a@.radius + b@.radius * b@.radius * b@.radius
            <= VOLUME_LIMIT,
    ensures
        r@ == spec_merge_bodies(a@, b@),
        r@.mass == a@.mass + b@.mass,
        valid_body(r@),
{
    proof {
        assert(a@.radius * a@.radius <= a@.radius * a@.radius * a@.radius
            && b@.radius * b@.radius <= b@.radius * b@.radius * b@.radius
            && a@.radius * a@.radius * a@.radius >= 1
            && b@.radius * b@.radius * b@.radius >= 1)
            by (nonlinear_arith)
            requires
                a@.radius >= 1,
                b@.radius >= 1,
        ;
    }
    let vol = a.radius * a.radius * a.radius + b.radius * b.radius * b.radius;
    let radius = icbrt(vol);
    proof {
        assert(radius * radius * radius <= vol);
        assert(radius >= 1) by (nonlinear_arith)
            requires
                (radius + 1) * (radius + 1) * (radius + 1) > vol,
                vol >= 2,
                radius >= 0,
        ;
    }
    let name = a.name.clone().concat(" & ").concat(b.name.as_str());
    Body {
        mass: a.mass + b.mass,
        radius,
        color: mix_colors(a.color, a.mass, b.color, b.mass),
        outline: mix_colors(a.outline, a.mass, b.outline, b.mass),
        name,
        immovable: a.immovable || b.immovable,
    }
}

/// One coordinate moved from `c1` toward `c2` by the ratio
/// `w2 / WEIGHT_SCALE`, truncating toward zero.
pub open spec fn spec_weighted(c1: int, c2: int, w2: int) -> int
    recommends
        0 <= w2 <= WEIGHT_SCALE,
{
    c1 + spec_scale(c2 - c1, w2, WEIGHT_SCALE as int)
}

/// Moves `c1` toward `c2` by the ratio `w2 / WEIGHT_SCALE`.
/// The result stays between the two inputs.
fn weighted_comp(c1: i128, c2: i128, w2: u128) -> (r: i128)
    requires
        -COORD_LIMIT <= c1 <= COORD_LIMIT,
        -COORD_LIMIT <= c2 <= COORD_LIMIT,
        w2 <= WEIGHT_SCALE,
    ensures
        r == spec_weighted(c1 as int, c2 as int, w2 as int),
        -COORD_LIMIT <= r <= COORD_LIMIT,
{
    let delta = c2 - c1;
    proof {
        let m = spec_abs(delta as int);
        assert(m * w2 <= m * WEIGHT_SCALE) by (nonlinear_arith)
            requires
                0 <= w2 <= WEIGHT_SCALE,
                m >= 0,
        ;
        assert(m * WEIGHT_SCALE <= u128::MAX) by (nonlinear_arith)
            requires
                0 <= m <= 2 * COORD_LIMIT,
                COORD_LIMIT == 4611686018427387904i128,
                WEIGHT_SCALE == 1048576u128,
        ;
        vstd::arithmetic::div_mod::lemma_div_is_ordered(
            m * w2,
            m * WEIGHT_SCALE,
            WEIGHT_SCALE as int,
        );
        vstd::arithmetic::div_mod::lemma_div_multiples_vanish(m, WEIGHT_SCALE as int);
        assert(m * w2 / (WEIGHT_SCALE as int) <= m);
    }
    let t = scale_signed(delta, w2, WEIGHT_SCALE);
    proof {
        let m = spec_abs(delta as int);
        assert(spec_abs(t as int) <= m);
        if delta >= 0 {
            assert(delta * w2 >= 0) by (nonlinear_arith)
                requires
                    delta >= 0,
                    w2 >= 0,
            ;
            vstd::arithmetic::div_mod::lemma_div_pos_is_pos(
                (delta as int) * (w2 as int),
                WEIGHT_SCALE as int,
            );
            assert(t >= 0);
        } else {
            assert((delta as int) * (w2 as int) <= 0) by (nonlinear_arith)
                requires
                    delta < 0,
                    w2 >= 0,
            ;
            let dw = (delta as int) * (w2 as int);
            if dw < 0 {
                vstd::arithmetic::div_mod::lemma_div_pos_is_pos(-dw, WEIGHT_SCALE as int);
            }
            assert(t <= 0);
        }
    }
    c1 + t
}

/// The kinematic state of a merge product. When a movable puller
/// absorbs an immovable body, position and velocity are each the
/// mass-weighted average of the two inputs; in every other
/// combination the merged state is the zero vector for both.
pub open spec fn spec_merge_kinemat(a: BodyView, ka: Kinemat, b: BodyView, kb: Kinemat) -> Kinemat
    recommends
        valid_body(a),
        valid_body(b),
{
    if !a.immovable && b.immovable {
        let w2 = b.mass * WEIGHT_SCALE / (a.mass + b.mass);
        Kinemat {
            pos: Vec2 {
                x: spec_weighted(ka.pos.x as int, kb.pos.x as int, w2) as i128,
                y: spec_weighted(ka.pos.y as int, kb.pos.y as int, w2) as i128,
            },
            vel: Vec2 {
                x: spec_weighted(ka.vel.x as int, kb.vel.x as int, w2) as i128,
                y: spec_weighted(ka.vel.y as int, kb.vel.y as int, w2) as i128,
            },
        }
    } else {
        Kinemat { pos: Vec2 { x: 0, y: 0 }, vel: Vec2 { x: 0, y: 0 } }
    }
}

/// Computes the kinematic state of a merge product.
pub fn merge_kinemat(a: &Body, ka: &Kinemat, b: &Body, kb: &Kinemat) -> (r: Kinemat)
    requires
        valid_body(a@),
        valid_body(b@),
        valid_kinemat(*ka),
        valid_kinemat(*kb),
        a@.mass + b@.mass <= MASS_LIMIT,
    ensures
        r == spec_merge_kinemat(a@, *ka, b@, *kb),
        valid_kinemat(r),
{
    if !a.immovable && b.immovable {
        let total = a.mass + b.mass;
        proof {
            assert(b.mass * WEIGHT_SCALE <= u128::MAX) by (nonlinear_arith)
                requires
                    0 <= b.mass <= MASS_LIMIT,
                    MASS_LIMIT == 20282409603651670423947251286016u128,
                    WEIGHT_SCALE == 1048576u128,
            ;
            assert(b.mass * WEIGHT_SCALE <= total * WEIGHT_SCALE) by (nonlinear_arith)
                requires
                    0 <= b.mass <= total,
                    WEIGHT_SCALE >= 0,
            ;
            vstd::arithmetic::div_mod::lemma_div_is_ordered(
                (b.mass * WEIGHT_SCALE) as int,
                (total as int) * (WEIGHT_SCALE as int),
                total as int,
            );
            vstd::arithmetic::div_mod::lemma_div_multiples_vanish(
                WEIGHT_SCALE as int,
                total as int,
            );
        }
        let w2 = b.mass * WEIGHT_SCALE / total;
        Kinemat {
            pos: Vec2 {
                x: weighted_comp(ka.pos.x, kb.pos.x, w2),
                y: weighted_comp(ka.pos.y, kb.pos.y, w2),
            },
            vel: Vec2 {
                x: weighted_comp(ka.vel.x, kb.vel.x, w2),
                y: weighted_comp(ka.vel.y, kb.vel.y, w2),
            },
        }
    } else {
        Kinemat::zero()
    }
}

} // verus!
