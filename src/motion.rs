use vstd::prelude::*;
use vstd::arithmetic::div_mod::lemma_fundamental_div_mod;
use vstd::arithmetic::div_mod::lemma_fundamental_div_mod_converse;

use crate::world::Entity;
use crate::world::World;
use crate::DeltaTime;

verus! {

/// One full turn, 2π, in millionths of a radian.
pub const FULL_TURN: i64 = 6_283_185;

/// A point or a vector of the arena plane, in fixed point.
#[derive(Copy, Clone, Debug, PartialEq, Eq, Structural)]
pub struct Vec2 {
    pub x: i64,
    pub y: i64,
}

/// Where an entity stands, in thousandths of an arena unit.
#[derive(Copy, Clone, Debug, PartialEq, Eq, Structural)]
pub struct Position(pub Vec2);

/// How an entity travels, in thousandths of a unit per millisecond.
#[derive(Copy, Clone, Debug, PartialEq, Eq, Structural)]
pub struct Velocity(pub Vec2);

/// Which way an entity faces, in millionths of a radian.
#[derive(Copy, Clone, Debug, PartialEq, Eq, Structural)]
pub struct Orientation(pub i64);

/// How fast an entity spins, in millionths of a radian per millisecond.
#[derive(Copy, Clone, Debug, PartialEq, Eq, Structural)]
pub struct Rotation(pub i64);

/// The value nearest to `v` that an `i64` can hold.
pub open spec fn clamp_i64(v: int) -> i64 {
    if v < i64::MIN {
        i64::MIN
    } else if v > i64::MAX {
        i64::MAX
    } else {
        v as i64
    }
}

/// A coordinate moved by `rate * dt`, held at the bounds of `i64`.
pub open spec fn advance(coord: i64, rate: i64, dt: u32) -> i64 {
    clamp_i64(coord + rate * dt)
}

/// An angle brought into `[0, FULL_TURN)`.
pub open spec fn wrap_angle(a: int) -> i64 {
    (a % (FULL_TURN as int)) as i64
}

/// An angle turned by `rate * dt`, brought back into `[0, FULL_TURN)`.
pub open spec fn turn(angle: i64, rate: i64, dt: u32) -> i64 {
    wrap_angle(angle + rate * dt)
}

/// What one tick of motion does to an entity: a position with a velocity
/// moves, an orientation with a rotation turns; nothing else changes.
pub open spec fn moved(e: Entity, dt: u32) -> Entity {
    let e1 = match (e.position, e.velocity) {
        (Some(p), Some(v)) => Entity {
            position: Some(Position(Vec2 { x: advance(p.0.x, v.0.x, dt), y: advance(p.0.y, v.0.y, dt) })),
            ..e
        },
        _ => e,
    };
    match (e1.orientation, e1.rotation) {
        (Some(o), Some(r)) => Entity { orientation: Some(Orientation(turn(o.0, r.0, dt))), ..e1 },
        _ => e1,
    }
}

proof fn lemma_product_bounds(a: i64, b: u32)
    ensures
        -0x8000_0000_0000_0000_0000_0000 <= a * b <= 0x8000_0000_0000_0000_0000_0000,
{
    assert(-0x8000_0000_0000_0000 * 0x1_0000_0000 <= a * b <= 0x8000_0000_0000_0000 * 0x1_0000_0000)
        by (nonlinear_arith)
        requires
            -0x8000_0000_0000_0000 <= a < 0x8000_0000_0000_0000,
            0 <= b < 0x1_0000_0000,
    ;
}

pub(crate) fn saturate(v: i128) -> (r: i64)
    ensures
        r == clamp_i64(v as int),
{
    if v < i64::MIN as i128 {
        i64::MIN
    } else if v > i64::MAX as i128 {
        i64::MAX
    } else {
        v as i64
    }
}

pub(crate) fn advance_coord(coord: i64, rate: i64, dt: u32) -> (r: i64)
    ensures
        r == advance(coord, rate, dt),
{
    proof {
        lemma_product_bounds(rate, dt);
    }
    let step: i128 = (rate as i128) * (dt as i128);
    saturate(coord as i128 + step)
}

fn turn_angle(angle: i64, rate: i64, dt: u32) -> (r: i64)
    ensures
        r == turn(angle, rate, dt),
        0 <= r < FULL_TURN,
{
    proof {
        lemma_product_bounds(rate, dt);
    }
    let a: i128 = angle as i128 + (rate as i128) * (dt as i128);
    let full: i128 = FULL_TURN as i128;
    if a >= 0 {
        (a % full) as i64
    } else {
        let b: i128 = -a - 1;
        let k: i128 = b % full;
        proof {
            lemma_fundamental_div_mod(b as int, full as int);
            let q = b as int / full as int;
            assert(a as int == (-q - 1) * (full as int) + (full - 1 - k)) by (nonlinear_arith)
                requires
                    b as int == full * q + k,
                    a == -b - 1,
            ;
            lemma_fundamental_div_mod_converse(a as int, full as int, -q - 1, (full - 1 - k) as int);
        }
        (full - 1 - k) as i64
    }
}

/// Advances every position by its velocity times `dt`, then turns every
/// orientation by its rotation times `dt`, wrapping it into `[0, FULL_TURN)`.
pub fn update_motion(world: &mut World, dt: DeltaTime)
    requires
        old(world).wf(),
    ensures
        final(world).wf(),
        final(world).ids() == old(world).ids(),
        final(world).next_id() == old(world).next_id(),
        final(world).entities().len() == old(world).entities().len(),
        forall|i: int|
            0 <= i < old(world).entities().len() ==> #[trigger] final(world).entities()[i] == moved(
                old(world).entities()[i],
                dt.0,
            ),
{
    let n = world.len();
    let mut i: usize = 0;
    while i < n
        invariant
            n == world.entities().len(),
            i <= n,
            world.inv(),
            world.ids() == old(world).ids(),
            world.next_id() == old(world).next_id(),
            world.entities().len() == old(world).entities().len(),
            forall|j: int|
                0 <= j < i ==> #[trigger] world.entities()[j] == moved(old(world).entities()[j], dt.0),
            forall|j: int| i <= j < n ==> #[trigger] world.entities()[j] == old(world).entities()[j],
        decreases n - i,
    {
        let mut e = world.get(i);
        match (e.position, e.velocity) {
            (Some(p), Some(v)) => {
                let x = advance_coord(p.0.x, v.0.x, dt.0);
                let y = advance_coord(p.0.y, v.0.y, dt.0);
                e.position = Some(Position(Vec2 { x, y }));
            },
            _ => {},
        }
        match (e.orientation, e.rotation) {
            (Some(o), Some(r)) => {
                e.orientation = Some(Orientation(turn_angle(o.0, r.0, dt.0)));
            },
            _ => {},
        }
        world.set(i, e);
        i = i + 1;
    }
    proof {
        assert forall|j: int| 0 <= j < n implies #[trigger] world.entities()[j].wf() by {
            assert(old(world).entities()[j].wf());
        }
    }
}

} // verus!
