use vstd::prelude::*;

use crate::geometry::close;
use crate::geometry::direction;
use crate::geometry::near;
use crate::geometry::toward;
use crate::motion::advance;
use crate::motion::advance_coord;
use crate::motion::Position;
use crate::motion::Vec2;
use crate::navigation::get_random_point;
use crate::random::RandomSource;
use crate::navigation::on_side;
use crate::navigation::Flip;
use crate::navigation::Speed;
use crate::world::Entity;
use crate::world::World;
use crate::DeltaTime;

verus! {

/// An entity this close to its destination has arrived, in thousandths of a unit.
pub const ARRIVAL_RADIUS: i64 = 1_000;

/// What one tick of steering does to an entity with a position, a
/// destination, a speed and a facing: it travels `speed * dt` toward the
/// destination, and faces left exactly when the destination lies to its
/// left. An entity standing on its destination, or with a negative speed,
/// stays as it is.
pub open spec fn steered(e: Entity, dt: u32) -> Entity {
    match (e.position, e.move_towards, e.speed, e.flip) {
        (Some(Position(p)), Some(m), Some(Speed(v)), Some(_)) => if v < 0 {
            e
        } else {
            match toward(p, m.destination, v) {
                Some(step) => Entity {
                    position: Some(Position(Vec2 { x: advance(p.x, step.x, dt), y: advance(p.y, step.y, dt) })),
                    flip: Some(
                        if m.destination.x < p.x {
                            Flip::Left
                        } else {
                            Flip::Right
                        },
                    ),
                    ..e
                },
                None => e,
            }
        },
        _ => e,
    }
}

/// Steers every entity that has a position, a destination, a speed and a
/// facing toward its destination.
pub fn move_towards(world: &mut World, dt: DeltaTime)
    requires
        old(world).wf(),
    ensures
        final(world).wf(),
        final(world).ids() == old(world).ids(),
        final(world).next_id() == old(world).next_id(),
        final(world).entities().len() == old(world).entities().len(),
        forall|i: int|
            0 <= i < old(world).entities().len() ==> #[trigger] final(world).entities()[i] == steered(
                old(world).entities()[i],
                dt.0,
            ),
{
    let n = world.len();
    let mut i: usize = 0;
    while i < n
        invariant
            n == world.entities().len(),
            i <= n,
            world.inv(),
            old(world).wf(),
            world.ids() == old(world).ids(),
            world.next_id() == old(world).next_id(),
            world.entities().len() == old(world).entities().len(),
            forall|j: int|
                0 <= j < i ==> #[trigger] world.entities()[j] == steered(old(world).entities()[j], dt.0),
            forall|j: int| i <= j < n ==> #[trigger] world.entities()[j] == old(world).entities()[j],
        decreases n - i,
    {
        let mut e = world.get(i);
        match (e.position, e.move_towards, e.speed, e.flip) {
            (Some(Position(p)), Some(m), Some(Speed(v)), Some(_)) => {
                if v >= 0 {
                    match direction(p, m.destination, v) {
                        Some(step) => {
                            let x = advance_coord(p.x, step.x, dt.0);
                            let y = advance_coord(p.y, step.y, dt.0);
                            e.position = Some(Position(Vec2 { x, y }));
                            e.flip = Some(
                                if m.destination.x < p.x {
                                    Flip::Left
                                } else {
                                    Flip::Right
                                },
                            );
                        },
                        None => {},
                    }
                }
            },
            _ => {},
        }
        world.set(i, e);
        i = i + 1;
    }
    proof {
        assert forall|j: int| 0 <= j < n implies #[trigger] world.entities()[j].wf() by {
            assert(old(world).entities()[j].wf());
        }
    }
}

/// The entity stands within `ARRIVAL_RADIUS` of its destination.
pub open spec fn arrived(e: Entity) -> bool {
    match (e.position, e.move_towards) {
        (Some(Position(p)), Some(m)) => near(p, m.destination, ARRIVAL_RADIUS as int),
        _ => false,
    }
}

/// `after` is `before` with a fresh destination where it had arrived: a
/// waypoint on the other line. Where it had not arrived, it is unchanged.
pub open spec fn redirected(before: Entity, after: Entity) -> bool {
    if arrived(before) {
        let m = before.move_towards->0;
        &&& after.move_towards is Some
        &&& after == Entity { move_towards: after.move_towards, ..before }
        &&& on_side(after.move_towards->0)
        &&& after.move_towards->0.side == (if m.side == 0 { 1usize } else { 0usize })
    } else {
        after == before
    }
}

/// Gives every entity that has arrived at its destination a new one, drawn
/// by `rng` from the waypoints of the other line.
pub fn update_destination<R: RandomSource>(world: &mut World, rng: &mut R)
    requires
        old(world).wf(),
    ensures
        final(world).wf(),
        final(world).ids() == old(world).ids(),
        final(world).next_id() == old(world).next_id(),
        final(world).entities().len() == old(world).entities().len(),
        forall|i: int|
            0 <= i < old(world).entities().len() ==> redirected(
                old(world).entities()[i],
                #[trigger] final(world).entities()[i],
            ),
{
    let n = world.len();
    let mut i: usize = 0;
    while i < n
        invariant
            n == world.entities().len(),
            i <= n,
            world.inv(),
            old(world).wf(),
            world.ids() == old(world).ids(),
            world.next_id() == old(world).next_id(),
            world.entities().len() == old(world).entities().len(),
            forall|j: int|
                0 <= j < i ==> redirected(old(world).entities()[j], #[trigger] world.entities()[j]),
            forall|j: int| i <= j < n ==> #[trigger] world.entities()[j] == old(world).entities()[j],
            forall|j: int| 0 <= j < i ==> (#[trigger] world.entities()[j]).wf(),
        decreases n - i,
    {
        let mut e = world.get(i);
        proof {
            assert(old(world).entities()[i as int].wf());
        }
        match (e.position, e.move_towards) {
            (Some(Position(p)), Some(m)) => {
                if close(p, m.destination, ARRIVAL_RADIUS) {
                    e.move_towards = Some(get_random_point(rng, m.side));
                }
            },
            _ => {},
        }
        world.set(i, e);
        i = i + 1;
    }
}

} // verus!
