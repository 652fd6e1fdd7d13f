use vstd::prelude::*;

use crate::motion::clamp_i64;
use crate::motion::Vec2;
use crate::motion::Velocity;
use crate::world::Entity;
use crate::world::World;
use crate::DeltaTime;

verus! {

/// Keeps an entity inside the box from the first corner to the second.
#[derive(Copy, Clone, Debug, PartialEq, Eq, Structural)]
pub struct Bouncer(pub Vec2, pub Vec2);

/// A rate turned back, held at the bounds of `i64`.
pub open spec fn reflect(rate: i64) -> i64 {
    clamp_i64(-rate)
}

/// The rate along one axis after a bounce check: it turns back where the
/// coordinate has reached or passed either wall of the box.
pub open spec fn bounce_axis(coord: i64, low: i64, high: i64, rate: i64) -> i64 {
    if coord <= low || coord >= high {
        reflect(rate)
    } else {
        rate
    }
}

/// What one bounce check does to an entity: a velocity that belongs with a
/// position and a bouncer turns back on each axis where the box is left;
/// nothing else changes.
pub open spec fn bounced(e: Entity) -> Entity {
    match (e.position, e.velocity, e.bouncer) {
        (Some(p), Some(v), Some(b)) => Entity {
            velocity: Some(
                Velocity(
                    Vec2 {
                        x: bounce_axis(p.0.x, b.0.x, b.1.x, v.0.x),
                        y: bounce_axis(p.0.y, b.0.y, b.1.y, v.0.y),
                    },
                ),
            ),
            ..e
        },
        _ => e,
    }
}

fn bounce_rate(coord: i64, low: i64, high: i64, rate: i64) -> (r: i64)
    ensures
        r == bounce_axis(coord, low, high, rate),
{
    if coord <= low || coord >= high {
        if rate == i64::MIN {
            i64::MAX
        } else {
            -rate
        }
    } else {
        rate
    }
}

/// Turns back the velocity of every bouncing entity that has reached a wall
/// of its box. `dt` is not used: the check depends on positions alone.
pub fn update_bouncers(world: &mut World, dt: DeltaTime)
    requires
        old(world).wf(),
    ensures
        final(world).wf(),
        final(world).ids() == old(world).ids(),
        final(world).next_id() == old(world).next_id(),
        final(world).entities().len() == old(world).entities().len(),
        forall|i: int|
            0 <= i < old(world).entities().len() ==> #[trigger] final(world).entities()[i]
                == bounced(old(world).entities()[i]),
{
    let n = world.len();
    let mut i: usize = 0;
    while i < n
        invariant
            n == world.entities().len(),
            i <= n,
            world.inv(),
            world.ids() == old(world).ids(),
            world.next_id() == old(world).next_id(),
            world.entities().len() == old(world).entities().len(),
            forall|j: int|
                0 <= j < i ==> #[trigger] world.entities()[j] == bounced(old(world).entities()[j]),
            forall|j: int| i <= j < n ==> #[trigger] world.entities()[j] == old(world).entities()[j],
        decreases n - i,
    {
        let mut e = world.get(i);
        match (e.position, e.velocity, e.bouncer) {
            (Some(p), Some(v), Some(b)) => {
                let x = bounce_rate(p.0.x, b.0.x, b.1.x, v.0.x);
                let y = bounce_rate(p.0.y, b.0.y, b.1.y, v.0.y);
                e.velocity = Some(Velocity(Vec2 { x, y }));
            },
            _ => {},
        }
        world.set(i, e);
        i = i + 1;
    }
    proof {
        assert forall|j: int| 0 <= j < n implies #[trigger] world.entities()[j].wf() by {
            assert(old(world).entities()[j].wf());
        }
    }
}

} // verus!
