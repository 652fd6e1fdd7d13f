use vstd::prelude::*;

use crate::combat::Damage;
use crate::combat::Projectile;
use crate::geometry::direction;
use crate::geometry::toward;
use crate::lifecycle::recover_step;
use crate::lifecycle::Shoot;
use crate::motion::clamp_i64;
use crate::motion::saturate;
use crate::motion::Orientation;
use crate::motion::Position;
use crate::motion::Vec2;
use crate::motion::Velocity;
use crate::render_frame::spot_of;
use crate::spawn::blank;
use crate::sprite::AssetId;
use crate::sprite::Sprite;
use crate::world::all_wf;
use crate::world::fresh_ids;
use crate::world::Entity;
use crate::world::World;
use crate::DeltaTime;

verus! {

/// The most enemies that one volley aims at.
pub const MAX_TARGETS: usize = 10;

/// How far from the shooter a missile starts, toward its target.
pub const MUZZLE_OFFSET: i64 = 30_000;

/// How fast a missile travels, in thousandths of a unit per millisecond.
pub const MISSILE_SPEED: i64 = 400;

/// The health that a missile takes from the enemy it strikes.
pub const MISSILE_DAMAGE: i64 = 25;

/// The positions of the first `limit` enemies of `s` that have a position,
/// in the order of `s`: the first ones met, not the nearest.
pub open spec fn first_spots(s: Seq<Entity>, limit: nat) -> Seq<Vec2>
    decreases s.len(),
{
    if s.len() == 0 {
        Seq::empty()
    } else {
        let rest = first_spots(s.drop_last(), limit);
        if rest.len() < limit && s.last().enemy.is_some() && s.last().position.is_some() {
            rest.push(spot_of(s.last()))
        } else {
            rest
        }
    }
}

/// A missile fired from `from` at `to`: it starts `MUZZLE_OFFSET` toward the
/// target and travels toward it at `MISSILE_SPEED`. There is none where the
/// target gives no direction.
pub open spec fn missile(from: Vec2, to: Vec2) -> Option<Entity> {
    match (toward(from, to, MUZZLE_OFFSET), toward(from, to, MISSILE_SPEED)) {
        (Some(o), Some(v)) => Some(
            Entity {
                position: Some(Position(Vec2 { x: clamp_i64(from.x + o.x), y: clamp_i64(from.y + o.y) })),
                velocity: Some(Velocity(v)),
                orientation: Some(Orientation(0)),
                sprite: Some(Sprite { asset_id: AssetId::Missile }),
                damage: Some(Damage(MISSILE_DAMAGE)),
                projectile: Some(Projectile),
                ..blank()
            },
        ),
        _ => None,
    }
}

/// The missiles of one volley from `from`, one per target, in order.
pub open spec fn volley(from: Vec2, spots: Seq<Vec2>) -> Seq<Entity>
    decreases spots.len(),
{
    if spots.len() == 0 {
        Seq::empty()
    } else {
        let rest = volley(from, spots.drop_last());
        match missile(from, spots.last()) {
            Some(m) => rest.push(m),
            None => rest,
        }
    }
}

/// A shooter: an entity with a position and a cooldown.
pub open spec fn is_shooter(e: Entity) -> bool {
    e.position.is_some() && e.shoot.is_some()
}

/// The shooter after `dt` more milliseconds of its cooldown.
pub open spec fn reloaded(e: Entity, dt: u32) -> Entity {
    match (e.position, e.shoot) {
        (Some(_), Some(sh)) => Entity {
            shoot: Some(Shoot { recover: recover_step(sh.recover, dt as u64).0 }),
            ..e
        },
        _ => e,
    }
}

/// The shooter's cooldown runs out within `dt` more milliseconds.
pub open spec fn fires(e: Entity, dt: u32) -> bool {
    match (e.position, e.shoot) {
        (Some(_), Some(sh)) => recover_step(sh.recover, dt as u64).1,
        _ => false,
    }
}

/// The missiles that the first `k` entities of `s` fire in a tick of `dt`,
/// shooter by shooter, each at the first `MAX_TARGETS` enemies of `s`.
pub open spec fn volleys(s: Seq<Entity>, dt: u32, k: nat) -> Seq<Entity>
    decreases k,
{
    if k == 0 || k > s.len() {
        Seq::empty()
    } else {
        let rest = volleys(s, dt, (k - 1) as nat);
        if fires(s[k - 1], dt) {
            rest + volley(spot_of(s[k - 1]), first_spots(s, MAX_TARGETS as nat))
        } else {
            rest
        }
    }
}

proof fn lemma_first_spots_len(s: Seq<Entity>, limit: nat)
    ensures
        first_spots(s, limit).len() <= limit,
    decreases s.len(),
{
    if s.len() > 0 {
        lemma_first_spots_len(s.drop_last(), limit);
    }
}

proof fn lemma_volley_len(from: Vec2, spots: Seq<Vec2>)
    ensures
        volley(from, spots).len() <= spots.len(),
        all_wf(volley(from, spots)),
    decreases spots.len(),
{
    if spots.len() > 0 {
        lemma_volley_len(from, spots.drop_last());
    }
}

proof fn lemma_volleys_len(s: Seq<Entity>, dt: u32, k: nat)
    ensures
        volleys(s, dt, k).len() <= MAX_TARGETS * k,
        all_wf(volleys(s, dt, k)),
    decreases k,
{
    if k > 0 && k <= s.len() {
        lemma_volleys_len(s, dt, (k - 1) as nat);
        lemma_first_spots_len(s, MAX_TARGETS as nat);
        lemma_volley_len(spot_of(s[k - 1]), first_spots(s, MAX_TARGETS as nat));
        let a = volleys(s, dt, (k - 1) as nat);
        let b = volley(spot_of(s[k - 1]), first_spots(s, MAX_TARGETS as nat));
        assert forall|j: int| 0 <= j < (a + b).len() implies #[trigger] (a + b)[j].wf() by {
            if j < a.len() {
                assert(a[j].wf());
            } else {
                assert(b[j - a.len()].wf());
            }
        }
    }
}

/// The positions of the first `MAX_TARGETS` enemies of the world.
fn find_targets(world: &World) -> (r: Vec<Vec2>)
    requires
        world.inv(),
    ensures
        r@ == first_spots(world.entities(), MAX_TARGETS as nat),
{
    let n = world.len();
    let ghost s = world.entities();
    let mut found: Vec<Vec2> = Vec::new();
    let mut i: usize = 0;
    while i < n
        invariant
            n == s.len(),
            s == world.entities(),
            i <= n,
            found@ == first_spots(s.take(i as int), MAX_TARGETS as nat),
        decreases n - i,
    {
        proof {
            assert(s.take(i + 1).drop_last() =~= s.take(i as int));
        }
        let e = world.get(i);
        if found.len() < MAX_TARGETS {
            match (e.enemy, e.position) {
                (Some(_), Some(Position(p))) => {
                    found.push(p);
                },
                _ => {},
            }
        }
        i = i + 1;
    }
    proof {
        assert(s.take(n as int) =~= s);
    }
    found
}

fn fire_missile(from: Vec2, to: Vec2) -> (r: Option<Entity>)
    ensures
        r == missile(from, to),
{
    match (direction(from, to, MUZZLE_OFFSET), direction(from, to, MISSILE_SPEED)) {
        (Some(o), Some(v)) => {
            let x = saturate(from.x as i128 + o.x as i128);
            let y = saturate(from.y as i128 + o.y as i128);
            Some(
                Entity {
                    position: Some(Position(Vec2 { x, y })),
                    velocity: Some(Velocity(v)),
                    orientation: Some(Orientation(0)),
                    rotation: None,
                    bouncer: None,
                    sprite: Some(Sprite { asset_id: AssetId::Missile }),
                    time_to_live: None,
                    enemy: None,
                    damage: Some(Damage(MISSILE_DAMAGE)),
                    explosion: None,
                    projectile: Some(Projectile),
                    move_towards: None,
                    speed: None,
                    flip: None,
                    shoot: None,
                },
            )
        },
        _ => None,
    }
}

/// Counts down every shooter's cooldown by `dt`; each shooter whose cooldown
/// runs out fires one missile at each of the first `MAX_TARGETS` enemies of
/// the world (the first ones met, not the nearest). The missiles join the
/// world after the scan, in the order they were fired.
pub fn update_shoot(world: &mut World, dt: DeltaTime)
    requires
        old(world).wf(),
        old(world).next_id() + MAX_TARGETS * old(world).entities().len() <= u64::MAX,
    ensures
        final(world).wf(),
        ({
            let s = old(world).entities();
            let shots = volleys(s, dt.0, s.len());
            &&& final(world).entities() == Seq::new(s.len(), |i: int| reloaded(s[i], dt.0)) + volleys(
                s,
                dt.0,
                s.len(),
            )
            &&& final(world).ids().subrange(0, s.len() as int) == old(world).ids()
            &&& final(world).ids() == old(world).ids() + fresh_ids(old(world).next_id(), shots.len())
            &&& final(world).next_id() == old(world).next_id() + shots.len()
        }),
        final(world).next_id() <= old(world).next_id() + MAX_TARGETS * old(world).entities().len(),
{
    let n = world.len();
    let ghost s = world.entities();
    let targets = find_targets(world);
    let mut spawns: Vec<Entity> = Vec::new();
    let mut i: usize = 0;
    while i < n
        invariant
            n == s.len(),
            s == old(world).entities(),
            all_wf(s),
            i <= n,
            world.inv(),
            world.ids() == old(world).ids(),
            world.next_id() == old(world).next_id(),
            world.entities().len() == n,
            forall|k: int| 0 <= k < i ==> #[trigger] world.entities()[k] == reloaded(s[k], dt.0),
            forall|k: int| i <= k < n ==> #[trigger] world.entities()[k] == s[k],
            targets@ == first_spots(s, MAX_TARGETS as nat),
            spawns@ == volleys(s, dt.0, i as nat),
        decreases n - i,
    {
        let mut e = world.get(i);
        match (e.position, e.shoot) {
            (Some(Position(from)), Some(sh)) => {
                let mut recover = sh.recover;
                let fired = recover.action(dt.0 as u64);
                e.shoot = Some(Shoot { recover });
                if fired {
                    let ghost before = spawns@;
                    let mut j: usize = 0;
                    while j < targets.len()
                        invariant
                            j <= targets@.len(),
                            spawns@ == before + volley(from, targets@.take(j as int)),
                        decreases targets@.len() - j,
                    {
                        proof {
                            assert(targets@.take(j + 1).drop_last() =~= targets@.take(j as int));
                        }
                        match fire_missile(from, targets[j]) {
                            Some(m) => {
                                spawns.push(m);
                                proof {
                                    assert(spawns@ =~= before + volley(from, targets@.take(j + 1)));
                                }
                            },
                            None => {},
                        }
                        j = j + 1;
                    }
                    proof {
                        assert(targets@.take(targets@.len() as int) =~= targets@);
                    }
                }
            },
            _ => {},
        }
        proof {
            assert(s[i as int].wf());
        }
        world.set(i, e);
        i = i + 1;
    }
    proof {
        assert(world.entities() =~= Seq::new(s.len(), |i: int| reloaded(s[i], dt.0)));
        assert forall|k: int| 0 <= k < n implies #[trigger] world.entities()[k].wf() by {
            assert(s[k].wf());
        }
        lemma_volleys_len(s, dt.0, n as nat);
        assert(MAX_TARGETS * n == 10 * n);
    }
    world.append_components(spawns);
    proof {
        assert(world.ids().subrange(0, n as int) =~= old(world).ids());
    }
}

} // verus!
