use vstd::prelude::*;

use crate::geometry::close;
use crate::geometry::near;
use crate::motion::clamp_i64;
use crate::motion::saturate;
use crate::motion::Orientation;
use crate::motion::Position;
use crate::motion::Vec2;
use crate::render_frame::spot_of;
use crate::sprite::AssetId;
use crate::sprite::Sprite;
use crate::world::all_wf;
use crate::world::lemma_flagged_is_gone;
use crate::world::unflagged;
use crate::world::fresh_ids;
use crate::world::Entity;
use crate::world::World;
use crate::DeltaTime;

verus! {

/// A projectile strikes an enemy within this distance, in thousandths of a unit.
pub const HIT_RADIUS: i64 = 10_000;

/// The radius that a new explosion grows to.
pub const EXPLOSION_MAX_RADIUS: i64 = 25_000;

/// How fast an explosion grows, in thousandths of a unit per millisecond.
pub const EXPLOSION_GROWTH: i64 = 25;

/// An enemy and its health; it dies once its health is zero or less.
#[derive(Copy, Clone, Debug, PartialEq, Eq, Structural)]
pub struct Enemy {
    pub health: i64,
}

/// The health that a projectile takes from the enemy it strikes.
#[derive(Copy, Clone, Debug, PartialEq, Eq, Structural)]
pub struct Damage(pub i64);

/// An explosion: its current radius, growing until it reaches the maximum.
#[derive(Copy, Clone, Debug, PartialEq, Eq, Structural)]
pub struct Explosion {
    pub radius: i64,
    pub max_radius: i64,
}

/// Marks an entity as a projectile.
#[derive(Copy, Clone, Debug, PartialEq, Eq, Structural)]
pub struct Projectile;

/// `e` is a projectile that can strike: it has a position and a damage.
pub open spec fn is_shot(e: Entity) -> bool {
    e.projectile.is_some() && e.position.is_some() && e.damage.is_some()
}

/// `e` is an enemy with a position within reach of `at`.
pub open spec fn is_target(e: Entity, at: Vec2) -> bool {
    e.enemy.is_some() && e.position.is_some() && near(at, spot_of(e), HIT_RADIUS as int)
}

/// The place of the first entity of `s` that is a target for a projectile
/// at `at`, in the order of `s`; none where no entity is.
pub open spec fn first_target(s: Seq<Entity>, at: Vec2) -> Option<int>
    decreases s.len(),
{
    if s.len() == 0 {
        None
    } else {
        match first_target(s.drop_last(), at) {
            Some(j) => Some(j),
            None => if is_target(s.last(), at) {
                Some(s.len() - 1)
            } else {
                None
            },
        }
    }
}

/// The projectile at place `i` of `s` strikes an enemy.
pub open spec fn lands(s: Seq<Entity>, i: int) -> bool {
    is_shot(s[i]) && first_target(s, spot_of(s[i])).is_some()
}

/// The damage of an entity that has one.
pub open spec fn damage_of(e: Entity) -> i64 {
    match e.damage {
        Some(Damage(d)) => d,
        None => 0,
    }
}

/// The health of an entity that is an enemy.
pub open spec fn health_of(e: Entity) -> i64 {
    match e.enemy {
        Some(en) => en.health,
        None => 0,
    }
}

/// An enemy that has taken `d` damage, its health held at the bounds of `i64`.
pub open spec fn harmed(e: Entity, d: i64) -> Entity {
    Entity { enemy: Some(Enemy { health: clamp_i64(health_of(e) - d) }), ..e }
}

/// The entities of `s` once the first `k` of them have struck, each landing
/// projectile taking its damage from its first target.
pub open spec fn struck(s: Seq<Entity>, k: nat) -> Seq<Entity>
    decreases k,
{
    if k == 0 || k > s.len() {
        s
    } else {
        let prev = struck(s, (k - 1) as nat);
        if lands(s, k - 1) {
            let j = first_target(s, spot_of(s[k - 1]))->0;
            prev.update(j, harmed(prev[j], damage_of(s[k - 1])))
        } else {
            prev
        }
    }
}

/// A new explosion at `at`, of radius zero, drawn as an explosion.
pub open spec fn blast_at(at: Vec2) -> Entity {
    Entity {
        position: Some(Position(at)),
        velocity: None,
        orientation: Some(Orientation(0)),
        rotation: None,
        bouncer: None,
        sprite: Some(Sprite { asset_id: AssetId::Explosion }),
        time_to_live: None,
        enemy: None,
        damage: None,
        explosion: Some(Explosion { radius: 0, max_radius: EXPLOSION_MAX_RADIUS }),
        projectile: None,
        move_towards: None,
        speed: None,
        flip: None,
        shoot: None,
    }
}

/// One explosion for each of the first `k` entities of `s` that lands,
/// where it stood, in order.
pub open spec fn blasts(s: Seq<Entity>, k: nat) -> Seq<Entity>
    decreases k,
{
    if k == 0 || k > s.len() {
        Seq::empty()
    } else {
        let b = blasts(s, (k - 1) as nat);
        if lands(s, k - 1) {
            b.push(blast_at(spot_of(s[k - 1])))
        } else {
            b
        }
    }
}

/// Which entities of `s` are landing projectiles, place for place.
pub open spec fn landing_flags(s: Seq<Entity>) -> Seq<bool> {
    Seq::new(s.len(), |i: int| lands(s, i))
}

proof fn lemma_first_target(s: Seq<Entity>, at: Vec2)
    ensures
        first_target(s, at) is Some ==> {
            let j = first_target(s, at)->0;
            &&& 0 <= j < s.len()
            &&& is_target(s[j], at)
            &&& forall|k: int| 0 <= k < j ==> !is_target(#[trigger] s[k], at)
        },
        first_target(s, at) is None ==> forall|k: int|
            0 <= k < s.len() ==> !is_target(#[trigger] s[k], at),
    decreases s.len(),
{
    if s.len() > 0 {
        lemma_first_target(s.drop_last(), at);
        let t = s.drop_last();
        assert forall|k: int| 0 <= k < t.len() implies t[k] == s[k] by {}
    }
}

proof fn lemma_struck_keeps(s: Seq<Entity>, k: nat)
    ensures
        struck(s, k).len() == s.len(),
        forall|j: int|
            0 <= j < s.len() ==> {
                &&& #[trigger] struck(s, k)[j] == Entity { enemy: struck(s, k)[j].enemy, ..s[j] }
                &&& struck(s, k)[j].enemy.is_some() == s[j].enemy.is_some()
            },
    decreases k,
{
    if k > 0 && k <= s.len() {
        lemma_struck_keeps(s, (k - 1) as nat);
        if lands(s, k - 1) {
            lemma_first_target(s, spot_of(s[k - 1]));
        }
    }
}

/// The place of the first enemy in the world within reach of `at`, found in
/// the world as it stands.
fn find_target(world: &World, at: Vec2, Ghost(s): Ghost<Seq<Entity>>) -> (r: Option<usize>)
    requires
        world.inv(),
        world.entities().len() == s.len(),
        forall|j: int|
            0 <= j < s.len() ==> {
                &&& (#[trigger] world.entities()[j]).position == s[j].position
                &&& world.entities()[j].enemy.is_some() == s[j].enemy.is_some()
            },
    ensures
        match r {
            Some(j) => first_target(s, at) == Some(j as int) && j < s.len(),
            None => first_target(s, at) is None,
        },
{
    proof {
        lemma_first_target(s, at);
    }
    let n = world.len();
    let mut j: usize = 0;
    while j < n
        invariant
            n == s.len(),
            j <= n,
            world.inv(),
            world.entities().len() == s.len(),
            forall|k: int|
                0 <= k < s.len() ==> {
                    &&& (#[trigger] world.entities()[k]).position == s[k].position
                    &&& world.entities()[k].enemy.is_some() == s[k].enemy.is_some()
                },
            forall|k: int| 0 <= k < j ==> !is_target(#[trigger] s[k], at),
        decreases n - j,
    {
        let e = world.get(j);
        match (e.enemy, e.position) {
            (Some(_), Some(Position(p))) => {
                if close(at, p, HIT_RADIUS) {
                    proof {
                        lemma_first_target(s, at);
                        assert(is_target(s[j as int], at));
                        if first_target(s, at) is Some {
                            let f = first_target(s, at)->0;
                            if f < j {
                                assert(!is_target(s[f], at));
                            }
                            if f > j {
                                assert(!is_target(s[j as int], at));
                            }
                        } else {
                            assert(!is_target(s[j as int], at));
                        }
                    }
                    return Some(j);
                }
            },
            _ => {},
        }
        j = j + 1;
    }
    proof {
        if first_target(s, at) is Some {
            let f = first_target(s, at)->0;
            assert(!is_target(s[f], at));
        }
    }
    None
}

/// Lets every projectile strike the first enemy within `HIT_RADIUS` of it,
/// in the world's order (not the nearest one): the enemy loses the
/// projectile's damage, and the projectile is removed and leaves an explosion
/// where it stood. Removals and new explosions wait until the scan is done.
pub fn resolve_hits(world: &mut World)
    requires
        old(world).wf(),
        old(world).next_id() + old(world).entities().len() <= u64::MAX,
    ensures
        final(world).wf(),
        ({
            let s = old(world).entities();
            let left = unflagged(old(world).ids(), struck(s, s.len()), landing_flags(s));
            let made = blasts(s, s.len());
            &&& final(world).entities() == left.1 + blasts(s, s.len())
            &&& final(world).ids().subrange(0, left.0.len() as int) == left.0
            &&& final(world).ids() == left.0 + fresh_ids(old(world).next_id(), made.len())
            &&& final(world).next_id() == old(world).next_id() + made.len()
        }),
        final(world).next_id() <= old(world).next_id() + old(world).entities().len(),
{
    let n = world.len();
    let ghost s = world.entities();
    let mut flags: Vec<bool> = Vec::new();
    let mut explosions: Vec<Entity> = Vec::new();
    let mut i: usize = 0;
    proof {
        lemma_struck_keeps(s, 0);
    }
    while i < n
        invariant
            n == s.len(),
            s == old(world).entities(),
            all_wf(s),
            i <= n,
            world.inv(),
            all_wf(world.entities()),
            world.ids() == old(world).ids(),
            world.next_id() == old(world).next_id(),
            world.entities() == struck(s, i as nat),
            flags@.len() == i,
            forall|k: int| 0 <= k < i ==> #[trigger] flags@[k] == lands(s, k),
            explosions@ == blasts(s, i as nat),
            explosions@.len() <= i,
            all_wf(explosions@),
        decreases n - i,
    {
        proof {
            lemma_struck_keeps(s, i as nat);
            lemma_struck_keeps(s, (i + 1) as nat);
        }
        let e = world.get(i);
        let mut landed = false;
        match (e.projectile, e.position, e.damage) {
            (Some(_), Some(Position(p)), Some(Damage(d))) => {
                match find_target(world, p, Ghost(s)) {
                    Some(j) => {
                        let mut target = world.get(j);
                        let health = match target.enemy {
                            Some(en) => en.health,
                            None => 0,
                        };
                        target.enemy = Some(Enemy { health: saturate(health as i128 - d as i128) });
                        world.set(j, target);
                        explosions.push(
                            Entity {
                                position: Some(Position(p)),
                                velocity: None,
                                orientation: Some(Orientation(0)),
                                rotation: None,
                                bouncer: None,
                                sprite: Some(Sprite { asset_id: AssetId::Explosion }),
                                time_to_live: None,
                                enemy: None,
                                damage: None,
                                explosion: Some(Explosion { radius: 0, max_radius: EXPLOSION_MAX_RADIUS }),
                                projectile: None,
                                move_towards: None,
                                speed: None,
                                flip: None,
                                shoot: None,
                            },
                        );
                        landed = true;
                    },
                    None => {},
                }
            },
            _ => {},
        }
        flags.push(landed);
        proof {
            assert(world.entities() =~= struck(s, (i + 1) as nat));
            assert forall|k: int| 0 <= k < world.entities().len() implies #[trigger] world.entities()[k].wf() by {
                assert(s[k].wf());
            }
        }
        i = i + 1;
    }
    proof {
        assert(flags@ =~= landing_flags(s));
    }
    world.remove_flagged(&flags);
    proof {
        assert(explosions@.len() <= n);
    }
    world.append_components(explosions);
}

/// `e` is an enemy with no health left.
pub open spec fn dead(e: Entity) -> bool {
    e.enemy.is_some() && health_of(e) <= 0
}

/// Which entities of `s` are dead enemies, place for place.
pub open spec fn death_flags(s: Seq<Entity>) -> Seq<bool> {
    Seq::new(s.len(), |i: int| dead(s[i]))
}

/// Removes, in one pass, every enemy whose health is zero or less.
pub fn remove_dead(world: &mut World)
    requires
        old(world).wf(),
    ensures
        final(world).wf(),
        (final(world).ids(), final(world).entities()) == unflagged(
            old(world).ids(),
            old(world).entities(),
            death_flags(old(world).entities()),
        ),
        final(world).next_id() == old(world).next_id(),
{
    let n = world.len();
    let ghost s = world.entities();
    let mut flags: Vec<bool> = Vec::new();
    let mut i: usize = 0;
    while i < n
        invariant
            n == s.len(),
            s == world.entities(),
            i <= n,
            world.inv(),
            flags@.len() == i,
            forall|k: int| 0 <= k < i ==> #[trigger] flags@[k] == dead(s[k]),
        decreases n - i,
    {
        let e = world.get(i);
        let gone = match e.enemy {
            Some(en) => en.health <= 0,
            None => false,
        };
        flags.push(gone);
        i = i + 1;
    }
    proof {
        assert(flags@ =~= death_flags(s));
    }
    world.remove_flagged(&flags);
}

/// An enemy left with no health after the hits of a tick is absent from the
/// world once the dead are removed, so no later tick sees it.
pub proof fn lemma_dead_enemy_is_gone(ids: Seq<u64>, ents: Seq<Entity>, i: int)
    requires
        ids.len() == ents.len(),
        0 <= i < ids.len(),
        forall|a: int, b: int| 0 <= a < b < ids.len() ==> #[trigger] ids[a] < #[trigger] ids[b],
        dead(ents[i]),
    ensures
        !unflagged(ids, ents, death_flags(ents)).0.contains(ids[i]),
{
    lemma_flagged_is_gone(ids, ents, death_flags(ents), i);
}

/// No dead enemy is left once the dead are removed.
pub proof fn lemma_no_dead_survive(ids: Seq<u64>, ents: Seq<Entity>)
    requires
        ids.len() == ents.len(),
    ensures
        forall|k: int|
            0 <= k < unflagged(ids, ents, death_flags(ents)).1.len() ==> !dead(
                #[trigger] unflagged(ids, ents, death_flags(ents)).1[k],
            ),
    decreases ids.len(),
{
    if ids.len() > 0 {
        let t = ents.drop_last();
        let flags = death_flags(ents);
        assert(flags.drop_last() =~= death_flags(t));
        lemma_no_dead_survive(ids.drop_last(), t);
        let rest = unflagged(ids.drop_last(), t, death_flags(t));
        let all = unflagged(ids, ents, flags);
        assert(rest == unflagged(ids.drop_last(), ents.drop_last(), flags.drop_last()));
        if !flags.last() {
            assert(all.1 == rest.1.push(ents.last()));
            assert forall|k: int| 0 <= k < all.1.len() implies !dead(#[trigger] all.1[k]) by {
                if k < rest.1.len() {
                    assert(all.1[k] == rest.1[k]);
                }
            }
        }
    }
}

/// Each projectile that lands leaves an explosion where it stood.
pub proof fn lemma_landing_leaves_blast(s: Seq<Entity>, k: nat, i: int)
    requires
        0 <= i < k <= s.len(),
        lands(s, i),
    ensures
        blasts(s, k).contains(blast_at(spot_of(s[i]))),
    decreases k,
{
    let b = blasts(s, (k - 1) as nat);
    if i == k - 1 {
        assert(blasts(s, k)[b.len() as int] == blast_at(spot_of(s[i])));
    } else {
        lemma_landing_leaves_blast(s, (k - 1) as nat, i);
        let m = choose|m: int| 0 <= m < b.len() && b[m] == blast_at(spot_of(s[i]));
        if lands(s, k - 1) {
            assert(blasts(s, k)[m] == blast_at(spot_of(s[i])));
        }
    }
}

/// An explosion after `dt` more milliseconds: its radius grows by
/// `EXPLOSION_GROWTH` per millisecond, held at the bounds of `i64`.
pub open spec fn grown(e: Entity, dt: u32) -> Entity {
    match e.explosion {
        Some(x) => Entity {
            explosion: Some(Explosion { radius: clamp_i64(x.radius + EXPLOSION_GROWTH * dt), ..x }),
            ..e
        },
        None => e,
    }
}

/// An explosion that has reached its maximum radius.
pub open spec fn burnt_out(e: Entity) -> bool {
    match e.explosion {
        Some(x) => x.radius >= x.max_radius,
        None => false,
    }
}

/// Grows every explosion by `dt`, then removes each one that has reached its
/// maximum radius.
pub fn update_explosions(world: &mut World, dt: DeltaTime)
    requires
        old(world).wf(),
    ensures
        final(world).wf(),
        ({
            let s = old(world).entities();
            let now = Seq::new(s.len(), |i: int| grown(s[i], dt.0));
            (final(world).ids(), final(world).entities()) == unflagged(
                old(world).ids(),
                now,
                Seq::new(s.len(), |i: int| burnt_out(now[i])),
            )
        }),
        final(world).next_id() == old(world).next_id(),
{
    let n = world.len();
    let ghost s = world.entities();
    let ghost now = Seq::new(s.len(), |i: int| grown(s[i], dt.0));
    let mut flags: Vec<bool> = Vec::new();
    let mut i: usize = 0;
    while i < n
        invariant
            n == s.len(),
            s == old(world).entities(),
            all_wf(s),
            now == Seq::new(s.len(), |i: int| grown(s[i], dt.0)),
            i <= n,
            world.inv(),
            all_wf(world.entities()),
            world.ids() == old(world).ids(),
            world.next_id() == old(world).next_id(),
            world.entities().len() == n,
            forall|k: int| 0 <= k < i ==> #[trigger] world.entities()[k] == now[k],
            forall|k: int| i <= k < n ==> #[trigger] world.entities()[k] == s[k],
            flags@.len() == i,
            forall|k: int| 0 <= k < i ==> #[trigger] flags@[k] == burnt_out(now[k]),
        decreases n - i,
    {
        let mut e = world.get(i);
        let mut done = false;
        match e.explosion {
            Some(x) => {
                proof {
                    assert(-0x8000_0000_0000_0000 <= EXPLOSION_GROWTH * dt.0 <= 0x1_0000_0000_0000)
                        by (nonlinear_arith)
                        requires
                            0 <= dt.0 < 0x1_0000_0000,
                    ;
                }
                let radius = saturate(x.radius as i128 + (EXPLOSION_GROWTH as i128) * (dt.0 as i128));
                e.explosion = Some(Explosion { radius, ..x });
                done = radius >= x.max_radius;
            },
            None => {},
        }
        proof {
            assert(s[i as int].wf());
        }
        world.set(i, e);
        flags.push(done);
        i = i + 1;
    }
    proof {
        assert(world.entities() =~= now);
        assert(flags@ =~= Seq::new(s.len(), |i: int| burnt_out(now[i])));
    }
    world.remove_flagged(&flags);
}

} // verus!
