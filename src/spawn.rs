use vstd::prelude::*;

use crate::combat::Enemy;
use crate::random::RandomSource;
use crate::lifecycle::Recover;
use crate::lifecycle::Shoot;
use crate::motion::Orientation;
use crate::motion::Position;
use crate::motion::Vec2;
use crate::navigation::get_random_point;
use crate::navigation::ARENA_HEIGHT;
use crate::navigation::get_random_side;
use crate::navigation::on_side;
use crate::navigation::Flip;
use crate::navigation::MoveTowards;
use crate::navigation::Speed;
use crate::sprite::AssetId;
use crate::sprite::Sprite;
use crate::world::all_wf;
use crate::world::fresh_ids;
use crate::world::Entity;
use crate::world::World;

verus! {

/// The health of a newly spawned enemy.
pub const ENEMY_HEALTH: i64 = 100;

/// Enemies travel at a speed in `[MIN_ENEMY_SPEED, MAX_ENEMY_SPEED)`.
pub const MIN_ENEMY_SPEED: i64 = 50;

pub const MAX_ENEMY_SPEED: i64 = 150;

/// The width of the arena, in thousandths of a unit.
pub const ARENA_WIDTH: i64 = 600_000;

/// How far towers stand in from the arena's corners.
pub const TOWER_MARGIN: i64 = 50_000;

/// The time between two volleys of a tower, in milliseconds.
pub const TOWER_COOLDOWN: u64 = 250;

/// An entity with no components.
pub open spec fn blank() -> Entity {
    Entity {
        position: None,
        velocity: None,
        orientation: None,
        rotation: None,
        bouncer: None,
        sprite: None,
        time_to_live: None,
        enemy: None,
        damage: None,
        explosion: None,
        projectile: None,
        move_towards: None,
        speed: None,
        flip: None,
        shoot: None,
    }
}

fn empty_entity() -> (e: Entity)
    ensures
        e == blank(),
{
    Entity {
        position: None,
        velocity: None,
        orientation: None,
        rotation: None,
        bouncer: None,
        sprite: None,
        time_to_live: None,
        enemy: None,
        damage: None,
        explosion: None,
        projectile: None,
        move_towards: None,
        speed: None,
        flip: None,
        shoot: None,
    }
}

/// An enemy that starts at `start`, heads for `destination` at `speed`,
/// with full health, facing right, drawn as a grunt.
pub open spec fn grunt(start: Vec2, destination: MoveTowards, speed: i64) -> Entity {
    Entity {
        position: Some(Position(start)),
        orientation: Some(Orientation(0)),
        sprite: Some(Sprite { asset_id: AssetId::Grunt }),
        enemy: Some(Enemy { health: ENEMY_HEALTH }),
        move_towards: Some(destination),
        speed: Some(Speed(speed)),
        flip: Some(Flip::Right),
        ..blank()
    }
}

/// `e` is a newly spawned enemy: it stands on a waypoint of one line, heads
/// for a waypoint of the other, at a speed in the enemies' range.
pub open spec fn fresh_grunt(e: Entity) -> bool {
    exists|start: MoveTowards, destination: MoveTowards, speed: i64|
        {
            &&& on_side(start)
            &&& on_side(destination)
            &&& destination.side == 1 - start.side
            &&& MIN_ENEMY_SPEED <= speed < MAX_ENEMY_SPEED
            &&& e == #[trigger] grunt(start.destination, destination, speed)
        }
}

/// The number of enemies in `s`.
pub open spec fn enemy_count(s: Seq<Entity>) -> nat
    decreases s.len(),
{
    if s.len() == 0 {
        0
    } else {
        enemy_count(s.drop_last()) + if s.last().enemy.is_some() {
            1nat
        } else {
            0nat
        }
    }
}

/// `after` is `before` with `n` freshly spawned enemies added at the end.
pub open spec fn spawned_wave(before: Seq<Entity>, after: Seq<Entity>, n: nat) -> bool {
    &&& after.len() == before.len() + n
    &&& after.subrange(0, before.len() as int) == before
    &&& forall|k: int| before.len() <= k < after.len() ==> fresh_grunt(#[trigger] after[k])
}

/// The enemy that starts at `start`, heads for `destination` at `speed`.
pub fn grunt_at(start: Vec2, destination: MoveTowards, speed: i64) -> (e: Entity)
    ensures
        e == grunt(start, destination, speed),
{
    Entity {
        position: Some(Position(start)),
        orientation: Some(Orientation(0)),
        sprite: Some(Sprite { asset_id: AssetId::Grunt }),
        enemy: Some(Enemy { health: ENEMY_HEALTH }),
        move_towards: Some(destination),
        speed: Some(Speed(speed)),
        flip: Some(Flip::Right),
        ..empty_entity()
    }
}

/// An enemy on a waypoint of a line, heading for a waypoint of the other
/// line, all drawn by `rng`, as is its speed.
pub fn create_grunt<R: RandomSource>(rng: &mut R) -> (e: Entity)
    ensures
        fresh_grunt(e),
        e.wf(),
{
    let side = get_random_side(rng);
    let start = get_random_point(rng, 1 - side);
    let destination = get_random_point(rng, start.side);
    let speed = rng.next_in(MIN_ENEMY_SPEED, MAX_ENEMY_SPEED);
    let e = grunt_at(start.destination, destination, speed);
    assert(e == grunt(start.destination, destination, speed));
    e
}

/// The number of enemies in the world.
pub fn count_enemies(world: &World) -> (r: usize)
    requires
        world.inv(),
    ensures
        r == enemy_count(world.entities()),
{
    let n = world.len();
    let ghost s = world.entities();
    let mut count: usize = 0;
    let mut i: usize = 0;
    while i < n
        invariant
            n == s.len(),
            s == world.entities(),
            i <= n,
            count == enemy_count(s.take(i as int)),
            count <= i,
        decreases n - i,
    {
        proof {
            assert(s.take(i + 1).drop_last() =~= s.take(i as int));
        }
        if world.get(i).enemy.is_some() {
            count = count + 1;
        }
        i = i + 1;
    }
    proof {
        assert(s.take(n as int) =~= s);
    }
    count
}

/// Spawns a wave of `enemies_to_spawn` enemies when no enemy is left; does
/// nothing while any enemy lives.
pub fn spawn_enemies<R: RandomSource>(world: &mut World, rng: &mut R, enemies_to_spawn: usize)
    requires
        old(world).wf(),
        old(world).next_id() + enemies_to_spawn <= u64::MAX,
    ensures
        final(world).wf(),
        enemy_count(old(world).entities()) > 0 ==> *final(world) == *old(world),
        enemy_count(old(world).entities()) == 0 ==> spawned_wave(
            old(world).entities(),
            final(world).entities(),
            enemies_to_spawn as nat,
        ),
        enemy_count(old(world).entities()) == 0 ==> {
            &&& final(world).ids() == old(world).ids() + fresh_ids(old(world).next_id(), enemies_to_spawn as nat)
            &&& final(world).next_id() == old(world).next_id() + enemies_to_spawn
        },
        final(world).next_id() <= old(world).next_id() + enemies_to_spawn,
{
    if count_enemies(world) > 0 {
        return;
    }
    let mut wave: Vec<Entity> = Vec::new();
    let mut i: usize = 0;
    while i < enemies_to_spawn
        invariant
            i <= enemies_to_spawn,
            wave@.len() == i,
            all_wf(wave@),
            forall|k: int| 0 <= k < i ==> fresh_grunt(#[trigger] wave@[k]),
        decreases enemies_to_spawn - i,
    {
        wave.push(create_grunt(rng));
        i = i + 1;
    }
    let ghost before = world.entities();
    world.append_components(wave);
    proof {
        assert(world.entities().subrange(0, before.len() as int) =~= before);
        assert forall|k: int| before.len() <= k < world.entities().len() implies fresh_grunt(
            #[trigger] world.entities()[k],
        ) by {
            assert(world.entities()[k] == wave@[k - before.len()]);
        }
    }
}

proof fn lemma_enemy_count_append(a: Seq<Entity>, b: Seq<Entity>)
    ensures
        enemy_count(a + b) == enemy_count(a) + enemy_count(b),
    decreases b.len(),
{
    if b.len() == 0 {
        assert(a + b =~= a);
    } else {
        lemma_enemy_count_append(a, b.drop_last());
        assert((a + b).drop_last() =~= a + b.drop_last());
    }
}

proof fn lemma_all_enemies(b: Seq<Entity>)
    requires
        forall|k: int| 0 <= k < b.len() ==> (#[trigger] b[k]).enemy.is_some(),
    ensures
        enemy_count(b) == b.len(),
    decreases b.len(),
{
    if b.len() > 0 {
        lemma_all_enemies(b.drop_last());
    }
}

/// A wave spawned into a world without enemies leaves exactly as many
/// enemies as the wave was asked to hold.
pub proof fn lemma_wave_count(before: Seq<Entity>, after: Seq<Entity>, n: nat)
    requires
        enemy_count(before) == 0,
        spawned_wave(before, after, n),
    ensures
        enemy_count(after) == n,
{
    let added = after.subrange(before.len() as int, after.len() as int);
    assert(after =~= before + added);
    assert forall|k: int| 0 <= k < added.len() implies (#[trigger] added[k]).enemy.is_some() by {
        assert(fresh_grunt(after[before.len() + k]));
    }
    lemma_enemy_count_append(before, added);
    lemma_all_enemies(added);
}

/// A tower at `at`: it stands still and fires a volley every
/// `TOWER_COOLDOWN` milliseconds, the first one a full cooldown from now.
pub open spec fn tower(at: Vec2) -> Entity {
    Entity {
        position: Some(Position(at)),
        orientation: Some(Orientation(0)),
        sprite: Some(Sprite { asset_id: AssetId::Tower }),
        shoot: Some(Shoot { recover: Recover { remaining: TOWER_COOLDOWN, period: TOWER_COOLDOWN } }),
        ..blank()
    }
}

/// The four corners of the arena, each inset by `TOWER_MARGIN`.
pub open spec fn tower_corners() -> Seq<Vec2> {
    seq![
        Vec2 { x: TOWER_MARGIN, y: TOWER_MARGIN },
        Vec2 { x: (ARENA_WIDTH - TOWER_MARGIN) as i64, y: TOWER_MARGIN },
        Vec2 { x: TOWER_MARGIN, y: (ARENA_HEIGHT - TOWER_MARGIN) as i64 },
        Vec2 { x: (ARENA_WIDTH - TOWER_MARGIN) as i64, y: (ARENA_HEIGHT - TOWER_MARGIN) as i64 },
    ]
}

fn tower_at(at: Vec2) -> (e: Entity)
    ensures
        e == tower(at),
{
    Entity {
        position: Some(Position(at)),
        orientation: Some(Orientation(0)),
        sprite: Some(Sprite { asset_id: AssetId::Tower }),
        shoot: Some(Shoot { recover: Recover::new(TOWER_COOLDOWN) }),
        ..empty_entity()
    }
}

/// Places one tower at each inset corner of the arena.
pub fn spawn_towers(world: &mut World)
    requires
        old(world).wf(),
        old(world).next_id() + 4 <= u64::MAX,
    ensures
        final(world).wf(),
        final(world).entities() == old(world).entities() + tower_corners().map_values(|c: Vec2| tower(c)),
{
    let far_x = ARENA_WIDTH - TOWER_MARGIN;
    let far_y = ARENA_HEIGHT - TOWER_MARGIN;
    let mut towers: Vec<Entity> = Vec::new();
    towers.push(tower_at(Vec2 { x: TOWER_MARGIN, y: TOWER_MARGIN }));
    towers.push(tower_at(Vec2 { x: far_x, y: TOWER_MARGIN }));
    towers.push(tower_at(Vec2 { x: TOWER_MARGIN, y: far_y }));
    towers.push(tower_at(Vec2 { x: far_x, y: far_y }));
    assert(towers@ =~= tower_corners().map_values(|c: Vec2| tower(c)));
    world.append_components(towers);
}

} // verus!
