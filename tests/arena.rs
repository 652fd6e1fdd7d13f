use arena_core::arena::Arena;
use arena_core::combat::remove_dead;
use arena_core::combat::resolve_hits;
use arena_core::combat::update_explosions;
use arena_core::combat::Damage;
use arena_core::combat::Enemy;
use arena_core::combat::Explosion;
use arena_core::combat::Projectile;
use arena_core::geometry::close;
use arena_core::geometry::direction;
use arena_core::geometry::isqrt;
use arena_core::lifecycle::Recover;
use arena_core::lifecycle::Shoot;
use arena_core::motion::update_motion;
use arena_core::motion::Orientation;
use arena_core::motion::Position;
use arena_core::motion::Vec2;
use arena_core::motion::Velocity;
use arena_core::navigation::get_random_point;
use arena_core::navigation::get_random_side;
use arena_core::navigation::point_on;
use arena_core::navigation::Flip;
use arena_core::random::OsSource;
use arena_core::random::RandomSource;
use arena_core::navigation::MoveTowards;
use arena_core::navigation::Speed;
use arena_core::shooting::update_shoot;
use arena_core::spawn::count_enemies;
use arena_core::spawn::create_grunt;
use arena_core::spawn::spawn_enemies;
use arena_core::spawn::spawn_towers;
use arena_core::sprite::AssetId;
use arena_core::sprite::Sprite;
use arena_core::steering::move_towards;
use arena_core::steering::update_destination;
use arena_core::world::Entity;
use arena_core::world::World;
use arena_core::DeltaTime;

/// Hands out `low` plus a counter, wrapped into the range asked for.
struct Scripted(i64);

impl RandomSource for Scripted {
    fn next_in(&mut self, low: i64, high: i64) -> i64 {
        self.0 += 1;
        low + self.0.rem_euclid(high - low)
    }
}

fn nothing() -> Entity {
    Entity {
        position: None,
        velocity: None,
        orientation: None,
        rotation: None,
        bouncer: None,
        sprite: None,
        time_to_live: None,
        enemy: None,
        damage: None,
        explosion: None,
        projectile: None,
        move_towards: None,
        speed: None,
        flip: None,
        shoot: None,
    }
}

fn at(x: i64, y: i64) -> Option<Position> {
    Some(Position(Vec2 { x, y }))
}

fn enemy(x: i64, y: i64, health: i64) -> Entity {
    Entity { position: at(x, y), enemy: Some(Enemy { health }), ..nothing() }
}

fn shot(x: i64, y: i64, damage: i64) -> Entity {
    Entity {
        position: at(x, y),
        damage: Some(Damage(damage)),
        projectile: Some(Projectile),
        ..nothing()
    }
}

fn tower(x: i64, y: i64, cooldown: u64) -> Entity {
    Entity {
        position: at(x, y),
        shoot: Some(Shoot { recover: Recover::new(cooldown) }),
        ..nothing()
    }
}

fn world_of(entities: Vec<Entity>) -> World {
    let mut world = World::new();
    world.append_components(entities);
    world
}

fn enemy_health(world: &World, i: usize) -> i64 {
    world.get(i).enemy.unwrap().health
}

#[test]
fn isqrt_is_the_floor_root() {
    assert_eq!(isqrt(0), 0);
    assert_eq!(isqrt(1), 1);
    assert_eq!(isqrt(15), 3);
    assert_eq!(isqrt(16), 4);
    assert_eq!(isqrt(1 << 100), 1 << 50);
    assert_eq!(isqrt((1u128 << 126) - 1), (1u64 << 63) - 1);
}

#[test]
fn direction_scales_the_gap() {
    let o = Vec2 { x: 0, y: 0 };
    assert_eq!(direction(o, Vec2 { x: 3_000, y: 4_000 }, 500), Some(Vec2 { x: 300, y: 400 }));
    assert_eq!(direction(o, Vec2 { x: -3_000, y: -4_000 }, 500), Some(Vec2 { x: -300, y: -400 }));
    assert_eq!(direction(o, Vec2 { x: 1, y: 1 }, 10), Some(Vec2 { x: 10, y: 10 }));
    assert_eq!(direction(o, o, 500), None);
    assert_eq!(direction(o, Vec2 { x: i64::MAX, y: 0 }, 500), None);
}

#[test]
fn close_compares_squared_distance() {
    let o = Vec2 { x: 0, y: 0 };
    assert!(close(o, Vec2 { x: 6_000, y: 8_000 }, 10_000));
    assert!(!close(o, Vec2 { x: 6_000, y: 8_001 }, 10_000));
    assert!(!close(o, Vec2 { x: i64::MIN, y: 0 }, 10_000));
}

#[test]
fn waypoints_are_spread_evenly() {
    assert_eq!(point_on(0, 0), Vec2 { x: 50_000, y: 50_000 });
    assert_eq!(point_on(1, 9), Vec2 { x: 550_000, y: 550_000 });
    assert_eq!(point_on(1, 3), Vec2 { x: 550_000, y: 216_666 });
}

#[test]
fn random_points_alternate_sides() {
    let mut rng = OsSource;
    for _ in 0..20 {
        let m = get_random_point(&mut rng, 0);
        assert_eq!(m.side, 1);
        assert_eq!(m.destination.x, 550_000);
        let m = get_random_point(&mut rng, 1);
        assert_eq!(m.side, 0);
        assert_eq!(m.destination.x, 50_000);
        assert!(get_random_side(&mut rng) < 2);
    }
}

#[test]
fn hit_takes_damage_and_leaves_an_explosion() {
    let mut world = world_of(vec![
        enemy(100_000, 0, 100),
        enemy(95_000, 0, 100),
        shot(100_000, 5_000, 30),
        shot(0, 0, 30),
    ]);
    resolve_hits(&mut world);
    assert_eq!(world.len(), 4);
    assert_eq!(enemy_health(&world, 0), 70);
    assert_eq!(enemy_health(&world, 1), 100);
    assert_eq!(world.id_at(2), 3);
    assert_eq!(world.get(3).explosion, Some(Explosion { radius: 0, max_radius: 25_000 }));
    assert_eq!(world.get(3).position, at(100_000, 5_000));
    assert_eq!(world.get(3).sprite, Some(Sprite { asset_id: AssetId::Explosion }));
}

#[test]
fn killed_enemy_is_gone_with_one_explosion() {
    let mut world = world_of(vec![enemy(0, 0, 20), shot(3_000, 0, 25)]);
    resolve_hits(&mut world);
    remove_dead(&mut world);
    assert_eq!(world.len(), 1);
    assert!(world.get(0).enemy.is_none());
    assert_eq!(world.get(0).position, at(3_000, 0));
    assert!(world.get(0).explosion.is_some());
}

#[test]
fn remove_dead_keeps_the_living() {
    let mut world = world_of(vec![enemy(0, 0, 0), enemy(0, 0, 1), enemy(0, 0, -5), nothing()]);
    remove_dead(&mut world);
    assert_eq!(world.len(), 2);
    assert_eq!(world.id_at(0), 1);
    assert_eq!(world.id_at(1), 3);
}

#[test]
fn explosions_grow_then_expire() {
    let blast = Entity { explosion: Some(Explosion { radius: 0, max_radius: 25_000 }), ..nothing() };
    let mut world = world_of(vec![blast]);
    update_explosions(&mut world, DeltaTime(400));
    assert_eq!(world.get(0).explosion, Some(Explosion { radius: 10_000, max_radius: 25_000 }));
    update_explosions(&mut world, DeltaTime(599));
    assert_eq!(world.len(), 1);
    update_explosions(&mut world, DeltaTime(1));
    assert_eq!(world.len(), 0);
}

#[test]
fn tower_fires_one_missile_per_target_when_due() {
    let mut world = world_of(vec![tower(0, 0, 250), enemy(200_000, 0, 100), enemy(0, 100_000, 100)]);
    update_shoot(&mut world, DeltaTime(249));
    assert_eq!(world.len(), 3);
    update_shoot(&mut world, DeltaTime(1));
    assert_eq!(world.len(), 5);
    assert_eq!(world.get(3).position, at(30_000, 0));
    assert_eq!(world.get(3).velocity, Some(Velocity(Vec2 { x: 400, y: 0 })));
    assert_eq!(world.get(4).position, at(0, 30_000));
    assert_eq!(world.get(4).velocity, Some(Velocity(Vec2 { x: 0, y: 400 })));
    assert_eq!(world.get(0).shoot.unwrap().recover.remaining, 250);
}

#[test]
fn volley_aims_at_the_first_ten_enemies() {
    let mut entities = vec![tower(0, 0, 10)];
    for i in 1..=12 {
        entities.push(enemy(i * 100_000, 0, 100));
    }
    let mut world = world_of(entities);
    update_shoot(&mut world, DeltaTime(10));
    assert_eq!(world.len(), 13 + 10);
}

#[test]
fn tower_shot_reaches_enemy_and_damages_it() {
    let mut world = world_of(vec![tower(0, 0, 250), enemy(200_000, 0, 100)]);
    let mut elapsed = 0;
    while elapsed < 250 {
        update_shoot(&mut world, DeltaTime(50));
        elapsed += 50;
    }
    assert_eq!(world.len(), 3);
    assert!(world.get(2).projectile.is_some());
    let damage = world.get(2).damage.unwrap().0;
    update_motion(&mut world, DeltaTime(400));
    resolve_hits(&mut world);
    remove_dead(&mut world);
    assert_eq!(enemy_health(&world, 1), 100 - damage);
    assert_eq!(world.len(), 3);
    assert!(world.get(2).projectile.is_none());
    assert!(world.get(2).explosion.is_some());
}

#[test]
fn steering_moves_toward_the_destination_and_flips() {
    let walker = Entity {
        position: at(100_000, 100_000),
        move_towards: Some(MoveTowards { destination: Vec2 { x: 40_000, y: 20_000 }, side: 0 }),
        speed: Some(Speed(100)),
        flip: Some(Flip::Right),
        ..nothing()
    };
    let mut world = world_of(vec![walker]);
    move_towards(&mut world, DeltaTime(10));
    assert_eq!(world.get(0).position, at(99_400, 99_200));
    assert_eq!(world.get(0).flip, Some(Flip::Left));
}

#[test]
fn arrival_picks_a_destination_on_the_other_side() {
    let there = Entity {
        position: at(50_500, 50_000),
        move_towards: Some(MoveTowards { destination: Vec2 { x: 50_000, y: 50_000 }, side: 0 }),
        ..nothing()
    };
    let far = Entity {
        position: at(0, 0),
        move_towards: Some(MoveTowards { destination: Vec2 { x: 50_000, y: 50_000 }, side: 0 }),
        ..nothing()
    };
    let mut world = world_of(vec![there, far]);
    update_destination(&mut world, &mut OsSource);
    let m = world.get(0).move_towards.unwrap();
    assert_eq!(m.side, 1);
    assert_eq!(m.destination.x, 550_000);
    assert_eq!(world.get(1).move_towards.unwrap().side, 0);
}

#[test]
fn spawner_adds_a_wave_only_when_no_enemy_is_left() {
    let mut world = world_of(vec![nothing()]);
    spawn_enemies(&mut world, &mut OsSource, 6);
    assert_eq!(world.len(), 7);
    assert_eq!(count_enemies(&world), 6);
    spawn_enemies(&mut world, &mut OsSource, 6);
    assert_eq!(world.len(), 7);
}

#[test]
fn grunts_start_whole_and_face_right() {
    let g = create_grunt(&mut OsSource);
    assert_eq!(g.enemy, Some(Enemy { health: 100 }));
    assert_eq!(g.flip, Some(Flip::Right));
    assert_eq!(g.orientation, Some(Orientation(0)));
    let Speed(v) = g.speed.unwrap();
    assert!(50 <= v && v < 150);
}

#[test]
fn towers_stand_at_the_inset_corners() {
    let mut world = World::new();
    spawn_towers(&mut world);
    assert_eq!(world.len(), 4);
    assert_eq!(world.get(0).position, at(50_000, 50_000));
    assert_eq!(world.get(3).position, at(550_000, 550_000));
    assert_eq!(world.get(1).shoot, Some(Shoot { recover: Recover { remaining: 250, period: 250 } }));
}

#[test]
fn arena_spawns_a_wave_on_the_first_tick() {
    let mut arena = Arena::new(7);
    assert_eq!(count_enemies(arena.world()), 0);
    assert!(arena.has_room());
    arena.update(&mut OsSource, 0);
    assert_eq!(count_enemies(arena.world()), 7);
    assert_eq!(arena.get_render_size(), 11);
    assert_eq!(arena.get_render_asset_ids().iter().filter(|&&a| a == 0).count(), 7);
    assert_eq!(arena.get_render_pos_x().len(), 11);
    assert_eq!(arena.get_render_pos_y().len(), 11);
    assert_eq!(arena.get_render_orientation().len(), 11);
}

#[test]
fn arena_ticks_keep_the_frame_in_step() {
    let mut arena = Arena::new(5);
    for _ in 0..40 {
        arena.update(&mut OsSource, 16);
        assert_eq!(arena.get_render_size(), arena.world().len());
    }
}

#[test]
fn scripted_source_replays_the_same_wave() {
    let mut first = World::new();
    spawn_enemies(&mut first, &mut Scripted(0), 3);
    let mut second = World::new();
    spawn_enemies(&mut second, &mut Scripted(0), 3);
    assert_eq!(first.len(), 3);
    for i in 0..3 {
        assert_eq!(first.get(i).position, second.get(i).position);
        assert_eq!(first.get(i).move_towards, second.get(i).move_towards);
        assert_eq!(first.get(i).speed, second.get(i).speed);
    }
    assert_eq!(get_random_point(&mut Scripted(2), 0).destination, point_on(1, 3));
}

#[test]
fn arena_tick_fires_hits_and_expires_in_one_pass() {
    let mut arena = Arena::new(1);
    arena.update(&mut Scripted(0), 0);
    assert_eq!(count_enemies(arena.world()), 1);
    assert_eq!(arena.world().len(), 5);
    arena.update(&mut Scripted(0), 250);
    let missiles = (0..arena.world().len())
        .filter(|&i| arena.world().get(i).projectile.is_some())
        .count();
    assert_eq!(missiles, 4);
    assert_eq!(arena.get_render_size(), arena.world().len());
}
