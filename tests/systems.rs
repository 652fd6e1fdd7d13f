use arena_core::bouncer::update_bouncers;
use arena_core::bouncer::Bouncer;
use arena_core::lifecycle::update_time_to_live;
use arena_core::lifecycle::Recover;
use arena_core::lifecycle::TimeToLive;
use arena_core::motion::update_motion;
use arena_core::motion::Orientation;
use arena_core::motion::Position;
use arena_core::motion::Rotation;
use arena_core::motion::Vec2;
use arena_core::motion::Velocity;
use arena_core::motion::FULL_TURN;
use arena_core::render_frame::RenderFrame;
use arena_core::sprite::assetid_as_u8;
use arena_core::sprite::AssetId;
use arena_core::sprite::Sprite;
use arena_core::world::Entity;
use arena_core::world::World;
use arena_core::DeltaTime;

fn bare() -> Entity {
    Entity {
        position: None,
        velocity: None,
        orientation: None,
        rotation: None,
        bouncer: None,
        sprite: None,
        time_to_live: None,
        enemy: None,
        damage: None,
        explosion: None,
        projectile: None,
        move_towards: None,
        speed: None,
        flip: None,
        shoot: None,
    }
}

fn mover(x: i64, y: i64, dx: i64, dy: i64) -> Entity {
    Entity {
        position: Some(Position(Vec2 { x, y })),
        velocity: Some(Velocity(Vec2 { x: dx, y: dy })),
        ..bare()
    }
}

fn spinner(angle: i64, rate: i64) -> Entity {
    Entity {
        orientation: Some(Orientation(angle)),
        rotation: Some(Rotation(rate)),
        ..bare()
    }
}

fn drawn(x: i64, y: i64, asset_id: AssetId) -> Entity {
    Entity {
        position: Some(Position(Vec2 { x, y })),
        orientation: Some(Orientation(7)),
        sprite: Some(Sprite { asset_id }),
        ..bare()
    }
}

fn mortal(ttl: u64) -> Entity {
    Entity { time_to_live: Some(TimeToLive(ttl)), ..bare() }
}

fn world_of(entities: Vec<Entity>) -> World {
    let mut world = World::new();
    world.append_components(entities);
    world
}

#[test]
fn asset_codes_follow_declaration_order() {
    assert_eq!(assetid_as_u8(AssetId::Grunt), 0);
    assert_eq!(assetid_as_u8(AssetId::Missile), 1);
    assert_eq!(assetid_as_u8(AssetId::SmallMissile), 2);
    assert_eq!(assetid_as_u8(AssetId::Tower), 3);
    assert_eq!(assetid_as_u8(AssetId::Explosion), 4);
}

#[test]
fn append_hands_out_increasing_ids() {
    let mut world = world_of(vec![bare(), bare()]);
    world.append_components(vec![bare()]);
    assert_eq!(world.len(), 3);
    assert_eq!(world.id_at(0), 0);
    assert_eq!(world.id_at(1), 1);
    assert_eq!(world.id_at(2), 2);
}

#[test]
fn remove_deletes_listed_ids_once() {
    let mut world = world_of(vec![mortal(1), mortal(2), mortal(3), mortal(4)]);
    world.remove(&vec![1, 3, 1, 99]);
    assert_eq!(world.len(), 2);
    assert_eq!(world.id_at(0), 0);
    assert_eq!(world.id_at(1), 2);
    assert_eq!(world.get(1).time_to_live, Some(TimeToLive(3)));
    world.remove(&vec![1, 3]);
    assert_eq!(world.len(), 2);
}

#[test]
fn motion_adds_velocity_times_dt() {
    let mut world = world_of(vec![mover(1_000, -2_000, 300, -40), bare()]);
    update_motion(&mut world, DeltaTime(16));
    assert_eq!(world.get(0).position, Some(Position(Vec2 { x: 5_800, y: -2_640 })));
    assert_eq!(world.get(1).position, None);
}

#[test]
fn motion_with_zero_dt_stays_put() {
    let mut world = world_of(vec![mover(12, 34, 500, 500)]);
    update_motion(&mut world, DeltaTime(0));
    assert_eq!(world.get(0).position, Some(Position(Vec2 { x: 12, y: 34 })));
}

#[test]
fn motion_holds_positions_at_integer_bounds() {
    let mut world = world_of(vec![mover(i64::MAX - 5, i64::MIN + 5, i64::MAX, i64::MIN)]);
    update_motion(&mut world, DeltaTime(u32::MAX));
    assert_eq!(world.get(0).position, Some(Position(Vec2 { x: i64::MAX, y: i64::MIN })));
}

#[test]
fn orientation_wraps_forward_and_backward() {
    let mut world = world_of(vec![
        spinner(FULL_TURN - 10, 3),
        spinner(5, -2),
        spinner(0, 1_000),
    ]);
    update_motion(&mut world, DeltaTime(10));
    assert_eq!(world.get(0).orientation, Some(Orientation(20)));
    assert_eq!(world.get(1).orientation, Some(Orientation(FULL_TURN - 15)));
    assert_eq!(world.get(2).orientation, Some(Orientation(10_000)));
}

#[test]
fn orientation_stays_in_range_over_many_ticks() {
    let mut world = world_of(vec![spinner(0, -6_283), spinner(100, 6_283), spinner(0, i64::MIN)]);
    for dt in [1u32, 17, 250, 1_000, 999_999, u32::MAX, 3] {
        update_motion(&mut world, DeltaTime(dt));
        for i in 0..world.len() {
            let Orientation(a) = world.get(i).orientation.unwrap();
            assert!(0 <= a && a < FULL_TURN);
        }
    }
}

#[test]
fn bouncers_turn_back_at_walls() {
    let wall = Bouncer(Vec2 { x: 0, y: 0 }, Vec2 { x: 600_000, y: 600_000 });
    let inside = Entity { bouncer: Some(wall), ..mover(300_000, 300_000, 200, -300) };
    let at_left = Entity { bouncer: Some(wall), ..mover(-5, 300_000, -200, 300) };
    let at_bottom = Entity { bouncer: Some(wall), ..mover(10, 600_000, 200, 300) };
    let extreme = Entity { bouncer: Some(wall), ..mover(0, 1, i64::MIN, 4) };
    let mut world = world_of(vec![inside, at_left, at_bottom, extreme]);
    update_bouncers(&mut world, DeltaTime(16));
    assert_eq!(world.get(0).velocity, Some(Velocity(Vec2 { x: 200, y: -300 })));
    assert_eq!(world.get(1).velocity, Some(Velocity(Vec2 { x: 200, y: 300 })));
    assert_eq!(world.get(2).velocity, Some(Velocity(Vec2 { x: 200, y: -300 })));
    assert_eq!(world.get(3).velocity, Some(Velocity(Vec2 { x: i64::MAX, y: 4 })));
}

#[test]
fn snapshot_holds_one_row_per_renderable() {
    let world = world_of(vec![
        drawn(1, 2, AssetId::Tower),
        mover(5, 5, 1, 1),
        drawn(3, 4, AssetId::Grunt),
    ]);
    let mut frame = RenderFrame::new(10);
    assert_eq!(frame.size(), 0);
    frame.snapshot_world(&world);
    assert_eq!(frame.size(), 2);
    assert_eq!(frame.capacity(), 10);
    assert_eq!(frame.asset_ids(), &[3u8, 0][..]);
    assert_eq!(frame.pos_x(), &[1i64, 3][..]);
    assert_eq!(frame.pos_y(), &[2i64, 4][..]);
    assert_eq!(frame.orientation(), &[7i64, 7][..]);
}

#[test]
fn snapshot_grows_capacity_without_losing_rows() {
    let mut entities = Vec::new();
    for i in 0..7 {
        entities.push(drawn(i, -i, AssetId::Explosion));
    }
    let world = world_of(entities);
    let mut frame = RenderFrame::new(2);
    frame.snapshot_world(&world);
    assert_eq!(frame.capacity(), 14);
    assert_eq!(frame.size(), 7);
    assert_eq!(frame.pos_x(), &[0i64, 1, 2, 3, 4, 5, 6][..]);
    assert_eq!(frame.pos_y(), &[0i64, -1, -2, -3, -4, -5, -6][..]);
    assert_eq!(frame.asset_ids(), &[4u8; 7][..]);
}

#[test]
fn snapshot_of_empty_world_is_empty() {
    let world = World::new();
    let mut frame = RenderFrame::new(0);
    frame.snapshot_world(&world);
    assert_eq!(frame.size(), 0);
    assert_eq!(frame.capacity(), 0);
    assert!(frame.asset_ids().is_empty());
}

#[test]
fn resize_and_clear_shape_the_columns() {
    let mut frame = RenderFrame::new(1);
    frame.resize(4);
    assert_eq!(frame.capacity(), 4);
    assert_eq!(frame.pos_x(), &[0i64; 4][..]);
    frame.clear();
    assert!(frame.pos_y().is_empty());
    assert_eq!(frame.capacity(), 4);
}

#[test]
fn recover_fires_when_time_runs_out() {
    let mut recover = Recover::new(250);
    assert!(!recover.action(100));
    assert_eq!(recover.remaining, 150);
    assert!(!recover.action(149));
    assert!(recover.action(1));
    assert_eq!(recover.remaining, 250);
}

#[test]
fn recover_zero_steps_are_idle() {
    let mut recover = Recover::new(250);
    for _ in 0..5 {
        assert!(!recover.action(0));
    }
    assert_eq!(recover, Recover { remaining: 250, period: 250 });
}

#[test]
fn recover_large_step_fires_once_without_underflow() {
    let mut recover = Recover { remaining: 10, period: 250 };
    assert!(recover.action(u64::MAX));
    assert_eq!(recover.remaining, 250);
    assert!(!recover.action(249));
}

#[test]
fn recover_fires_once_per_period() {
    let mut recover = Recover::new(250);
    let mut fired = 0;
    for _ in 0..100 {
        if recover.action(10) {
            fired += 1;
        }
    }
    assert_eq!(fired, 4);
}

#[test]
fn time_to_live_removes_in_the_same_tick() {
    let mut world = world_of(vec![mortal(16), mortal(17), bare(), mortal(0)]);
    update_time_to_live(&mut world, DeltaTime(16));
    assert_eq!(world.len(), 2);
    assert_eq!(world.id_at(0), 1);
    assert_eq!(world.get(0).time_to_live, Some(TimeToLive(1)));
    assert_eq!(world.id_at(1), 2);
    update_time_to_live(&mut world, DeltaTime(1));
    assert_eq!(world.len(), 1);
    assert_eq!(world.id_at(0), 2);
}
