use arena_core::bouncing_entity;
use arena_core::create_bouncing_entity;
use arena_core::gen_range;
use arena_core::motion::Orientation;
use arena_core::motion::Position;
use arena_core::motion::Rotation;
use arena_core::motion::Vec2;
use arena_core::motion::Velocity;
use arena_core::sprite::AssetId;
use arena_core::Main;
use arena_core::BOUNCER_COUNT;

#[test]
fn gen_range_stays_in_range() {
    assert_eq!(gen_range(5, 6), 5);
    let mut seen_above_low = false;
    for _ in 0..100 {
        let v = gen_range(-3, 4);
        assert!(-3 <= v && v < 4);
        seen_above_low = seen_above_low || v > -3;
    }
    assert!(seen_above_low);
}

#[test]
fn bouncing_entity_has_the_given_start() {
    let e = bouncing_entity(1, 2, 300, 400, -5);
    assert_eq!(e.position, Some(Position(Vec2 { x: 1, y: 2 })));
    assert_eq!(e.velocity, Some(Velocity(Vec2 { x: 300, y: 400 })));
    assert_eq!(e.orientation, Some(Orientation(0)));
    assert_eq!(e.rotation, Some(Rotation(-5)));
    assert_eq!(e.sprite.unwrap().asset_id, AssetId::Missile);
    assert_eq!(e.bouncer.unwrap().1, Vec2 { x: 600_000, y: 600_000 });
    assert_eq!(e.time_to_live, None);
}

#[test]
fn created_bouncers_start_in_range() {
    for _ in 0..50 {
        let e = create_bouncing_entity();
        let Position(p) = e.position.unwrap();
        let Velocity(v) = e.velocity.unwrap();
        let Rotation(r) = e.rotation.unwrap();
        assert!(0 <= p.x && p.x < 400_000 && 0 <= p.y && p.y < 400_000);
        assert!(100 <= v.x && v.x < 500 && 100 <= v.y && v.y < 500);
        assert!(-6_283 <= r && r < 6_283);
    }
}

#[test]
fn new_game_has_fifty_bouncers_and_an_empty_frame() {
    let game = Main::new();
    assert_eq!(BOUNCER_COUNT, 50);
    assert_eq!(game.get_render_size(), 0);
    assert!(game.get_render_asset_ids().is_empty());
}

#[test]
fn game_tick_renders_every_bouncer() {
    let mut game = Main::new();
    game.update(16);
    assert_eq!(game.get_render_size(), 50);
    assert_eq!(game.get_render_asset_ids(), &[1u8; 50][..]);
    assert_eq!(game.get_render_pos_x().len(), 50);
    assert_eq!(game.get_render_pos_y().len(), 50);
    for &x in game.get_render_pos_x() {
        assert!(1_600 <= x && x < 400_000 + 8_000);
    }
    for &a in game.get_render_orientation() {
        assert!(0 <= a && a < 6_283_185);
    }
    game.start();
    game.pause();
    game.resume();
    game.stop();
}
