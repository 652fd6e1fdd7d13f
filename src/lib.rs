//! Per-frame simulation core of a small arena game: an entity store, the
//! systems that run over it every tick (motion, bouncing, steering, firing,
//! hits, deaths, explosions, expiry, spawning), and a column-oriented frame
//! buffer that a renderer reads after each tick.
//!
//! `Main` runs a field of bouncing entities; `arena::Arena` runs the game of
//! towers and enemy waves. Systems never add or remove entities in the
//! middle of a scan: what they add or remove is gathered and applied once the
//! scan is done.
//!
//! All quantities are integers in fixed point: a position is counted in
//! thousandths of an arena unit, a velocity in thousandths of a unit per
//! millisecond, an angle in millionths of a radian, and time in milliseconds.
pub mod arena;
pub mod bouncer;
pub mod combat;
pub mod geometry;
pub mod lifecycle;
pub mod motion;
pub mod navigation;
pub mod random;
pub mod render_frame;
pub mod shooting;
pub mod spawn;
pub mod steering;
pub mod sprite;
pub mod world;

use rand::Rng;
use vstd::prelude::*;

use crate::bouncer::bounced;
use crate::bouncer::update_bouncers;
use crate::bouncer::Bouncer;
use crate::motion::advance;
use crate::motion::moved;
use crate::motion::update_motion;
use crate::motion::Orientation;
use crate::motion::Position;
use crate::motion::Rotation;
use crate::motion::Vec2;
use crate::motion::Velocity;
use crate::motion::FULL_TURN;
use crate::render_frame::RenderFrame;
use crate::sprite::AssetId;
use crate::sprite::Sprite;
use crate::world::all_wf;
use crate::world::Entity;
use crate::world::World;

verus! {

/// The time that one tick covers, in milliseconds.
#[derive(Copy, Clone, Debug, PartialEq, Eq, Structural)]
pub struct DeltaTime(pub u32);

/// Bouncing entities start at coordinates in `[0, SPAWN_EXTENT)`.
pub const SPAWN_EXTENT: i64 = 400_000;

/// Bouncing entities start with a speed in `[MIN_SPEED, MAX_SPEED)` on each axis.
pub const MIN_SPEED: i64 = 100;

pub const MAX_SPEED: i64 = 500;

/// Bouncing entities spin at a rate in `[-SPIN_LIMIT, SPIN_LIMIT)`: up to a
/// full turn per second.
pub const SPIN_LIMIT: i64 = 6_283;

/// The far corner of the box that bouncing entities stay in.
pub const BOX_EXTENT: i64 = 600_000;

/// The number of bouncing entities in a new game.
pub const BOUNCER_COUNT: usize = 50;

/// The capacity of the frame of a new game.
pub const FRAME_CAPACITY: usize = 10;

/// The bouncing entity with the given start position, velocity and spin.
pub open spec fn bouncing(x: i64, y: i64, dx: i64, dy: i64, spin: i64) -> Entity {
    Entity {
        position: Some(Position(Vec2 { x, y })),
        velocity: Some(Velocity(Vec2 { x: dx, y: dy })),
        orientation: Some(Orientation(0)),
        rotation: Some(Rotation(spin)),
        bouncer: Some(Bouncer(Vec2 { x: 0, y: 0 }, Vec2 { x: BOX_EXTENT, y: BOX_EXTENT })),
        sprite: Some(Sprite { asset_id: AssetId::Missile }),
        time_to_live: None,
        enemy: None,
        damage: None,
        explosion: None,
        projectile: None,
        move_towards: None,
        speed: None,
        flip: None,
        shoot: None,
    }
}

/// `e` is a bouncing entity whose start values lie in the ranges that
/// `create_bouncing_entity` draws from.
pub open spec fn fresh_bouncer(e: Entity) -> bool {
    exists|x: i64, y: i64, dx: i64, dy: i64, spin: i64|
        {
            &&& 0 <= x < SPAWN_EXTENT
            &&& 0 <= y < SPAWN_EXTENT
            &&& MIN_SPEED <= dx < MAX_SPEED
            &&& MIN_SPEED <= dy < MAX_SPEED
            &&& -SPIN_LIMIT <= spin < SPIN_LIMIT
            &&& e == #[trigger] bouncing(x, y, dx, dy, spin)
        }
}

/// What one tick does to an entity: it moves and turns, then bounces off
/// the walls of its box.
pub open spec fn ticked(e: Entity, dt: u32) -> Entity {
    bounced(moved(e, dt))
}

/// An entity after a tick of each duration of `dts`, in order.
pub open spec fn run(e: Entity, dts: Seq<u32>) -> Entity
    decreases dts.len(),
{
    if dts.len() == 0 {
        e
    } else {
        ticked(run(e, dts.drop_last()), dts.last())
    }
}

/// After one tick, an entity with a position and a velocity stands where
/// its position plus its velocity times the elapsed time leads (each
/// coordinate held at the bounds of `i64`); the bounce that follows changes
/// its velocity only. Without both, its position does not change.
pub proof fn lemma_tick_moves_by_velocity(e: Entity, dt: u32)
    ensures
        match (e.position, e.velocity) {
            (Some(Position(p)), Some(Velocity(v))) => ticked(e, dt).position == Some(
                Position(Vec2 { x: advance(p.x, v.x, dt), y: advance(p.y, v.y, dt) }),
            ),
            _ => ticked(e, dt).position == e.position,
        },
{
}

/// Where the sum fits in an `i64`, one tick moves an entity by exactly its
/// velocity times the elapsed time, on each axis.
pub proof fn lemma_tick_moves_exactly(e: Entity, dt: u32, p: Vec2, v: Vec2)
    requires
        e.position == Some(Position(p)),
        e.velocity == Some(Velocity(v)),
        i64::MIN <= p.x + v.x * dt <= i64::MAX,
        i64::MIN <= p.y + v.y * dt <= i64::MAX,
    ensures
        ticked(e, dt).position == Some(Position(Vec2 { x: (p.x + v.x * dt) as i64, y: (p.y + v.y * dt) as i64 })),
{
}

/// However many ticks run, of whatever lengths, and whatever an entity's
/// rotation, its orientation stays in `[0, FULL_TURN)`.
pub proof fn lemma_orientation_stays_in_range(e: Entity, dts: Seq<u32>)
    requires
        e.wf(),
    ensures
        match run(e, dts).orientation {
            Some(Orientation(a)) => 0 <= a < FULL_TURN,
            None => true,
        },
        run(e, dts).wf(),
        run(e, dts).orientation.is_some() == e.orientation.is_some(),
    decreases dts.len(),
{
    if dts.len() > 0 {
        lemma_orientation_stays_in_range(e, dts.drop_last());
    }
}

/// Relies on `rand::Rng::gen_range` over the operating system's generator:
/// a value drawn from `[low, high)`.
#[verifier::external_body]
pub fn gen_range(low: i64, high: i64) -> (r: i64)
    requires
        low < high,
    ensures
        low <= r < high,
{
    rand::rngs::OsRng.gen_range(low..high)
}

/// The bouncing entity with the given start position, velocity and spin: it
/// faces angle zero, keeps to the box from the origin to `BOX_EXTENT` on both
/// axes, and is drawn as a missile.
pub fn bouncing_entity(x: i64, y: i64, dx: i64, dy: i64, spin: i64) -> (e: Entity)
    ensures
        e == bouncing(x, y, dx, dy, spin),
{
    Entity {
        position: Some(Position(Vec2 { x, y })),
        velocity: Some(Velocity(Vec2 { x: dx, y: dy })),
        orientation: Some(Orientation(0)),
        rotation: Some(Rotation(spin)),
        bouncer: Some(Bouncer(Vec2 { x: 0, y: 0 }, Vec2 { x: BOX_EXTENT, y: BOX_EXTENT })),
        sprite: Some(Sprite { asset_id: AssetId::Missile }),
        time_to_live: None,
        enemy: None,
        damage: None,
        explosion: None,
        projectile: None,
        move_towards: None,
        speed: None,
        flip: None,
        shoot: None,
    }
}

/// A bouncing entity with a random start position, velocity and spin.
pub fn create_bouncing_entity() -> (e: Entity)
    ensures
        fresh_bouncer(e),
        e.wf(),
{
    let x = gen_range(0, SPAWN_EXTENT);
    let y = gen_range(0, SPAWN_EXTENT);
    let dx = gen_range(MIN_SPEED, MAX_SPEED);
    let dy = gen_range(MIN_SPEED, MAX_SPEED);
    let spin = gen_range(-SPIN_LIMIT, SPIN_LIMIT);
    let e = bouncing_entity(x, y, dx, dy, spin);
    assert(e == bouncing(x, y, dx, dy, spin));
    e
}

/// A running game: the world and the frame that the last tick produced.
pub struct Main {
    world: World,
    render_frame: RenderFrame,
}

impl Main {
    pub closed spec fn world_spec(&self) -> World {
        self.world
    }

    pub closed spec fn frame_spec(&self) -> RenderFrame {
        self.render_frame
    }

    pub open spec fn wf(&self) -> bool {
        self.world_spec().wf() && self.frame_spec().wf()
    }

    /// A game with `BOUNCER_COUNT` freshly drawn bouncing entities and an
    /// empty frame of capacity `FRAME_CAPACITY`.
    pub fn new() -> (m: Main)
        ensures
            m.wf(),
            m.world_spec().entities().len() == BOUNCER_COUNT,
            forall|i: int|
                0 <= i < BOUNCER_COUNT ==> fresh_bouncer(#[trigger] m.world_spec().entities()[i]),
            m.frame_spec().capacity_spec() == FRAME_CAPACITY,
            m.frame_spec().size_spec() == 0,
    {
        let mut world = World::new();
        let render_frame = RenderFrame::new(FRAME_CAPACITY);
        let mut bouncers: Vec<Entity> = Vec::new();
        let mut i: usize = 0;
        while i < BOUNCER_COUNT
            invariant
                i <= BOUNCER_COUNT,
                bouncers@.len() == i,
                all_wf(bouncers@),
                forall|j: int| 0 <= j < i ==> fresh_bouncer(#[trigger] bouncers@[j]),
            decreases BOUNCER_COUNT - i,
        {
            bouncers.push(create_bouncing_entity());
            i = i + 1;
        }
        world.append_components(bouncers);
        Main { world, render_frame }
    }

    /// Runs one tick of `time_delta` milliseconds: every entity moves and
    /// turns, then bounces, and the frame is taken anew from the world.
    pub fn update(&mut self, time_delta: u32)
        requires
            old(self).wf(),
        ensures
            final(self).wf(),
            final(self).world_spec().ids() == old(self).world_spec().ids(),
            final(self).world_spec().entities().len() == old(self).world_spec().entities().len(),
            forall|i: int|
                0 <= i < old(self).world_spec().entities().len() ==> #[trigger] final(self).world_spec().entities()[i]
                    == ticked(old(self).world_spec().entities()[i], time_delta),
            final(self).frame_spec().shows(final(self).world_spec().entities()),
    {
        let dt = DeltaTime(time_delta);
        update_motion(&mut self.world, dt);
        update_bouncers(&mut self.world, dt);
        self.render_frame.snapshot_world(&self.world);
    }

    /// The number of rows of the current frame.
    pub fn get_render_size(&self) -> (r: usize)
        ensures
            r == self.frame_spec().size_spec(),
    {
        self.render_frame.size()
    }

    /// The asset code of each row of the current frame.
    pub fn get_render_asset_ids(&self) -> (r: &[u8])
        ensures
            r@ == self.frame_spec().asset_column(),
    {
        self.render_frame.asset_ids()
    }

    /// The x coordinate of each row of the current frame.
    pub fn get_render_pos_x(&self) -> (r: &[i64])
        ensures
            r@ == self.frame_spec().x_column(),
    {
        self.render_frame.pos_x()
    }

    /// The y coordinate of each row of the current frame.
    pub fn get_render_pos_y(&self) -> (r: &[i64])
        ensures
            r@ == self.frame_spec().y_column(),
    {
        self.render_frame.pos_y()
    }

    /// The orientation of each row of the current frame.
    pub fn get_render_orientation(&self) -> (r: &[i64])
        ensures
            r@ == self.frame_spec().orientation_column(),
    {
        self.render_frame.orientation()
    }

    /// The host's lifecycle hooks: the game keeps no state for them.
    pub fn start(&self) {
    }

    pub fn stop(&self) {
    }

    pub fn pause(&self) {
    }

    pub fn resume(&self) {
    }
}

} // verus!
