use vstd::prelude::*;

use crate::combat::blasts;
use crate::combat::burnt_out;
use crate::combat::dead;
use crate::combat::grown;
use crate::combat::landing_flags;
use crate::combat::struck;
use crate::lifecycle::outlive;
use crate::motion::moved;
use crate::shooting::reloaded;
use crate::shooting::volleys;
use crate::spawn::enemy_count;
use crate::spawn::spawned_wave;
use crate::steering::redirected;
use crate::steering::steered;
use crate::world::fresh_ids;
use crate::combat::death_flags;
use crate::combat::lemma_no_dead_survive;
use crate::combat::remove_dead;
use crate::combat::resolve_hits;
use crate::lifecycle::update_time_to_live;
use crate::motion::update_motion;
use crate::random::RandomSource;
use crate::render_frame::RenderFrame;
use crate::shooting::update_shoot;
use crate::spawn::spawn_enemies;
use crate::spawn::spawn_towers;
use crate::spawn::tower;
use crate::spawn::tower_corners;
use crate::steering::move_towards;
use crate::steering::update_destination;
use crate::combat::update_explosions;
use crate::motion::Vec2;
use crate::world::unflagged;
use crate::world::World;
use crate::DeltaTime;

verus! {

/// The capacity of the frame of a new arena.
pub const ARENA_FRAME_CAPACITY: usize = 16;

/// `b` has the identities of `a`, entity for entity.
pub open spec fn same_ids(a: World, b: World) -> bool {
    &&& b.ids() == a.ids()
    &&& b.next_id() == a.next_id()
    &&& b.entities().len() == a.entities().len()
}

/// The spawn check: a world without enemies gains a wave of `wave` fresh
/// enemies at the end, with fresh identities; a world with an enemy stays.
pub open spec fn spawn_step(a: World, b: World, wave: usize) -> bool {
    if enemy_count(a.entities()) > 0 {
        b == a
    } else {
        &&& spawned_wave(a.entities(), b.entities(), wave as nat)
        &&& b.ids() == a.ids() + fresh_ids(a.next_id(), wave as nat)
        &&& b.next_id() == a.next_id() + wave
    }
}

/// Every steering entity travels toward its destination.
pub open spec fn steer_step(a: World, b: World, dt: u32) -> bool {
    &&& same_ids(a, b)
    &&& forall|i: int| 0 <= i < a.entities().len() ==> #[trigger] b.entities()[i] == steered(a.entities()[i], dt)
}

/// Every entity that has arrived gets a destination on the other line.
pub open spec fn redirect_step(a: World, b: World) -> bool {
    &&& same_ids(a, b)
    &&& forall|i: int| 0 <= i < a.entities().len() ==> redirected(a.entities()[i], #[trigger] b.entities()[i])
}

/// Every position moves by its velocity, every orientation turns by its rotation.
pub open spec fn motion_step(a: World, b: World, dt: u32) -> bool {
    &&& same_ids(a, b)
    &&& forall|i: int| 0 <= i < a.entities().len() ==> #[trigger] b.entities()[i] == moved(a.entities()[i], dt)
}

/// Times to live count down; those that run out are removed.
pub open spec fn expire_step(a: World, b: World, dt: u32) -> bool {
    &&& (b.ids(), b.entities()) == outlive(a.ids(), a.entities(), dt as u64)
    &&& b.next_id() == a.next_id()
}

/// Explosions grow; those at their maximum radius are removed.
pub open spec fn explode_step(a: World, b: World, dt: u32) -> bool {
    let s = a.entities();
    let now = Seq::new(s.len(), |i: int| grown(s[i], dt));
    &&& (b.ids(), b.entities()) == unflagged(a.ids(), now, Seq::new(s.len(), |i: int| burnt_out(now[i])))
    &&& b.next_id() == a.next_id()
}

/// Cooldowns count down; each shooter that comes due fires its volley, and
/// the missiles join the world with fresh identities.
pub open spec fn shoot_step(a: World, b: World, dt: u32) -> bool {
    let s = a.entities();
    let shots = volleys(s, dt, s.len());
    &&& b.entities() == Seq::new(s.len(), |i: int| reloaded(s[i], dt)) + shots
    &&& b.ids() == a.ids() + fresh_ids(a.next_id(), shots.len())
    &&& b.next_id() == a.next_id() + shots.len()
}

/// Landing projectiles damage their first target and are removed; each
/// leaves an explosion with a fresh identity.
pub open spec fn hit_step(a: World, b: World) -> bool {
    let s = a.entities();
    let left = unflagged(a.ids(), struck(s, s.len()), landing_flags(s));
    let made = blasts(s, s.len());
    &&& b.entities() == left.1 + made
    &&& b.ids() == left.0 + fresh_ids(a.next_id(), made.len())
    &&& b.next_id() == a.next_id() + made.len()
}

/// Dead enemies are removed.
pub open spec fn death_step(a: World, b: World) -> bool {
    &&& (b.ids(), b.entities()) == unflagged(a.ids(), a.entities(), death_flags(a.entities()))
    &&& b.next_id() == a.next_id()
}

/// One tick through the given intermediate worlds, step by step in order.
pub open spec fn tick_through(
    before: World,
    spawned: World,
    steered_w: World,
    redirected_w: World,
    moved_w: World,
    expired: World,
    exploded: World,
    shot: World,
    hit: World,
    after: World,
    dt: u32,
    wave: usize,
) -> bool {
    &&& spawn_step(before, spawned, wave)
    &&& steer_step(spawned, steered_w, dt)
    &&& redirect_step(steered_w, redirected_w)
    &&& motion_step(redirected_w, moved_w, dt)
    &&& expire_step(moved_w, expired, dt)
    &&& explode_step(expired, exploded, dt)
    &&& shoot_step(exploded, shot, dt)
    &&& hit_step(shot, hit)
    &&& death_step(hit, after)
}

/// `after` is `before` after one tick of `dt` milliseconds with waves of
/// `wave` enemies. Only the spawn check and the choice of new destinations
/// draw random values; every other step is determined by the world.
pub open spec fn tick(before: World, after: World, dt: u32, wave: usize) -> bool {
    exists|
        spawned: World,
        steered_w: World,
        redirected_w: World,
        moved_w: World,
        expired: World,
        exploded: World,
        shot: World,
        hit: World,
    |
        #[trigger] tick_through(
            before,
            spawned,
            steered_w,
            redirected_w,
            moved_w,
            expired,
            exploded,
            shot,
            hit,
            after,
            dt,
            wave,
        )
}

/// An arena game: towers at the corners fire at waves of enemies that
/// patrol between two lines.
pub struct Arena {
    world: World,
    render_frame: RenderFrame,
    enemies_to_spawn: usize,
}

impl Arena {
    pub closed spec fn world_spec(&self) -> World {
        self.world
    }

    pub closed spec fn frame_spec(&self) -> RenderFrame {
        self.render_frame
    }

    /// How many enemies each wave brings.
    pub closed spec fn wave_size(&self) -> usize {
        self.enemies_to_spawn
    }

    pub open spec fn wf(&self) -> bool {
        self.world_spec().wf() && self.frame_spec().wf()
    }

    /// Enough identities are left for the entities that one tick can add.
    pub open spec fn has_room_spec(&self) -> bool {
        32 * (self.world_spec().next_id() + self.wave_size()) <= u64::MAX
    }

    /// An arena with a tower at each inset corner, no enemies yet, and waves
    /// of `enemies_to_spawn` enemies.
    pub fn new(enemies_to_spawn: usize) -> (a: Arena)
        ensures
            a.wf(),
            a.world_spec().entities() == tower_corners().map_values(|c: Vec2| tower(c)),
            a.wave_size() == enemies_to_spawn,
            a.frame_spec().size_spec() == 0,
    {
        let mut world = World::new();
        spawn_towers(&mut world);
        proof {
            assert(world.entities() =~= tower_corners().map_values(|c: Vec2| tower(c)));
        }
        Arena { world, render_frame: RenderFrame::new(ARENA_FRAME_CAPACITY), enemies_to_spawn }
    }

    /// Whether one more tick can hand out identities to all it adds.
    pub fn has_room(&self) -> (r: bool)
        requires
            self.wf(),
        ensures
            r == self.has_room_spec(),
    {
        let next = self.world.next_id_value();
        let wave = self.enemies_to_spawn as u64;
        next <= u64::MAX / 32 && wave <= u64::MAX / 32 - next
    }

    /// Runs one tick of `time_delta` milliseconds: a wave spawns when no enemy
    /// is left, enemies steer and pick new destinations, everything moves,
    /// timed entities expire, explosions grow, towers fire, projectiles
    /// strike, the dead are removed, and the frame is taken anew.
    pub fn update<R: RandomSource>(&mut self, rng: &mut R, time_delta: u32)
        requires
            old(self).wf(),
            old(self).has_room_spec(),
        ensures
            final(self).wf(),
            final(self).wave_size() == old(self).wave_size(),
            tick(old(self).world_spec(), final(self).world_spec(), time_delta, old(self).wave_size()),
            forall|k: int|
                0 <= k < final(self).world_spec().entities().len() ==> !dead(
                    #[trigger] final(self).world_spec().entities()[k],
                ),
            final(self).frame_spec().shows(final(self).world_spec().entities()),
    {
        let dt = DeltaTime(time_delta);
        let ghost before = self.world;
        let ghost start = self.world.next_id();
        let ghost wave = self.enemies_to_spawn;
        spawn_enemies(&mut self.world, rng, self.enemies_to_spawn);
        let ghost spawned = self.world;
        move_towards(&mut self.world, dt);
        let ghost steered_w = self.world;
        update_destination(&mut self.world, rng);
        let ghost redirected_w = self.world;
        update_motion(&mut self.world, dt);
        let ghost moved_w = self.world;
        update_time_to_live(&mut self.world, dt);
        let ghost expired = self.world;
        update_explosions(&mut self.world, dt);
        let ghost exploded = self.world;
        proof {
            self.world.lemma_len_below_next_id();
            assert(self.world.next_id() <= start + wave);
        }
        update_shoot(&mut self.world, dt);
        let ghost shot = self.world;
        proof {
            self.world.lemma_len_below_next_id();
        }
        resolve_hits(&mut self.world);
        let ghost hit = self.world;
        let ghost ids = self.world.ids();
        let ghost ents = self.world.entities();
        remove_dead(&mut self.world);
        proof {
            lemma_no_dead_survive(ids, ents);
            let left = unflagged(ids, ents, death_flags(ents));
            assert forall|k: int| 0 <= k < self.world.entities().len() implies !dead(
                #[trigger] self.world.entities()[k],
            ) by {
                assert(self.world.entities()[k] == left.1[k]);
            }
            assert(tick_through(
                before,
                spawned,
                steered_w,
                redirected_w,
                moved_w,
                expired,
                exploded,
                shot,
                hit,
                self.world,
                time_delta,
                wave,
            ));
        }
        self.render_frame.snapshot_world(&self.world);
    }

    /// The number of rows of the current frame.
    pub fn get_render_size(&self) -> (r: usize)
        ensures
            r == self.frame_spec().size_spec(),
    {
        self.render_frame.size()
    }

    /// The asset code of each row of the current frame.
    pub fn get_render_asset_ids(&self) -> (r: &[u8])
        ensures
            r@ == self.frame_spec().asset_column(),
    {
        self.render_frame.asset_ids()
    }

    /// The x coordinate of each row of the current frame.
    pub fn get_render_pos_x(&self) -> (r: &[i64])
        ensures
            r@ == self.frame_spec().x_column(),
    {
        self.render_frame.pos_x()
    }

    /// The y coordinate of each row of the current frame.
    pub fn get_render_pos_y(&self) -> (r: &[i64])
        ensures
            r@ == self.frame_spec().y_column(),
    {
        self.render_frame.pos_y()
    }

    /// The orientation of each row of the current frame.
    pub fn get_render_orientation(&self) -> (r: &[i64])
        ensures
            r@ == self.frame_spec().orientation_column(),
    {
        self.render_frame.orientation()
    }

    /// The world as it stands.
    pub fn world(&self) -> (r: &World)
        ensures
            *r == self.world_spec(),
    {
        &self.world
    }
}

} // verus!
