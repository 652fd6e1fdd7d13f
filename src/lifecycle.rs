use vstd::prelude::*;

use crate::world::kept;
use crate::world::Entity;
use crate::world::World;
use crate::DeltaTime;

verus! {

/// How long an entity has left before it is removed, in milliseconds.
#[derive(Copy, Clone, Debug, PartialEq, Eq, Structural)]
pub struct TimeToLive(pub u64);

/// A cooldown that gates a periodic action: the time left until the action
/// is due, and the full period that it restarts from, in milliseconds.
#[derive(Copy, Clone, Debug, PartialEq, Eq, Structural)]
pub struct Recover {
    pub remaining: u64,
    pub period: u64,
}

/// Fires periodically, gated by its cooldown.
#[derive(Copy, Clone, Debug, PartialEq, Eq, Structural)]
pub struct Shoot {
    pub recover: Recover,
}

/// The cooldown after `dt` more milliseconds, and whether the action fires:
/// it fires when the time left reaches zero, and the cooldown restarts.
pub open spec fn recover_step(r: Recover, dt: u64) -> (Recover, bool) {
    if r.remaining <= dt {
        (Recover { remaining: r.period, ..r }, true)
    } else {
        (Recover { remaining: (r.remaining - dt) as u64, ..r }, false)
    }
}

/// The sum of the durations of `dts`.
pub open spec fn total(dts: Seq<u64>) -> nat
    decreases dts.len(),
{
    if dts.len() == 0 {
        0
    } else {
        total(dts.drop_last()) + dts.last() as nat
    }
}

/// The cooldown after a step of each duration of `dts`, and how many of
/// those steps fired.
pub open spec fn recover_run(r: Recover, dts: Seq<u64>) -> (Recover, nat)
    decreases dts.len(),
{
    if dts.len() == 0 {
        (r, 0)
    } else {
        let before = recover_run(r, dts.drop_last());
        let step = recover_step(before.0, dts.last());
        (step.0, before.1 + if step.1 {
            1nat
        } else {
            0nat
        })
    }
}

impl Recover {
    /// A cooldown that first fires one full `period` from now.
    pub fn new(period: u64) -> (r: Recover)
        ensures
            r == (Recover { remaining: period, period }),
    {
        Recover { remaining: period, period }
    }

    /// Lets `dt` milliseconds pass. Returns whether the action is due now;
    /// when it is, the cooldown restarts from the full period.
    pub fn action(&mut self, dt: u64) -> (fired: bool)
        ensures
            (*final(self), fired) == recover_step(*old(self), dt),
    {
        let left = self.remaining.saturating_sub(dt);
        if left == 0 {
            self.remaining = self.period;
            true
        } else {
            self.remaining = left;
            false
        }
    }
}

/// A step of no time on a cooldown that is not yet due changes nothing and
/// does not fire, however often it is repeated.
pub proof fn lemma_zero_step_is_idle(r: Recover)
    requires
        r.remaining > 0,
    ensures
        recover_step(r, 0) == (r, false),
{
}

/// While less time has passed in all than the cooldown had left, no step
/// fires, and the time left shrinks by exactly the time that passed.
pub proof fn lemma_no_fire_before_due(r: Recover, dts: Seq<u64>)
    requires
        total(dts) < r.remaining,
    ensures
        recover_run(r, dts).1 == 0,
        recover_run(r, dts).0 == (Recover { remaining: (r.remaining - total(dts)) as u64, ..r }),
    decreases dts.len(),
{
    if dts.len() > 0 {
        lemma_no_fire_before_due(r, dts.drop_last());
    }
}

/// The step that brings the time passed up to what the cooldown had left
/// fires, once, and restarts the cooldown from the full period.
pub proof fn lemma_fires_once_when_due(r: Recover, dts: Seq<u64>, dt: u64)
    requires
        total(dts) < r.remaining,
        r.remaining <= total(dts) + dt,
    ensures
        recover_run(r, dts.push(dt)).1 == 1,
        recover_run(r, dts.push(dt)).0 == (Recover { remaining: r.period, ..r }),
{
    lemma_no_fire_before_due(r, dts);
    assert(dts.push(dt).drop_last() =~= dts);
}

/// The entity after `dt` more milliseconds: its time to live, if it has one,
/// shrinks by `dt` and stops at zero.
pub open spec fn aged(e: Entity, dt: u64) -> Entity {
    match e.time_to_live {
        Some(TimeToLive(t)) => Entity {
            time_to_live: Some(TimeToLive(if t > dt { (t - dt) as u64 } else { 0 })),
            ..e
        },
        None => e,
    }
}

/// The entity's time to live runs out within `dt` more milliseconds.
pub open spec fn expires(e: Entity, dt: u64) -> bool {
    match e.time_to_live {
        Some(TimeToLive(t)) => t <= dt,
        None => false,
    }
}

/// The identities and entities, place for place, that outlive `dt` more
/// milliseconds, each aged by `dt`, in their order.
pub open spec fn outlive(ids: Seq<u64>, ents: Seq<Entity>, dt: u64) -> (Seq<u64>, Seq<Entity>)
    decreases ids.len(),
{
    if ids.len() == 0 || ents.len() == 0 {
        (Seq::empty(), Seq::empty())
    } else {
        let rest = outlive(ids.drop_last(), ents.drop_last(), dt);
        if expires(ents.last(), dt) {
            rest
        } else {
            (rest.0.push(ids.last()), rest.1.push(aged(ents.last(), dt)))
        }
    }
}

proof fn lemma_kept_is_outlive(
    ids: Seq<u64>,
    ents: Seq<Entity>,
    now: Seq<Entity>,
    gone: Seq<u64>,
    dt: u64,
)
    requires
        ids.len() == ents.len(),
        now.len() == ents.len(),
        forall|j: int| 0 <= j < ents.len() ==> #[trigger] now[j] == aged(ents[j], dt),
        forall|j: int| 0 <= j < ids.len() ==> (gone.contains(#[trigger] ids[j]) <==> expires(ents[j], dt)),
    ensures
        kept(ids, now, gone) == outlive(ids, ents, dt),
    decreases ids.len(),
{
    if ids.len() > 0 {
        let n = ids.len() - 1;
        assert(gone.contains(ids[n]) <==> expires(ents[n], dt));
        lemma_kept_is_outlive(ids.drop_last(), ents.drop_last(), now.drop_last(), gone, dt);
    }
}

proof fn lemma_outlive_from(ids: Seq<u64>, ents: Seq<Entity>, dt: u64, x: u64)
    requires
        outlive(ids, ents, dt).0.contains(x),
    ensures
        ids.contains(x),
    decreases ids.len(),
{
    if ids.len() > 0 && ents.len() > 0 {
        let rest = outlive(ids.drop_last(), ents.drop_last(), dt);
        if rest.0.contains(x) {
            lemma_outlive_from(ids.drop_last(), ents.drop_last(), dt, x);
            let k = choose|k: int| 0 <= k < ids.drop_last().len() && ids.drop_last()[k] == x;
            assert(ids[k] == x);
        } else {
            assert(ids[ids.len() - 1] == x);
        }
    }
}

/// Where identities are distinct and increasing, the entity at place `i`
/// is gone after its time to live runs out, and is still there, aged, when
/// it does not run out.
pub proof fn lemma_expired_entity_is_gone(ids: Seq<u64>, ents: Seq<Entity>, dt: u64, i: int)
    requires
        ids.len() == ents.len(),
        0 <= i < ids.len(),
        forall|a: int, b: int| 0 <= a < b < ids.len() ==> #[trigger] ids[a] < #[trigger] ids[b],
    ensures
        expires(ents[i], dt) <==> !outlive(ids, ents, dt).0.contains(ids[i]),
    decreases ids.len(),
{
    let n = ids.len() - 1;
    let rest = outlive(ids.drop_last(), ents.drop_last(), dt);
    let all = outlive(ids, ents, dt);
    if rest.0.contains(ids[n]) {
        lemma_outlive_from(ids.drop_last(), ents.drop_last(), dt, ids[n]);
        let k = choose|k: int| 0 <= k < ids.drop_last().len() && ids.drop_last()[k] == ids[n];
        assert(ids[k] < ids[n]);
    }
    if !expires(ents[n], dt) {
        assert(all.0 == rest.0.push(ids[n]));
        assert(all.0[rest.0.len() as int] == ids[n]);
    }
    if i < n {
        lemma_expired_entity_is_gone(ids.drop_last(), ents.drop_last(), dt, i);
        assert(ids[i] < ids[n]);
        assert(ids.drop_last()[i] == ids[i]);
        if !expires(ents[n], dt) {
            if rest.0.contains(ids[i]) {
                let k = choose|k: int| 0 <= k < rest.0.len() && rest.0[k] == ids[i];
                assert(all.0[k] == ids[i]);
            }
            if all.0.contains(ids[i]) {
                let k = choose|k: int| 0 <= k < all.0.len() && all.0[k] == ids[i];
                assert(rest.0[k] == ids[i]);
            }
        }
    } else {
        if expires(ents[n], dt) {
            assert(!rest.0.contains(ids[n]));
        }
    }
}

/// Counts down every time to live by `dt` (stopping at zero) and removes,
/// in the same tick, each entity whose time runs out.
pub fn update_time_to_live(world: &mut World, dt: DeltaTime)
    requires
        old(world).wf(),
    ensures
        final(world).wf(),
        (final(world).ids(), final(world).entities()) == outlive(
            old(world).ids(),
            old(world).entities(),
            dt.0 as u64,
        ),
        final(world).next_id() == old(world).next_id(),
{
    let n = world.len();
    let ghost ids = world.ids();
    let ghost ents = world.entities();
    let step = dt.0 as u64;
    let mut gone: Vec<u64> = Vec::new();
    let mut i: usize = 0;
    while i < n
        invariant
            n == ents.len(),
            ids == world.ids(),
            ids.len() == n,
            world.inv(),
            world.next_id() == old(world).next_id(),
            ents == old(world).entities(),
            ids == old(world).ids(),
            old(world).wf(),
            world.entities().len() == n,
            i <= n,
            forall|j: int| 0 <= j < i ==> #[trigger] world.entities()[j] == aged(ents[j], step),
            forall|j: int| i <= j < n ==> #[trigger] world.entities()[j] == ents[j],
            forall|j: int|
                0 <= j < n ==> (gone@.contains(#[trigger] ids[j]) <==> (j < i && expires(ents[j], step))),
        decreases n - i,
    {
        let mut e = world.get(i);
        let id = world.id_at(i);
        let ghost before = gone@;
        match e.time_to_live {
            Some(t) => {
                let left = t.0.saturating_sub(step);
                e.time_to_live = Some(TimeToLive(left));
                if left == 0 {
                    proof {
                        assert forall|j: int| 0 <= j < n && j != i implies #[trigger] ids[j] != id by {
                            if j < i {
                                assert(ids[j] < ids[i as int]);
                            } else {
                                assert(ids[i as int] < ids[j]);
                            }
                        }
                    }
                    gone.push(id);
                }
            },
            None => {},
        }
        proof {
            assert forall|j: int|
                0 <= j < n implies (gone@.contains(#[trigger] ids[j]) <==> (j < i + 1 && expires(
                ents[j],
                step,
            ))) by {
                if j != i {
                    if j < i {
                        assert(ids[j] < ids[i as int]);
                    } else {
                        assert(ids[i as int] < ids[j]);
                    }
                    if gone@.contains(ids[j]) {
                        let k = choose|k: int| 0 <= k < gone@.len() && gone@[k] == ids[j];
                        assert(before[k] == ids[j]);
                    }
                    if before.contains(ids[j]) {
                        let k = choose|k: int| 0 <= k < before.len() && before[k] == ids[j];
                        assert(gone@[k] == ids[j]);
                    }
                } else {
                    if gone@ != before {
                        assert(gone@[before.len() as int] == id);
                    } else {
                        assert(!before.contains(ids[j]));
                    }
                }
            }
        }
        world.set(i, e);
        i = i + 1;
    }
    proof {
        assert forall|j: int| 0 <= j < n implies #[trigger] world.entities()[j].wf() by {
            assert(ents[j].wf());
        }
        lemma_kept_is_outlive(ids, ents, world.entities(), gone@, step);
    }
    world.remove(&gone);
}

} // verus!
