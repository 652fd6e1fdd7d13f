use vstd::prelude::*;

use crate::bouncer::Bouncer;
use crate::motion::FULL_TURN;
use crate::motion::Orientation;
use crate::motion::Position;
use crate::motion::Rotation;
use crate::motion::Velocity;
use crate::combat::Damage;
use crate::combat::Enemy;
use crate::combat::Explosion;
use crate::combat::Projectile;
use crate::lifecycle::Shoot;
use crate::lifecycle::TimeToLive;
use crate::navigation::Flip;
use crate::navigation::MoveTowards;
use crate::navigation::Speed;
use crate::sprite::Sprite;

verus! {

/// The components of one entity. The set of components that an entity has is
/// fixed when it is appended; their values change from tick to tick.
#[derive(Copy, Clone, Debug)]
pub struct Entity {
    pub position: Option<Position>,
    pub velocity: Option<Velocity>,
    pub orientation: Option<Orientation>,
    pub rotation: Option<Rotation>,
    pub bouncer: Option<Bouncer>,
    pub sprite: Option<Sprite>,
    pub time_to_live: Option<TimeToLive>,
    pub enemy: Option<Enemy>,
    pub damage: Option<Damage>,
    pub explosion: Option<Explosion>,
    pub projectile: Option<Projectile>,
    pub move_towards: Option<MoveTowards>,
    pub speed: Option<Speed>,
    pub flip: Option<Flip>,
    pub shoot: Option<Shoot>,
}

impl Entity {
    /// An orientation, where there is one, lies in `[0, FULL_TURN)`.
    pub open spec fn wf(&self) -> bool {
        match self.orientation {
            Some(o) => 0 <= o.0 < FULL_TURN,
            None => true,
        }
    }
}

/// Every entity of the sequence is well formed.
pub open spec fn all_wf(s: Seq<Entity>) -> bool {
    forall|i: int| 0 <= i < s.len() ==> #[trigger] s[i].wf()
}

/// The `n` identities handed out from `start` on, in order.
pub open spec fn fresh_ids(start: u64, n: nat) -> Seq<u64> {
    Seq::new(n, |k: int| (start + k) as u64)
}

/// The identities and entities of `ids` and `ents`, place for place, whose
/// identity is not in `gone`, in their order.
pub open spec fn kept(ids: Seq<u64>, ents: Seq<Entity>, gone: Seq<u64>) -> (Seq<u64>, Seq<Entity>)
    decreases ids.len(),
{
    if ids.len() == 0 || ents.len() == 0 {
        (Seq::empty(), Seq::empty())
    } else {
        let rest = kept(ids.drop_last(), ents.drop_last(), gone);
        if gone.contains(ids.last()) {
            rest
        } else {
            (rest.0.push(ids.last()), rest.1.push(ents.last()))
        }
    }
}

/// The identities and entities, place for place, whose flag is not set, in
/// their order.
pub open spec fn unflagged(ids: Seq<u64>, ents: Seq<Entity>, flags: Seq<bool>) -> (Seq<u64>, Seq<Entity>)
    decreases ids.len(),
{
    if ids.len() == 0 || ents.len() == 0 || flags.len() == 0 {
        (Seq::empty(), Seq::empty())
    } else {
        let rest = unflagged(ids.drop_last(), ents.drop_last(), flags.drop_last());
        if flags.last() {
            rest
        } else {
            (rest.0.push(ids.last()), rest.1.push(ents.last()))
        }
    }
}

proof fn lemma_unflagged_from(ids: Seq<u64>, ents: Seq<Entity>, flags: Seq<bool>, x: u64)
    requires
        unflagged(ids, ents, flags).0.contains(x),
    ensures
        ids.contains(x),
    decreases ids.len(),
{
    if ids.len() > 0 && ents.len() > 0 && flags.len() > 0 {
        let rest = unflagged(ids.drop_last(), ents.drop_last(), flags.drop_last());
        if rest.0.contains(x) {
            lemma_unflagged_from(ids.drop_last(), ents.drop_last(), flags.drop_last(), x);
            let k = choose|k: int| 0 <= k < ids.drop_last().len() && ids.drop_last()[k] == x;
            assert(ids[k] == x);
        } else {
            assert(ids[ids.len() - 1] == x);
        }
    }
}

/// Where identities are increasing, the entity at place `i` is absent
/// after the flagged entities are removed exactly when its flag is set.
pub proof fn lemma_flagged_is_gone(ids: Seq<u64>, ents: Seq<Entity>, flags: Seq<bool>, i: int)
    requires
        ids.len() == ents.len(),
        flags.len() == ents.len(),
        0 <= i < ids.len(),
        forall|a: int, b: int| 0 <= a < b < ids.len() ==> #[trigger] ids[a] < #[trigger] ids[b],
    ensures
        flags[i] <==> !unflagged(ids, ents, flags).0.contains(ids[i]),
    decreases ids.len(),
{
    let n = ids.len() - 1;
    let rest = unflagged(ids.drop_last(), ents.drop_last(), flags.drop_last());
    let all = unflagged(ids, ents, flags);
    if rest.0.contains(ids[n]) {
        lemma_unflagged_from(ids.drop_last(), ents.drop_last(), flags.drop_last(), ids[n]);
        let k = choose|k: int| 0 <= k < ids.drop_last().len() && ids.drop_last()[k] == ids[n];
        assert(ids[k] < ids[n]);
    }
    if !flags[n] {
        assert(all.0 == rest.0.push(ids[n]));
        assert(all.0[rest.0.len() as int] == ids[n]);
    }
    if i < n {
        lemma_flagged_is_gone(ids.drop_last(), ents.drop_last(), flags.drop_last(), i);
        assert(ids[i] < ids[n]);
        assert(ids.drop_last()[i] == ids[i]);
        if !flags[n] {
            if rest.0.contains(ids[i]) {
                let k = choose|k: int| 0 <= k < rest.0.len() && rest.0[k] == ids[i];
                assert(all.0[k] == ids[i]);
            }
            if all.0.contains(ids[i]) {
                let k = choose|k: int| 0 <= k < all.0.len() && all.0[k] == ids[i];
                assert(rest.0[k] == ids[i]);
            }
        }
    }
}

fn contains_id(v: &Vec<u64>, id: u64) -> (r: bool)
    ensures
        r == v@.contains(id),
{
    let mut i: usize = 0;
    while i < v.len()
        invariant
            i <= v@.len(),
            forall|j: int| 0 <= j < i ==> v@[j] != id,
        decreases v@.len() - i,
    {
        if v[i] == id {
            return true;
        }
        i = i + 1;
    }
    false
}

/// The entity store: each entity is an identity with its components.
/// Identities are handed out in increasing order and never reused.
pub struct World {
    ids: Vec<u64>,
    entities: Vec<Entity>,
    next_id: u64,
}

impl World {
    /// The entities, in iteration order.
    pub closed spec fn entities(&self) -> Seq<Entity> {
        self.entities@
    }

    /// The identity of each entity, position for position.
    pub closed spec fn ids(&self) -> Seq<u64> {
        self.ids@
    }

    /// The identity that the next appended entity receives.
    pub closed spec fn next_id(&self) -> u64 {
        self.next_id
    }

    /// One identity per entity, strictly increasing, all below `next_id`.
    pub open spec fn inv(&self) -> bool {
        &&& self.ids().len() == self.entities().len()
        &&& forall|a: int, b: int|
            0 <= a < b < self.ids().len() ==> #[trigger] self.ids()[a] < #[trigger] self.ids()[b]
        &&& forall|a: int| 0 <= a < self.ids().len() ==> #[trigger] self.ids()[a] < self.next_id()
    }

    pub open spec fn wf(&self) -> bool {
        self.inv() && all_wf(self.entities())
    }

    /// An empty world.
    pub fn new() -> (w: World)
        ensures
            w.wf(),
            w.entities() == Seq::<Entity>::empty(),
            w.next_id() == 0,
    {
        World { ids: Vec::new(), entities: Vec::new(), next_id: 0 }
    }

    /// The number of entities.
    pub fn len(&self) -> (r: usize)
        requires
            self.inv(),
        ensures
            r == self.entities().len(),
    {
        self.entities.len()
    }

    /// The identity that the next appended entity receives.
    pub fn next_id_value(&self) -> (r: u64)
        ensures
            r == self.next_id(),
    {
        self.next_id
    }

    /// The components of the entity at place `i`.
    pub fn get(&self, i: usize) -> (r: Entity)
        requires
            i < self.entities().len(),
        ensures
            r == self.entities()[i as int],
    {
        self.entities[i]
    }

    /// The identity of the entity at place `i`.
    pub fn id_at(&self, i: usize) -> (r: u64)
        requires
            self.inv(),
            i < self.entities().len(),
        ensures
            r == self.ids()[i as int],
    {
        self.ids[i]
    }

    /// Replaces the component values of the entity at place `i`.
    pub fn set(&mut self, i: usize, e: Entity)
        requires
            old(self).inv(),
            i < old(self).entities().len(),
        ensures
            final(self).inv(),
            final(self).entities() == old(self).entities().update(i as int, e),
            final(self).ids() == old(self).ids(),
            final(self).next_id() == old(self).next_id(),
    {
        self.entities[i] = e;
    }

    /// Adds each entity of `batch` as a new entity, in order, each with the
    /// next fresh identity. The new entities are visible to every later scan.
    pub fn append_components(&mut self, batch: Vec<Entity>)
        requires
            old(self).wf(),
            all_wf(batch@),
            old(self).next_id() + batch@.len() <= u64::MAX,
        ensures
            final(self).wf(),
            final(self).entities() == old(self).entities() + batch@,
            final(self).ids().len() == old(self).ids().len() + batch@.len(),
            final(self).ids().subrange(0, old(self).ids().len() as int) == old(self).ids(),
            forall|k: int|
                0 <= k < batch@.len() ==> #[trigger] final(self).ids()[old(self).ids().len() + k]
                    == old(self).next_id() + k,
            final(self).next_id() == old(self).next_id() + batch@.len(),
            final(self).ids() == old(self).ids() + fresh_ids(old(self).next_id(), batch@.len()),
    {
        let n = batch.len();
        let mut i: usize = 0;
        while i < n
            invariant
                n == batch@.len(),
                i <= n,
                self.inv(),
                all_wf(self.entities()),
                all_wf(batch@),
                self.entities() == old(self).entities() + batch@.take(i as int),
                self.ids().len() == old(self).ids().len() + i,
                self.ids().subrange(0, old(self).ids().len() as int) == old(self).ids(),
                forall|k: int|
                    0 <= k < i ==> #[trigger] self.ids()[old(self).ids().len() + k]
                        == old(self).next_id() + k,
                self.next_id() == old(self).next_id() + i,
                old(self).next_id() + n <= u64::MAX,
            decreases n - i,
        {
            let e = batch[i];
            proof {
                assert(batch@.take(i + 1) =~= batch@.take(i as int).push(e));
            }
            self.entities.push(e);
            self.ids.push(self.next_id);
            self.next_id = self.next_id + 1;
            i = i + 1;
            proof {
                assert(self.ids().subrange(0, old(self).ids().len() as int) =~= old(self).ids());
            }
        }
        proof {
            assert(batch@.take(n as int) =~= batch@);
            assert(self.ids() =~= old(self).ids() + fresh_ids(old(self).next_id(), batch@.len())) by {
                assert forall|k: int| 0 <= k < self.ids().len() implies #[trigger] self.ids()[k] == (
                old(self).ids() + fresh_ids(old(self).next_id(), batch@.len()))[k] by {
                    if k < old(self).ids().len() {
                        assert(self.ids()[k] == self.ids().subrange(0, old(self).ids().len() as int)[k]);
                    } else {
                        let j = k - old(self).ids().len();
                        assert(self.ids()[old(self).ids().len() + j] == old(self).next_id() + j);
                    }
                }
            }
        }
    }

    /// Deletes every entity whose identity is in `gone`; the others keep
    /// their order. An identity that is listed twice, or that no entity has,
    /// changes nothing more.
    pub fn remove(&mut self, gone: &Vec<u64>)
        requires
            old(self).wf(),
        ensures
            final(self).wf(),
            (final(self).ids(), final(self).entities()) == kept(
                old(self).ids(),
                old(self).entities(),
                gone@,
            ),
            final(self).next_id() == old(self).next_id(),
    {
        let n = self.entities.len();
        let ghost ids0 = self.ids@;
        let ghost ents0 = self.entities@;
        let mut ids: Vec<u64> = Vec::new();
        let mut entities: Vec<Entity> = Vec::new();
        let mut i: usize = 0;
        while i < n
            invariant
                n == ids0.len(),
                n == ents0.len(),
                ids0 == self.ids@,
                ents0 == self.entities@,
                self.wf(),
                i <= n,
                (ids@, entities@) == kept(ids0.take(i as int), ents0.take(i as int), gone@),
                ids@.len() == entities@.len(),
                all_wf(entities@),
                forall|a: int, b: int| 0 <= a < b < ids@.len() ==> #[trigger] ids@[a] < #[trigger] ids@[b],
                forall|a: int| 0 <= a < ids@.len() ==> #[trigger] ids@[a] < self.next_id,
                i < n ==> forall|a: int| 0 <= a < ids@.len() ==> #[trigger] ids@[a] < ids0[i as int],
            decreases n - i,
        {
            let id = self.ids[i];
            proof {
                assert(ids0.take(i + 1).drop_last() =~= ids0.take(i as int));
                assert(ents0.take(i + 1).drop_last() =~= ents0.take(i as int));
                assert(self.entities()[i as int].wf());
            }
            if !contains_id(gone, id) {
                ids.push(id);
                entities.push(self.entities[i]);
            }
            proof {
                if i + 1 < n {
                    assert(ids0[i as int] < ids0[i + 1]);
                }
            }
            i = i + 1;
        }
        proof {
            assert(ids0.take(n as int) =~= ids0);
            assert(ents0.take(n as int) =~= ents0);
        }
        self.ids = ids;
        self.entities = entities;
    }

    /// Deletes every entity whose flag is set, place for place; the others
    /// keep their order.
    pub fn remove_flagged(&mut self, flags: &Vec<bool>)
        requires
            old(self).wf(),
            flags@.len() == old(self).entities().len(),
        ensures
            final(self).wf(),
            (final(self).ids(), final(self).entities()) == unflagged(
                old(self).ids(),
                old(self).entities(),
                flags@,
            ),
            final(self).next_id() == old(self).next_id(),
    {
        let n = self.entities.len();
        let ghost ids0 = self.ids@;
        let ghost ents0 = self.entities@;
        let mut ids: Vec<u64> = Vec::new();
        let mut entities: Vec<Entity> = Vec::new();
        let mut i: usize = 0;
        while i < n
            invariant
                n == ids0.len(),
                n == ents0.len(),
                n == flags@.len(),
                ids0 == self.ids@,
                ents0 == self.entities@,
                self.wf(),
                i <= n,
                (ids@, entities@) == unflagged(
                    ids0.take(i as int),
                    ents0.take(i as int),
                    flags@.take(i as int),
                ),
                ids@.len() == entities@.len(),
                all_wf(entities@),
                forall|a: int, b: int| 0 <= a < b < ids@.len() ==> #[trigger] ids@[a] < #[trigger] ids@[b],
                forall|a: int| 0 <= a < ids@.len() ==> #[trigger] ids@[a] < self.next_id,
                i < n ==> forall|a: int| 0 <= a < ids@.len() ==> #[trigger] ids@[a] < ids0[i as int],
            decreases n - i,
        {
            let id = self.ids[i];
            proof {
                assert(ids0.take(i + 1).drop_last() =~= ids0.take(i as int));
                assert(ents0.take(i + 1).drop_last() =~= ents0.take(i as int));
                assert(flags@.take(i + 1).drop_last() =~= flags@.take(i as int));
                assert(self.entities()[i as int].wf());
            }
            if !flags[i] {
                ids.push(id);
                entities.push(self.entities[i]);
            }
            proof {
                if i + 1 < n {
                    assert(ids0[i as int] < ids0[i + 1]);
                }
            }
            i = i + 1;
        }
        proof {
            assert(ids0.take(n as int) =~= ids0);
            assert(ents0.take(n as int) =~= ents0);
            assert(flags@.take(n as int) =~= flags@);
        }
        self.ids = ids;
        self.entities = entities;
    }

    /// There are no more entities than identities handed out.
    pub proof fn lemma_len_below_next_id(&self)
        requires
            self.inv(),
        ensures
            self.entities().len() <= self.next_id(),
    {
        let ids = self.ids();
        assert forall|k: int| 0 <= k < ids.len() implies #[trigger] ids[k] >= k by {
            self.lemma_id_at_least(k);
        }
        if ids.len() > 0 {
            assert(ids[ids.len() - 1] >= ids.len() - 1);
        }
    }

    proof fn lemma_id_at_least(&self, k: int)
        requires
            self.inv(),
            0 <= k < self.ids().len(),
        ensures
            self.ids()[k] >= k,
        decreases k,
    {
        if k > 0 {
            self.lemma_id_at_least(k - 1);
            assert(self.ids()[k - 1] < self.ids()[k]);
        }
    }
}

} // verus!
