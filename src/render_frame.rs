use vstd::prelude::*;

use crate::sprite::asset_code;
use crate::sprite::assetid_as_u8;
use crate::motion::Orientation;
use crate::motion::Position;
use crate::motion::Vec2;
use crate::world::Entity;
use crate::world::World;

verus! {

/// An entity is drawn when it has a position, an orientation and a sprite.
pub open spec fn renderable(e: Entity) -> bool {
    e.position.is_some() && e.orientation.is_some() && e.sprite.is_some()
}

/// The renderable entities of `s`, in the order of `s`.
pub open spec fn renderables(s: Seq<Entity>) -> Seq<Entity>
    decreases s.len(),
{
    if s.len() == 0 {
        Seq::empty()
    } else {
        let rest = renderables(s.drop_last());
        if renderable(s.last()) {
            rest.push(s.last())
        } else {
            rest
        }
    }
}

/// The position of an entity that has one.
pub open spec fn spot_of(e: Entity) -> Vec2 {
    match e.position {
        Some(Position(p)) => p,
        None => Vec2 { x: 0, y: 0 },
    }
}

/// The orientation of an entity that has one.
pub open spec fn angle_of(e: Entity) -> i64 {
    match e.orientation {
        Some(Orientation(a)) => a,
        None => 0,
    }
}

/// The number of renderable entities of `s`.
pub open spec fn renderable_count(s: Seq<Entity>) -> nat {
    renderables(s).len()
}

/// The capacity after a snapshot of `needed` rows: twice what is needed once
/// the old capacity is exceeded, held at the largest `usize`.
pub open spec fn grown_capacity(capacity: usize, needed: nat) -> usize {
    if needed <= capacity {
        capacity
    } else if needed * 2 <= usize::MAX {
        (needed * 2) as usize
    } else {
        usize::MAX
    }
}

/// A column-oriented readout of the renderable entities of a world: one row
/// per entity, with its asset code, position and orientation.
pub struct RenderFrame {
    capacity: usize,
    size: usize,
    asset_id: Vec<u8>,
    pos_x: Vec<i64>,
    pos_y: Vec<i64>,
    orientation: Vec<i64>,
}

impl RenderFrame {
    pub closed spec fn capacity_spec(&self) -> usize {
        self.capacity
    }

    pub closed spec fn size_spec(&self) -> usize {
        self.size
    }

    pub closed spec fn asset_column(&self) -> Seq<u8> {
        self.asset_id@
    }

    pub closed spec fn x_column(&self) -> Seq<i64> {
        self.pos_x@
    }

    pub closed spec fn y_column(&self) -> Seq<i64> {
        self.pos_y@
    }

    pub closed spec fn orientation_column(&self) -> Seq<i64> {
        self.orientation@
    }

    /// The four columns have one length.
    pub open spec fn wf(&self) -> bool {
        &&& self.x_column().len() == self.asset_column().len()
        &&& self.y_column().len() == self.asset_column().len()
        &&& self.orientation_column().len() == self.asset_column().len()
    }

    /// The frame holds exactly the renderable entities of `s`, in order.
    pub open spec fn shows(&self, s: Seq<Entity>) -> bool {
        let rows = renderables(s);
        &&& self.wf()
        &&& self.size_spec() == rows.len()
        &&& self.asset_column().len() == rows.len()
        &&& forall|k: int|
            0 <= k < rows.len() ==> {
                &&& #[trigger] self.asset_column()[k] == asset_code(rows[k].sprite->0.asset_id)
                &&& self.x_column()[k] == spot_of(rows[k]).x
                &&& self.y_column()[k] == spot_of(rows[k]).y
                &&& self.orientation_column()[k] == angle_of(rows[k])
            }
    }

    /// An empty frame that expects up to `capacity` rows.
    pub fn new(capacity: usize) -> (r: RenderFrame)
        ensures
            r.wf(),
            r.capacity_spec() == capacity,
            r.size_spec() == 0,
            r.asset_column().len() == 0,
    {
        RenderFrame {
            capacity,
            size: 0,
            asset_id: Vec::with_capacity(capacity),
            pos_x: Vec::with_capacity(capacity),
            pos_y: Vec::with_capacity(capacity),
            orientation: Vec::with_capacity(capacity),
        }
    }

    /// How many rows the frame expects before it grows.
    pub fn capacity(&self) -> (r: usize)
        ensures
            r == self.capacity_spec(),
    {
        self.capacity
    }

    /// Sets the capacity and brings every column to that length, keeping the
    /// rows that fit and filling the rest with zeros.
    pub fn resize(&mut self, capacity: usize)
        requires
            old(self).wf(),
        ensures
            final(self).wf(),
            final(self).capacity_spec() == capacity,
            final(self).size_spec() == old(self).size_spec(),
            final(self).asset_column().len() == capacity,
            capacity <= old(self).asset_column().len() ==> {
                &&& final(self).asset_column() == old(self).asset_column().subrange(0, capacity as int)
                &&& final(self).x_column() == old(self).x_column().subrange(0, capacity as int)
                &&& final(self).y_column() == old(self).y_column().subrange(0, capacity as int)
                &&& final(self).orientation_column() == old(self).orientation_column().subrange(
                    0,
                    capacity as int,
                )
            },
            capacity > old(self).asset_column().len() ==> {
                let n = old(self).asset_column().len() as int;
                &&& final(self).asset_column().subrange(0, n) == old(self).asset_column()
                &&& final(self).x_column().subrange(0, n) == old(self).x_column()
                &&& final(self).y_column().subrange(0, n) == old(self).y_column()
                &&& final(self).orientation_column().subrange(0, n) == old(self).orientation_column()
                &&& forall|i: int|
                    n <= i < capacity ==> {
                        &&& #[trigger] final(self).asset_column()[i] == 0
                        &&& final(self).x_column()[i] == 0
                        &&& final(self).y_column()[i] == 0
                        &&& final(self).orientation_column()[i] == 0
                    }
            },
    {
        self.capacity = capacity;
        self.asset_id.resize(capacity, 0);
        self.pos_x.resize(capacity, 0);
        self.pos_y.resize(capacity, 0);
        self.orientation.resize(capacity, 0);
    }

    /// Empties every column; the capacity and the size stay.
    pub fn clear(&mut self)
        ensures
            final(self).wf(),
            final(self).capacity_spec() == old(self).capacity_spec(),
            final(self).size_spec() == old(self).size_spec(),
            final(self).asset_column().len() == 0,
    {
        self.asset_id.clear();
        self.pos_x.clear();
        self.pos_y.clear();
        self.orientation.clear();
    }

    /// Replaces the contents with one row per renderable entity of `world`,
    /// in the world's order, after growing the capacity where it is exceeded.
    pub fn snapshot_world(&mut self, world: &World)
        requires
            old(self).wf(),
            world.inv(),
        ensures
            final(self).shows(world.entities()),
            final(self).capacity_spec() == grown_capacity(
                old(self).capacity_spec(),
                renderable_count(world.entities()),
            ),
            final(self).capacity_spec() >= final(self).size_spec(),
    {
        let n = world.len();
        let ghost s = world.entities();
        let mut needed: usize = 0;
        let mut i: usize = 0;
        while i < n
            invariant
                n == s.len(),
                s == world.entities(),
                i <= n,
                needed == renderable_count(s.take(i as int)),
                needed <= i,
            decreases n - i,
        {
            let e = world.get(i);
            proof {
                assert(s.take(i + 1).drop_last() =~= s.take(i as int));
            }
            if e.position.is_some() && e.orientation.is_some() && e.sprite.is_some() {
                needed = needed + 1;
            }
            i = i + 1;
        }
        proof {
            assert(s.take(n as int) =~= s);
        }
        if needed > self.capacity {
            let grown = if needed <= usize::MAX / 2 {
                needed * 2
            } else {
                usize::MAX
            };
            self.resize(grown);
        }
        self.clear();
        self.size = 0;
        proof {
            assert(s.take(0) =~= Seq::<Entity>::empty());
        }
        let mut i: usize = 0;
        while i < n
            invariant
                n == s.len(),
                s == world.entities(),
                i <= n,
                self.wf(),
                self.capacity == grown_capacity(old(self).capacity, renderable_count(s)),
                self.size <= i,
                self.shows(s.take(i as int)),
            decreases n - i,
        {
            let e = world.get(i);
            proof {
                assert(s.take(i + 1).drop_last() =~= s.take(i as int));
            }
            let ghost rows = renderables(s.take(i as int));
            let ghost before = *self;
            match (e.position, e.orientation, e.sprite) {
                (Some(p), Some(o), Some(sp)) => {
                    self.asset_id.push(assetid_as_u8(sp.asset_id));
                    self.pos_x.push(p.0.x);
                    self.pos_y.push(p.0.y);
                    self.orientation.push(o.0);
                    self.size = self.size + 1;
                    proof {
                        let next = rows.push(e);
                        assert(renderables(s.take(i + 1)) == next);
                        assert forall|k: int| 0 <= k < next.len() implies {
                            &&& #[trigger] self.asset_column()[k] == asset_code(next[k].sprite->0.asset_id)
                            &&& self.x_column()[k] == spot_of(next[k]).x
                            &&& self.y_column()[k] == spot_of(next[k]).y
                            &&& self.orientation_column()[k] == angle_of(next[k])
                        } by {
                            if k < rows.len() {
                                assert(next[k] == rows[k]);
                                assert(before.asset_column()[k] == asset_code(rows[k].sprite->0.asset_id));
                                assert(self.asset_column()[k] == before.asset_column()[k]);
                                assert(self.x_column()[k] == before.x_column()[k]);
                                assert(self.y_column()[k] == before.y_column()[k]);
                                assert(self.orientation_column()[k] == before.orientation_column()[k]);
                            } else {
                                assert(next[k] == e);
                            }
                        }
                    }
                },
                _ => {
                    proof {
                        assert(renderables(s.take(i + 1)) == rows);
                    }
                },
            }
            i = i + 1;
        }
        proof {
            assert(s.take(n as int) =~= s);
        }
    }

    /// The number of rows of the last snapshot.
    pub fn size(&self) -> (r: usize)
        ensures
            r == self.size_spec(),
    {
        self.size
    }

    /// The asset code of each row.
    pub fn asset_ids(&self) -> (r: &[u8])
        ensures
            r@ == self.asset_column(),
    {
        self.asset_id.as_slice()
    }

    /// The x coordinate of each row.
    pub fn pos_x(&self) -> (r: &[i64])
        ensures
            r@ == self.x_column(),
    {
        self.pos_x.as_slice()
    }

    /// The y coordinate of each row.
    pub fn pos_y(&self) -> (r: &[i64])
        ensures
            r@ == self.y_column(),
    {
        self.pos_y.as_slice()
    }

    /// The orientation of each row.
    pub fn orientation(&self) -> (r: &[i64])
        ensures
            r@ == self.orientation_column(),
    {
        self.orientation.as_slice()
    }
}

} // verus!
