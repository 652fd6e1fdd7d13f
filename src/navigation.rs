use vstd::prelude::*;

use crate::random::RandomSource;
use crate::motion::Vec2;

verus! {

/// The height of the arena, in thousandths of a unit.
pub const ARENA_HEIGHT: i64 = 600_000;

/// The distance kept from the arena's edges.
pub const SIDE_MARGIN: i64 = 50_000;

/// The x coordinate of the right patrol line.
pub const RIGHT_X: i64 = 550_000;

/// The number of waypoints on each patrol line.
pub const WAYPOINT_COUNT: i64 = 10;

/// Which patrol line an entity heads for, and where on it.
#[derive(Copy, Clone, Debug, PartialEq, Eq, Structural)]
pub struct MoveTowards {
    pub destination: Vec2,
    pub side: usize,
}

/// How fast a steering entity travels, in thousandths of a unit per millisecond.
#[derive(Copy, Clone, Debug, PartialEq, Eq, Structural)]
pub struct Speed(pub i64);

/// Which way a steering entity faces.
#[derive(Copy, Clone, Debug, PartialEq, Eq, Structural)]
pub enum Flip {
    Left,
    Right,
}

/// The x coordinate of patrol line `side`: 0 is the left line, 1 the right.
pub open spec fn side_x(side: usize) -> i64 {
    if side == 0 {
        SIDE_MARGIN
    } else {
        RIGHT_X
    }
}

/// Waypoint `k` of line `side`: the waypoints are spaced evenly from the
/// margin down to the arena's height less the margin.
pub open spec fn waypoint(side: usize, k: int) -> Vec2 {
    Vec2 {
        x: side_x(side),
        y: (SIDE_MARGIN + k * (ARENA_HEIGHT - 2 * SIDE_MARGIN) / (WAYPOINT_COUNT - 1)) as i64,
    }
}

/// A destination that lies on one of the waypoints of its own side.
pub open spec fn on_side(m: MoveTowards) -> bool {
    m.side < 2 && exists|k: int| 0 <= k < WAYPOINT_COUNT && m.destination == #[trigger] waypoint(m.side, k)
}

/// Waypoint `k` of line `side`.
pub fn point_on(side: usize, k: i64) -> (r: Vec2)
    requires
        0 <= k < WAYPOINT_COUNT,
    ensures
        r == waypoint(side, k as int),
{
    let x = if side == 0 {
        SIDE_MARGIN
    } else {
        RIGHT_X
    };
    proof {
        assert(0 <= k * 500_000 <= 9 * 500_000) by (nonlinear_arith)
            requires
                0 <= k < 10,
        ;
    }
    Vec2 { x, y: SIDE_MARGIN + k * (ARENA_HEIGHT - 2 * SIDE_MARGIN) / (WAYPOINT_COUNT - 1) }
}

/// A destination drawn by `rng` from the waypoints of the line other than
/// `previous_side`, with that line's index: line 1 after line 0, and line 0
/// after any other.
pub fn get_random_point<R: RandomSource>(rng: &mut R, previous_side: usize) -> (r: MoveTowards)
    ensures
        r.side == (if previous_side == 0 { 1usize } else { 0usize }),
        on_side(r),
{
    let side: usize = if previous_side == 0 {
        1
    } else {
        0
    };
    let k = rng.next_in(0, WAYPOINT_COUNT);
    let destination = point_on(side, k);
    assert(destination == waypoint(side, k as int));
    MoveTowards { destination, side }
}

/// A patrol line drawn by `rng`.
pub fn get_random_side<R: RandomSource>(rng: &mut R) -> (r: usize)
    ensures
        r < 2,
{
    rng.next_in(0, 2) as usize
}

} // verus!
