use vstd::prelude::*;
use vstd::arithmetic::div_mod::lemma_div_is_ordered;
use vstd::arithmetic::div_mod::lemma_div_multiples_vanish;

use crate::motion::Vec2;

verus! {

/// Gaps this wide or wider, on either axis, give no direction.
pub const GAP_LIMIT: i64 = 0x4000_0000_0000_0000;

/// `r` is the integer square root of `n`.
pub open spec fn is_root(n: nat, r: nat) -> bool {
    r * r <= n && n < (r + 1) * (r + 1)
}

/// The integer square root: the largest `r` with `r * r <= n`.
pub open spec fn root(n: nat) -> nat
    decreases n,
{
    if n == 0 {
        0
    } else {
        let r = root((n - 1) as nat);
        if (r + 1) * (r + 1) <= n {
            r + 1
        } else {
            r
        }
    }
}

proof fn lemma_root(n: nat)
    ensures
        is_root(n, root(n)),
    decreases n,
{
    if n == 0 {
        assert(0nat * 0nat == 0 && (0nat + 1) * (0nat + 1) == 1) by (nonlinear_arith);
        assert(root(0) == 0);
    } else {
        lemma_root((n - 1) as nat);
        let r = root((n - 1) as nat);
        assert((r + 1) * (r + 1) < (r + 2) * (r + 2)) by (nonlinear_arith);
        assert(r * r <= n - 1 < (r + 1) * (r + 1));
        if (r + 1) * (r + 1) <= n {
            assert(root(n) == r + 1);
            let q: nat = r + 1;
            assert(n < (q + 1) * (q + 1)) by (nonlinear_arith)
                requires
                    n <= (r + 1) * (r + 1),
                    q == r + 1,
            ;
            assert(is_root(n, q));
        } else {
            assert(root(n) == r);
        }
    }
}

proof fn lemma_root_unique(n: nat, r: nat)
    requires
        is_root(n, r),
    ensures
        r == root(n),
{
    lemma_root(n);
    let q = root(n);
    if r < q {
        assert((r + 1) * (r + 1) <= q * q) by (nonlinear_arith)
            requires
                r + 1 <= q,
        ;
    }
    if q < r {
        assert((q + 1) * (q + 1) <= r * r) by (nonlinear_arith)
            requires
                q + 1 <= r,
        ;
    }
}

/// The integer square root of `n`, found by bisection.
pub fn isqrt(n: u128) -> (r: u64)
    requires
        n < 0x4000_0000_0000_0000_0000_0000_0000_0000,
    ensures
        r == root(n as nat),
{
    let mut lo: u128 = 0;
    let mut hi: u128 = 0x8000_0000_0000_0000;
    assert(hi * hi == 0x4000_0000_0000_0000_0000_0000_0000_0000) by (nonlinear_arith)
        requires
            hi == 0x8000_0000_0000_0000,
    ;
    while hi - lo > 1
        invariant
            lo < hi <= 0x8000_0000_0000_0000,
            lo * lo <= n,
            n < hi * hi,
        decreases hi - lo,
    {
        let mid = lo + (hi - lo) / 2;
        assert(mid * mid <= 0x4000_0000_0000_0000_0000_0000_0000_0000) by (nonlinear_arith)
            requires
                mid <= 0x8000_0000_0000_0000,
        ;
        if mid * mid <= n {
            lo = mid;
        } else {
            hi = mid;
        }
    }
    proof {
        assert(hi == lo + 1);
        lemma_root_unique(n as nat, lo as nat);
    }
    lo as u64
}

/// `a * b / c` rounded toward zero.
pub open spec fn scale(a: int, b: int, c: int) -> int {
    if a >= 0 {
        a * b / c
    } else {
        -((-a) * b / c)
    }
}

/// The direction from `from` to `to` at length `len`: the gap between them
/// scaled so that its length is `len`, each coordinate rounded toward zero.
/// There is none where the two points coincide, or lie `GAP_LIMIT` or more
/// apart on an axis.
pub open spec fn toward(from: Vec2, to: Vec2, len: i64) -> Option<Vec2> {
    let dx = to.x - from.x;
    let dy = to.y - from.y;
    let d = root((dx * dx + dy * dy) as nat);
    if dx <= -GAP_LIMIT || dx >= GAP_LIMIT || dy <= -GAP_LIMIT || dy >= GAP_LIMIT || d == 0 {
        None
    } else {
        Some(Vec2 { x: scale(dx, len as int, d as int) as i64, y: scale(dy, len as int, d as int) as i64 })
    }
}

/// `a` and `b` lie no farther than `r` apart.
pub open spec fn near(a: Vec2, b: Vec2, r: int) -> bool {
    (a.x - b.x) * (a.x - b.x) + (a.y - b.y) * (a.y - b.y) <= r * r
}

fn scale_gap(gap: i128, len: i64, d: u64) -> (r: i64)
    requires
        -GAP_LIMIT < gap < GAP_LIMIT,
        0 <= len,
        d > 0,
        gap * gap < (d + 1) * (d + 1),
    ensures
        r == scale(gap as int, len as int, d as int),
{
    let m: u128 = if gap >= 0 {
        gap as u128
    } else {
        (-gap) as u128
    };
    proof {
        assert(m == gap || m == -gap);
        assert(m * m == gap * gap) by (nonlinear_arith)
            requires
                m == gap || m == -gap,
        ;
        assert(m <= d) by (nonlinear_arith)
            requires
                m * m == gap * gap,
                gap * gap < (d + 1) * (d + 1),
                m >= 0,
                d > 0,
        ;
        assert(m * len <= d * len) by (nonlinear_arith)
            requires
                m <= d,
                len >= 0,
        ;
        assert(m * len <= 0x4000_0000_0000_0000 * 0x8000_0000_0000_0000) by (nonlinear_arith)
            requires
                m < 0x4000_0000_0000_0000,
                0 <= len < 0x8000_0000_0000_0000,
        ;
        lemma_div_is_ordered(m * len, d * len, d as int);
        lemma_div_multiples_vanish(len as int, d as int);
        assert(d * len == len * d) by (nonlinear_arith);
    }
    let q: u128 = m * (len as u128) / (d as u128);
    if gap >= 0 {
        q as i64
    } else {
        -(q as i64)
    }
}

/// The direction from `from` to `to` at length `len`.
pub fn direction(from: Vec2, to: Vec2, len: i64) -> (r: Option<Vec2>)
    requires
        0 <= len,
    ensures
        r == toward(from, to, len),
{
    let dx: i128 = to.x as i128 - from.x as i128;
    let dy: i128 = to.y as i128 - from.y as i128;
    let limit: i128 = GAP_LIMIT as i128;
    if dx <= -limit || dx >= limit || dy <= -limit || dy >= limit {
        return None;
    }
    proof {
        assert(0 <= dx * dx < 0x1000_0000_0000_0000_0000_0000_0000_0000) by (nonlinear_arith)
            requires
                -0x4000_0000_0000_0000 < dx < 0x4000_0000_0000_0000,
        ;
        assert(0 <= dy * dy < 0x1000_0000_0000_0000_0000_0000_0000_0000) by (nonlinear_arith)
            requires
                -0x4000_0000_0000_0000 < dy < 0x4000_0000_0000_0000,
        ;
    }
    let n: u128 = (dx * dx + dy * dy) as u128;
    let d = isqrt(n);
    if d == 0 {
        return None;
    }
    proof {
        lemma_root(n as nat);
    }
    let x = scale_gap(dx, len, d);
    let y = scale_gap(dy, len, d);
    Some(Vec2 { x, y })
}

/// Decides whether `a` and `b` lie no farther than `r` apart, without
/// overflow: a gap wider than `r` on either axis is out of reach before
/// anything is squared.
pub fn close(a: Vec2, b: Vec2, r: i64) -> (res: bool)
    requires
        0 <= r <= 0x1_0000_0000,
    ensures
        res == near(a, b, r as int),
{
    let dx: i128 = a.x as i128 - b.x as i128;
    let dy: i128 = a.y as i128 - b.y as i128;
    let rr: i128 = r as i128;
    if dx > rr || dx < -rr || dy > rr || dy < -rr {
        proof {
            assert(dx * dx + dy * dy > rr * rr) by (nonlinear_arith)
                requires
                    dx > rr || dx < -rr || dy > rr || dy < -rr,
                    rr >= 0,
            ;
        }
        false
    } else {
        proof {
            assert(0 <= dx * dx <= 0x1_0000_0000_0000_0000) by (nonlinear_arith)
                requires
                    -rr <= dx <= rr,
                    rr <= 0x1_0000_0000,
            ;
            assert(0 <= dy * dy <= 0x1_0000_0000_0000_0000) by (nonlinear_arith)
                requires
                    -rr <= dy <= rr,
                    rr <= 0x1_0000_0000,
            ;
            assert(0 <= rr * rr <= 0x1_0000_0000_0000_0000) by (nonlinear_arith)
                requires
                    0 <= rr <= 0x1_0000_0000,
            ;
        }
        let sx: i128 = dx * dx;
        let sy: i128 = dy * dy;
        sx + sy <= rr * rr
    }
}

} // verus!
