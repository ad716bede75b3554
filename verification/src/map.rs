//! Map geometry: turning the parsed wall segments and spawn points of a map
//! file into the wall records the collision resolver works on.  Reading and
//! deserialising the file itself is the caller's business; the core only
//! consumes the parsed geometry.

use vstd::prelude::*;
use crate::entities::{Spawn, Wall, POS_LIMIT};
use crate::fixed::{
    div_t, div_trunc, in_range, isqrt, lemma_div_t_scaled, lemma_mul_bound,
    lemma_sqrt_floor_props, sqrt_floor, Vec2, SCALE,
};
use crate::session::spawns_wf;

verus! {

/// One wall segment as a map file states it: two endpoints and an optional
/// outward normal hint.
#[derive(Debug, Clone, Copy, PartialEq, Eq, Structural)]
pub struct WallSegment {
    pub from: Vec2,
    pub to: Vec2,
    pub normal: Option<Vec2>,
}

impl WallSegment {
    pub open spec fn wf(self) -> bool {
        &&& in_range(self.from, POS_LIMIT as int)
        &&& in_range(self.to, POS_LIMIT as int)
        &&& match self.normal {
            Some(n) => in_range(n, POS_LIMIT as int),
            None => true,
        }
    }
}

/// `v` scaled to (integer) unit length, `SCALE` times larger; the length
/// must be positive.
pub open spec fn spec_normalize(v: Vec2) -> Vec2 {
    let len = sqrt_floor(v.x * v.x + v.y * v.y);
    Vec2 {
        x: div_t(v.x * (SCALE as int), len) as i64,
        y: div_t(v.y * (SCALE as int), len) as i64,
    }
}

/// The wall a segment denotes: midpoint origin, unit direction from one
/// endpoint to the other, half the distance between them, and the stated
/// normal (normalized), or the direction turned a quarter turn to the left
/// when the file states none or a zero one.  A segment of zero length
/// denotes no wall.
pub open spec fn spec_wall_from_segment(seg: WallSegment) -> Option<Wall> {
    let dx = seg.to.x - seg.from.x;
    let dy = seg.to.y - seg.from.y;
    let len = sqrt_floor(dx * dx + dy * dy);
    if len == 0 {
        None
    } else {
        let direction = spec_normalize(Vec2 { x: dx as i64, y: dy as i64 });
        let fallback = Vec2 { x: (-direction.y) as i64, y: direction.x };
        let normal = match seg.normal {
            Some(n) => if n.x == 0 && n.y == 0 {
                fallback
            } else {
                spec_normalize(n)
            },
            None => fallback,
        };
        Some(
            Wall {
                origin: Vec2 {
                    x: div_t(seg.from.x + seg.to.x, 2) as i64,
                    y: div_t(seg.from.y + seg.to.y, 2) as i64,
                },
                direction,
                normal,
                half_length: div_t(len, 2) as i64,
            },
        )
    }
}

/// A component of a vector is never longer than the vector.
proof fn lemma_component_le_len(x: int, y: int)
    ensures
        x * x + y * y >= 0,
        -sqrt_floor(x * x + y * y) <= x <= sqrt_floor(x * x + y * y),
{
    assert(x * x >= 0 && y * y >= 0) by (nonlinear_arith);
    lemma_sqrt_floor_props(x * x + y * y);
    let len = sqrt_floor(x * x + y * y);
    assert(-len <= x <= len) by (nonlinear_arith)
        requires
            len >= 0,
            x * x + y * y < (len + 1) * (len + 1),
            y * y >= 0,
    ;
}

/// Normalizes a nonzero vector to scaled unit length.
fn normalize(v: Vec2) -> (r: Option<Vec2>)
    requires
        in_range(v, 2 * (POS_LIMIT as int)),
    ensures
        match r {
            Some(u) => {
                &&& !(v.x == 0 && v.y == 0)
                &&& u == spec_normalize(v)
                &&& in_range(u, SCALE as int)
            },
            None => v.x == 0 && v.y == 0,
        },
{
    proof {
        assert(0 <= (v.x as int) * (v.x as int) <= 40_000_000_000_000_000int && 0 <= (
        v.y as int) * (v.y as int) <= 40_000_000_000_000_000int) by (nonlinear_arith)
            requires
                -200_000_000 <= v.x as int <= 200_000_000,
                -200_000_000 <= v.y as int <= 200_000_000,
        ;
    }
    let sq = v.x * v.x + v.y * v.y;
    let len = isqrt(sq);
    if len == 0 {
        proof {
            lemma_sqrt_floor_props(sq as int);
            assert(v.x == 0 && v.y == 0) by (nonlinear_arith)
                requires
                    (v.x as int) * (v.x as int) + (v.y as int) * (v.y as int) < 1,
            ;
        }
        return None;
    }
    proof {
        lemma_component_le_len(v.x as int, v.y as int);
        lemma_component_le_len(v.y as int, v.x as int);
        assert((v.y as int) * (v.y as int) + (v.x as int) * (v.x as int) == (v.x as int) * (
        v.x as int) + (v.y as int) * (v.y as int));
        lemma_mul_bound(v.x as int, SCALE as int, len as int, SCALE as int);
        lemma_mul_bound(v.y as int, SCALE as int, len as int, SCALE as int);
        assert((len as int) * (SCALE as int) == (SCALE as int) * (len as int))
            by (nonlinear_arith);
        lemma_div_t_scaled((v.x as int) * (SCALE as int), len as int, SCALE as int);
        lemma_div_t_scaled((v.y as int) * (SCALE as int), len as int, SCALE as int);
    }
    let rx = div_trunc(v.x * SCALE, len);
    let ry = div_trunc(v.y * SCALE, len);
    proof {
        assert(!(v.x == 0 && v.y == 0));
        assert(len as int == sqrt_floor((v.x as int) * (v.x as int) + (v.y as int) * (
        v.y as int)));
        assert(rx as int == div_t((v.x as int) * (SCALE as int), len as int));
        assert(-SCALE <= rx <= SCALE);
        assert(Vec2 { x: rx, y: ry } == spec_normalize(v));
    }
    Some(Vec2 { x: rx, y: ry })
}

/// Builds the wall record for one segment of the map file; a zero-length
/// segment yields none and is skipped.
pub fn wall_from_segment(seg: &WallSegment) -> (r: Option<Wall>)
    requires
        seg.wf(),
    ensures
        r == spec_wall_from_segment(*seg),
        r matches Some(w) ==> w.wf(),
{
    let dx = seg.to.x - seg.from.x;
    let dy = seg.to.y - seg.from.y;
    let delta = Vec2 { x: dx, y: dy };
    let direction = match normalize(delta) {
        None => {
            proof {
                assert((dx as int) * (dx as int) == 0 && (dy as int) * (dy as int) == 0)
                    by (nonlinear_arith)
                    requires
                        dx as int == 0,
                        dy as int == 0,
                ;
            }
            return None;
        },
        Some(d) => d,
    };
    proof {
        assert(0 <= (dx as int) * (dx as int) <= 40_000_000_000_000_000int && 0 <= (dy as int) * (
        dy as int) <= 40_000_000_000_000_000int) by (nonlinear_arith)
            requires
                -200_000_000 <= dx as int <= 200_000_000,
                -200_000_000 <= dy as int <= 200_000_000,
        ;
    }
    let sq = dx * dx + dy * dy;
    let len = isqrt(sq);
    proof {
        lemma_sqrt_floor_props(sq as int);
        assert(len > 0) by (nonlinear_arith)
            requires
                (len as int + 1) * (len as int + 1) > (dx as int) * (dx as int) + (dy as int) * (
                dy as int),
                len >= 0,
                !(dx == 0 && dy == 0),
                (dx as int) * (dx as int) >= 0,
                (dy as int) * (dy as int) >= 0,
                (len as int) * (len as int) <= (dx as int) * (dx as int) + (dy as int) * (
                dy as int),
        ;
        assert(len <= 3 * POS_LIMIT) by (nonlinear_arith)
            requires
                (len as int) * (len as int) <= 80_000_000_000_000_000int,
                len >= 0,
        ;
        crate::fixed::lemma_div_t_scaled(seg.from.x as int + seg.to.x as int, 2, POS_LIMIT as int);
        crate::fixed::lemma_div_t_scaled(seg.from.y as int + seg.to.y as int, 2, POS_LIMIT as int);
        crate::fixed::lemma_div_t_scaled(len as int, 2, 2 * (POS_LIMIT as int));
        vstd::arithmetic::div_mod::lemma_div_pos_is_pos(len as int, 2);
    }
    let fallback = Vec2 { x: -direction.y, y: direction.x };
    let normal = match seg.normal {
        Some(n) => {
            if n.x == 0 && n.y == 0 {
                fallback
            } else {
                match normalize(n) {
                    Some(u) => u,
                    None => fallback,
                }
            }
        },
        None => fallback,
    };
    Some(
        Wall {
            origin: Vec2 {
                x: div_trunc(seg.from.x + seg.to.x, 2),
                y: div_trunc(seg.from.y + seg.to.y, 2),
            },
            direction,
            normal,
            half_length: div_trunc(len, 2),
        },
    )
}

/// The walls the first `k` segments denote, in file order: one wall per
/// segment, except that a zero-length segment denotes none.
pub open spec fn walls_of(segments: Seq<WallSegment>, k: int) -> Seq<Wall>
    decreases k,
{
    if k <= 0 {
        Seq::empty()
    } else {
        let rest = walls_of(segments, k - 1);
        match spec_wall_from_segment(segments[k - 1]) {
            Some(w) => rest.push(w),
            None => rest,
        }
    }
}

/// The parsed geometry of one map: wall segments and spawn points.  The
/// background sprite a map file also names is no concern of the core.
#[derive(Debug, Clone, PartialEq)]
pub struct GameMap {
    pub walls: Vec<Wall>,
    pub spawns: Vec<Spawn>,
}

impl GameMap {
    pub open spec fn wf(self) -> bool {
        &&& forall|i: int| 0 <= i < self.walls@.len() ==> (#[trigger] self.walls@[i]).wf()
        &&& self.walls@.len() <= crate::collision::WALL_COUNT_LIMIT
        &&& spawns_wf(self.spawns@)
    }

    /// Builds a map from parsed segments and spawn points, skipping the
    /// zero-length segments a careless file may hold.
    pub fn from_segments(segments: &Vec<WallSegment>, spawns: Vec<Spawn>) -> (r: GameMap)
        requires
            forall|i: int| 0 <= i < segments@.len() ==> (#[trigger] segments@[i]).wf(),
            segments@.len() <= crate::collision::WALL_COUNT_LIMIT,
            spawns_wf(spawns@),
        ensures
            r.wf(),
            r.spawns == spawns,
            r.walls@ == walls_of(segments@, segments@.len() as int),
    {
        let n = segments.len();
        let mut walls: Vec<Wall> = Vec::new();
        let mut i: usize = 0;
        while i < n
            invariant
                n == segments@.len(),
                i <= n,
                n <= crate::collision::WALL_COUNT_LIMIT,
                forall|j: int| 0 <= j < n ==> (#[trigger] segments@[j]).wf(),
                walls@.len() <= i,
                forall|j: int| 0 <= j < walls@.len() ==> (#[trigger] walls@[j]).wf(),
                walls@ == walls_of(segments@, i as int),
            decreases n - i,
        {
            match wall_from_segment(&segments[i]) {
                Some(w) => {
                    walls.push(w);
                },
                None => (),
            }
            i = i + 1;
        }
        GameMap { walls, spawns }
    }
}

} // verus!
