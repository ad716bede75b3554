//! Pairwise collision detection and resolution, run once per tick after
//! motion integration: tank-wall pushes, mutually lethal tank-tank contact,
//! tank-bullet hits, and bullet-wall reflection against a bounce budget.
//! Destruction is mark-and-sweep: every test of a pass reads the state the
//! pass began with, and nothing is mutated while it is iterated.

use vstd::prelude::*;
use crate::entities::{
    Bullet, Player, Tank, Wall, BOUNCE_LIMIT, POS_LIMIT, RADIUS_LIMIT,
};
use crate::fixed::{
    clamp_i64, div_t, div_trunc, isqrt, lemma_div_t_scaled, lemma_mul_bound,
    lemma_sqrt_floor_props, spec_clamp, sqrt_floor, Vec2, SCALE,
};

verus! {

/// How many walls a loaded map may hold; keeps summed corrections small.
pub const WALL_COUNT_LIMIT: usize = 1_000_000;

/// Signed distance from the wall's midpoint to `pos`, measured along the
/// wall's direction, milli-units.
pub open spec fn wall_in_dist(pos: Vec2, w: Wall) -> int {
    div_t(
        (w.origin.x - pos.x) * w.direction.x + (w.origin.y - pos.y) * w.direction.y,
        SCALE as int,
    )
}

/// Distance from `pos` to the wall's carrying line, milli-units (the
/// length of the offset vector with its along-wall component removed).
pub open spec fn wall_out_dist(pos: Vec2, w: Wall) -> int {
    let dx = w.origin.x - pos.x;
    let dy = w.origin.y - pos.y;
    let ind = wall_in_dist(pos, w);
    let dvx = dx - div_t(ind * w.direction.x, SCALE as int);
    let dvy = dy - div_t(ind * w.direction.y, SCALE as int);
    sqrt_floor(dvx * dvx + dvy * dvy)
}

/// Whether a circle at `pos` with `radius` touches the wall segment.
pub open spec fn wall_overlap(pos: Vec2, radius: int, w: Wall) -> bool {
    let ind = wall_in_dist(pos, w);
    &&& -(w.half_length + radius) <= ind <= w.half_length + radius
    &&& wall_out_dist(pos, w) < radius
}

/// Computes the two wall distances.
fn wall_dists(pos: Vec2, w: &Wall) -> (r: (i64, i64))
    requires
        crate::fixed::in_range(pos, POS_LIMIT as int),
        w.wf(),
    ensures
        r.0 == wall_in_dist(pos, *w),
        r.1 == wall_out_dist(pos, *w),
        -4 * (POS_LIMIT as int) <= r.0 <= 4 * (POS_LIMIT as int),
        0 <= r.1 <= 9 * (POS_LIMIT as int),
{
    let dx = w.origin.x - pos.x;
    let dy = w.origin.y - pos.y;
    proof {
        lemma_mul_bound(dx as int, w.direction.x as int, 2 * (POS_LIMIT as int), SCALE as int);
        lemma_mul_bound(dy as int, w.direction.y as int, 2 * (POS_LIMIT as int), SCALE as int);
        lemma_div_t_scaled(
            (dx as int) * (w.direction.x as int) + (dy as int) * (w.direction.y as int),
            SCALE as int,
            4 * (POS_LIMIT as int),
        );
    }
    let ind = div_trunc(dx * w.direction.x + dy * w.direction.y, SCALE);
    proof {
        lemma_mul_bound(ind as int, w.direction.x as int, 4 * (POS_LIMIT as int), SCALE as int);
        lemma_mul_bound(ind as int, w.direction.y as int, 4 * (POS_LIMIT as int), SCALE as int);
        lemma_div_t_scaled((ind as int) * (w.direction.x as int), SCALE as int, 4 * (POS_LIMIT as int));
        lemma_div_t_scaled((ind as int) * (w.direction.y as int), SCALE as int, 4 * (POS_LIMIT as int));
    }
    let dvx = dx - div_trunc(ind * w.direction.x, SCALE);
    let dvy = dy - div_trunc(ind * w.direction.y, SCALE);
    proof {
        lemma_mul_bound(dvx as int, dvx as int, 6 * (POS_LIMIT as int), 6 * (POS_LIMIT as int));
        lemma_mul_bound(dvy as int, dvy as int, 6 * (POS_LIMIT as int), 6 * (POS_LIMIT as int));
        assert(dvx * dvx >= 0) by (nonlinear_arith);
        assert(dvy * dvy >= 0) by (nonlinear_arith);
    }
    let sq = dvx * dvx + dvy * dvy;
    let out = isqrt(sq);
    proof {
        lemma_sqrt_floor_props(sq as int);
        assert(out <= 9 * POS_LIMIT) by (nonlinear_arith)
            requires
                (out as int) * (out as int) <= (sq as int),
                sq as int <= 2 * (6 * (POS_LIMIT as int)) * (6 * (POS_LIMIT as int)),
                out >= 0,
        ;
    }
    (ind, out)
}

/// The push one wall gives a circle at `pos`: along the wall's normal, by
/// the overlap depth; zero when they do not touch.
pub open spec fn wall_correction(pos: Vec2, radius: int, w: Wall) -> (int, int) {
    if wall_overlap(pos, radius, w) {
        let depth = radius - wall_out_dist(pos, w);
        (div_t(w.normal.x * depth, SCALE as int), div_t(w.normal.y * depth, SCALE as int))
    } else {
        (0, 0)
    }
}

/// Corrections of the first `k` walls, summed.
pub open spec fn total_correction(pos: Vec2, radius: int, ws: Seq<Wall>, k: int) -> (int, int)
    decreases k,
{
    if k <= 0 {
        (0, 0)
    } else {
        let rest = total_correction(pos, radius, ws, k - 1);
        let c = wall_correction(pos, radius, ws[k - 1]);
        (rest.0 + c.0, rest.1 + c.1)
    }
}

/// One wall's push never exceeds the circle's radius per axis.
proof fn lemma_wall_correction_bound(pos: Vec2, radius: int, w: Wall)
    requires
        0 < radius <= RADIUS_LIMIT,
        w.wf(),
    ensures
        -(RADIUS_LIMIT as int) <= wall_correction(pos, radius, w).0 <= RADIUS_LIMIT,
        -(RADIUS_LIMIT as int) <= wall_correction(pos, radius, w).1 <= RADIUS_LIMIT,
{
    if wall_overlap(pos, radius, w) {
        let dx = w.origin.x - pos.x;
        let dy = w.origin.y - pos.y;
        let ind = wall_in_dist(pos, w);
        let dvx = dx - div_t(ind * w.direction.x, SCALE as int);
        let dvy = dy - div_t(ind * w.direction.y, SCALE as int);
        assert(dvx * dvx + dvy * dvy >= 0) by (nonlinear_arith);
        lemma_sqrt_floor_props(dvx * dvx + dvy * dvy);
        let depth = radius - wall_out_dist(pos, w);
        assert(0 < depth <= RADIUS_LIMIT);
        lemma_mul_bound(w.normal.x as int, depth, SCALE as int, RADIUS_LIMIT as int);
        lemma_mul_bound(w.normal.y as int, depth, SCALE as int, RADIUS_LIMIT as int);
        lemma_div_t_scaled((w.normal.x as int) * depth, SCALE as int, RADIUS_LIMIT as int);
        lemma_div_t_scaled((w.normal.y as int) * depth, SCALE as int, RADIUS_LIMIT as int);
    }
}

/// The summed push of `k` walls is bounded by `k` radii per axis.
proof fn lemma_total_correction_bound(pos: Vec2, radius: int, ws: Seq<Wall>, k: int)
    requires
        0 < radius <= RADIUS_LIMIT,
        forall|i: int| 0 <= i < ws.len() ==> (#[trigger] ws[i]).wf(),
        0 <= k <= ws.len(),
    ensures
        -k * (RADIUS_LIMIT as int) <= total_correction(pos, radius, ws, k).0 <= k * (
        RADIUS_LIMIT as int),
        -k * (RADIUS_LIMIT as int) <= total_correction(pos, radius, ws, k).1 <= k * (
        RADIUS_LIMIT as int),
    decreases k,
{
    if k > 0 {
        lemma_total_correction_bound(pos, radius, ws, k - 1);
        lemma_wall_correction_bound(pos, radius, ws[k - 1]);
    }
}

/// The tank after all wall pushes are applied at once.
pub open spec fn spec_tank_wall(t: Tank, ws: Seq<Wall>) -> Tank {
    let c = total_correction(t.position, t.radius as int, ws, ws.len() as int);
    Tank {
        position: Vec2 {
            x: spec_clamp(t.position.x + c.0, -POS_LIMIT as int, POS_LIMIT as int) as i64,
            y: spec_clamp(t.position.y + c.1, -POS_LIMIT as int, POS_LIMIT as int) as i64,
        },
        ..t
    }
}

/// Accumulates the pushes of every overlapping wall on one circle.
fn sum_corrections(pos: Vec2, radius: i64, walls: &Vec<Wall>) -> (r: (i64, i64))
    requires
        crate::fixed::in_range(pos, POS_LIMIT as int),
        0 < radius <= RADIUS_LIMIT,
        forall|i: int| 0 <= i < walls@.len() ==> (#[trigger] walls@[i]).wf(),
        walls@.len() <= WALL_COUNT_LIMIT,
    ensures
        (r.0 as int, r.1 as int) == total_correction(pos, radius as int, walls@, walls@.len() as int),
{
    let n = walls.len();
    let mut cx: i64 = 0;
    let mut cy: i64 = 0;
    let mut i: usize = 0;
    while i < n
        invariant
            n == walls@.len(),
            i <= n,
            crate::fixed::in_range(pos, POS_LIMIT as int),
            0 < radius <= RADIUS_LIMIT,
            n <= WALL_COUNT_LIMIT,
            forall|j: int| 0 <= j < walls@.len() ==> (#[trigger] walls@[j]).wf(),
            (cx as int, cy as int) == total_correction(pos, radius as int, walls@, i as int),
            -(i as int) * (RADIUS_LIMIT as int) <= cx <= (i as int) * (RADIUS_LIMIT as int),
            -(i as int) * (RADIUS_LIMIT as int) <= cy <= (i as int) * (RADIUS_LIMIT as int),
        decreases n - i,
    {
        let w = walls[i];
        let (ind, out) = wall_dists(pos, &w);
        proof {
            lemma_wall_correction_bound(pos, radius as int, w);
        }
        if -(w.half_length + radius) <= ind && ind <= w.half_length + radius && out < radius {
            let depth = radius - out;
            proof {
                assert((i as int) * (RADIUS_LIMIT as int) <= (WALL_COUNT_LIMIT as int) * (
                RADIUS_LIMIT as int)) by (nonlinear_arith)
                    requires
                        0 <= i as int <= WALL_COUNT_LIMIT as int,
                ;
                lemma_mul_bound(w.normal.x as int, depth as int, SCALE as int, RADIUS_LIMIT as int);
                lemma_mul_bound(w.normal.y as int, depth as int, SCALE as int, RADIUS_LIMIT as int);
                lemma_div_t_scaled((w.normal.x as int) * (depth as int), SCALE as int, RADIUS_LIMIT as int);
                lemma_div_t_scaled((w.normal.y as int) * (depth as int), SCALE as int, RADIUS_LIMIT as int);
                assert((i as int) * (RADIUS_LIMIT as int) + (RADIUS_LIMIT as int) == (i as int + 1)
                    * (RADIUS_LIMIT as int)) by (nonlinear_arith);
            }
            cx = cx + div_trunc(w.normal.x * depth, SCALE);
            cy = cy + div_trunc(w.normal.y * depth, SCALE);
        } else {
            proof {
                assert((i as int) * (RADIUS_LIMIT as int) <= (i as int + 1) * (RADIUS_LIMIT as int))
                    by (nonlinear_arith);
            }
        }
        i = i + 1;
    }
    (cx, cy)
}

/// Pushes every live tank out of the walls it overlaps; the pushes of all
/// overlapping walls accumulate and are applied once.
pub fn tank_wall_collision(players: &mut Vec<Player>, walls: &Vec<Wall>)
    requires
        forall|i: int| 0 <= i < old(players)@.len() ==> (#[trigger] old(players)@[i]).wf(),
        forall|i: int| 0 <= i < walls@.len() ==> (#[trigger] walls@[i]).wf(),
        walls@.len() <= WALL_COUNT_LIMIT,
    ensures
        final(players)@.len() == old(players)@.len(),
        forall|i: int|
            0 <= i < old(players)@.len() ==> final(players)@[i] == (match old(players)@[i].tank {
                Some(t) => Player { tank: Some(spec_tank_wall(t, walls@)), ..#[trigger] old(
                    players,
                )@[i] },
                None => old(players)@[i],
            }),
        forall|i: int| 0 <= i < final(players)@.len() ==> (#[trigger] final(players)@[i]).wf(),
{
    let n = players.len();
    let mut i: usize = 0;
    while i < n
        invariant
            n == players@.len(),
            i <= n,
            players@.len() == old(players)@.len(),
            forall|j: int| 0 <= j < walls@.len() ==> (#[trigger] walls@[j]).wf(),
            walls@.len() <= WALL_COUNT_LIMIT,
            forall|j: int| i <= j < n ==> players@[j] == old(players)@[j],
            forall|j: int|
                0 <= j < i ==> players@[j] == (match old(players)@[j].tank {
                    Some(t) => Player { tank: Some(spec_tank_wall(t, walls@)), ..#[trigger] old(
                        players,
                    )@[j] },
                    None => old(players)@[j],
                }),
            forall|j: int| 0 <= j < n ==> (#[trigger] old(players)@[j]).wf(),
            forall|j: int| 0 <= j < i ==> (#[trigger] players@[j]).wf(),
        decreases n - i,
    {
        let mut p = players[i];
        proof {
            assert(old(players)@[i as int].wf());
        }
        match p.tank {
            None => (),
            Some(t) => {
                let mut t = t;
                let (cx, cy) = sum_corrections(t.position, t.radius, walls);
                proof {
                    lemma_total_correction_bound(
                        t.position,
                        t.radius as int,
                        walls@,
                        walls@.len() as int,
                    );
                    assert((walls@.len() as int) * (RADIUS_LIMIT as int) <= (
                    WALL_COUNT_LIMIT as int) * (RADIUS_LIMIT as int)) by (nonlinear_arith)
                        requires
                            0 <= walls@.len() as int <= WALL_COUNT_LIMIT as int,
                    ;
                }
                t.position = Vec2 {
                    x: clamp_i64(t.position.x + cx, -POS_LIMIT, POS_LIMIT),
                    y: clamp_i64(t.position.y + cy, -POS_LIMIT, POS_LIMIT),
                };
                p.tank = Some(t);
                players[i] = p;
            },
        }
        i = i + 1;
    }
}

/// Bullets pass through each other: no interaction is defined, and none
/// happens.
pub fn bullet_bullet_collision(bullets: &mut Vec<Bullet>)
    ensures
        final(bullets)@ == old(bullets)@,
{
}

} // verus!

verus! {

/// Whether two circles overlap strictly (squared distances; exact).
pub open spec fn circles_touching(pa: Vec2, ra: int, pb: Vec2, rb: int) -> bool {
    let dx = pa.x - pb.x;
    let dy = pa.y - pb.y;
    dx * dx + dy * dy < (ra + rb) * (ra + rb)
}

/// Compares squared center distance against the squared radius sum.
fn circles_touch(pa: Vec2, ra: i64, pb: Vec2, rb: i64) -> (r: bool)
    requires
        crate::fixed::in_range(pa, POS_LIMIT as int),
        crate::fixed::in_range(pb, POS_LIMIT as int),
        0 < ra <= RADIUS_LIMIT,
        0 < rb <= RADIUS_LIMIT,
    ensures
        r == circles_touching(pa, ra as int, pb, rb as int),
{
    let dx = pa.x - pb.x;
    let dy = pa.y - pb.y;
    proof {
        lemma_mul_bound(dx as int, dx as int, 2 * (POS_LIMIT as int), 2 * (POS_LIMIT as int));
        lemma_mul_bound(dy as int, dy as int, 2 * (POS_LIMIT as int), 2 * (POS_LIMIT as int));
        lemma_mul_bound(
            ra as int + rb as int,
            ra as int + rb as int,
            2 * (RADIUS_LIMIT as int),
            2 * (RADIUS_LIMIT as int),
        );
        assert(dx * dx >= 0) by (nonlinear_arith);
        assert(dy * dy >= 0) by (nonlinear_arith);
    }
    dx * dx + dy * dy < (ra + rb) * (ra + rb)
}

/// The owner after its tank died: input cleared, one more death counted
/// (the counter saturates at its type's top), respawn countdown started,
/// tank gone.
pub open spec fn spec_died(p: Player) -> Player {
    Player {
        shoot: false,
        tracks_acceleration_target: Vec2 { x: 0, y: 0 },
        turret_acceleration_target: 0,
        deaths: if p.deaths == u32::MAX {
            u32::MAX
        } else {
            (p.deaths + 1) as u32
        },
        respawn_timer: Some(0u64),
        tank: None,
        ..p
    }
}

/// Whether player `i`'s live tank touches some other player's live tank.
pub open spec fn tank_hit_by_tank(ps: Seq<Player>, i: int) -> bool {
    &&& ps[i].tank is Some
    &&& exists|j: int|
        #![trigger ps[j]]
        0 <= j < ps.len() && j != i && ps[j].tank is Some && circles_touching(
            ps[i].tank->Some_0.position,
            ps[i].tank->Some_0.radius as int,
            ps[j].tank->Some_0.position,
            ps[j].tank->Some_0.radius as int,
        )
}

/// Tank-tank contact is mutual and unconditional: two live tanks within the
/// sum of their radii are both marked, so both die in the same pass and
/// each owner's death count rises by exactly one.
pub proof fn lemma_tank_tank_mutual(ps: Seq<Player>, i: int, j: int)
    requires
        0 <= i < ps.len(),
        0 <= j < ps.len(),
        i != j,
        ps[i].tank is Some,
        ps[j].tank is Some,
        circles_touching(
            ps[i].tank->Some_0.position,
            ps[i].tank->Some_0.radius as int,
            ps[j].tank->Some_0.position,
            ps[j].tank->Some_0.radius as int,
        ),
    ensures
        tank_hit_by_tank(ps, i),
        tank_hit_by_tank(ps, j),
        ps[i].deaths < u32::MAX ==> spec_died(ps[i]).deaths == ps[i].deaths + 1,
        ps[j].deaths < u32::MAX ==> spec_died(ps[j]).deaths == ps[j].deaths + 1,
{
    let a = ps[i].tank->Some_0;
    let b = ps[j].tank->Some_0;
    assert((a.position.x - b.position.x) * (a.position.x - b.position.x) == (b.position.x
        - a.position.x) * (b.position.x - a.position.x)) by (nonlinear_arith);
    assert((a.position.y - b.position.y) * (a.position.y - b.position.y) == (b.position.y
        - a.position.y) * (b.position.y - a.position.y)) by (nonlinear_arith);
    assert((a.radius + b.radius) * (a.radius + b.radius) == (b.radius + a.radius) * (b.radius
        + a.radius)) by (nonlinear_arith);
}

/// Whether player `i`'s live tank touches another live tank, computed
/// against the untouched pass-start state.
fn tank_hit(players: &Vec<Player>, i: usize) -> (r: bool)
    requires
        i < players@.len(),
        forall|k: int| 0 <= k < players@.len() ==> (#[trigger] players@[k]).wf(),
    ensures
        r == tank_hit_by_tank(players@, i as int),
{
    let p = players[i];
    match p.tank {
        None => false,
        Some(t) => {
            let n = players.len();
            let mut j: usize = 0;
            while j < n
                invariant
                    n == players@.len(),
                    j <= n,
                    i < n,
                    forall|k: int| 0 <= k < n ==> (#[trigger] players@[k]).wf(),
                    players@[i as int].tank is Some,
                    t == players@[i as int].tank->Some_0,
                    forall|k: int|
                        #![trigger players@[k]]
                        0 <= k < j ==> !(k != i as int && players@[k].tank is Some
                            && circles_touching(
                            t.position,
                            t.radius as int,
                            players@[k].tank->Some_0.position,
                            players@[k].tank->Some_0.radius as int,
                        )),
                decreases n - j,
            {
                if j != i {
                    let q = players[j];
                    match q.tank {
                        None => (),
                        Some(u) => {
                            if circles_touch(t.position, t.radius, u.position, u.radius) {
                                return true;
                            }
                        },
                    }
                }
                j = j + 1;
            }
            false
        },
    }
}

/// Destroys every pair of touching tanks; there is no winner.
pub fn tank_tank_collision(players: &mut Vec<Player>)
    requires
        forall|i: int| 0 <= i < old(players)@.len() ==> (#[trigger] old(players)@[i]).wf(),
    ensures
        final(players)@.len() == old(players)@.len(),
        forall|i: int|
            #![auto]
            0 <= i < old(players)@.len() ==> final(players)@[i] == (if tank_hit_by_tank(
                old(players)@,
                i,
            ) {
                spec_died(old(players)@[i])
            } else {
                old(players)@[i]
            }),
        forall|i: int| 0 <= i < final(players)@.len() ==> (#[trigger] final(players)@[i]).wf(),
        forall|i: int|
            #![auto]
            0 <= i < old(players)@.len() ==> final(players)@[i].port == old(players)@[i].port
                && final(players)@[i].secret == old(players)@[i].secret,
{
    let n = players.len();
    let mut hit: Vec<bool> = Vec::new();
    let mut i: usize = 0;
    while i < n
        invariant
            n == players@.len(),
            i <= n,
            players@ == old(players)@,
            hit@.len() == i,
            forall|k: int| #![auto] 0 <= k < i ==> hit@[k] == tank_hit_by_tank(players@, k),
            forall|k: int| 0 <= k < n ==> (#[trigger] players@[k]).wf(),
        decreases n - i,
    {
        let h = tank_hit(players, i);
        hit.push(h);
        i = i + 1;
    }
    let mut i: usize = 0;
    while i < n
        invariant
            n == players@.len(),
            i <= n,
            players@.len() == old(players)@.len(),
            hit@.len() == n,
            forall|k: int| #![auto] 0 <= k < n ==> hit@[k] == tank_hit_by_tank(old(players)@, k),
            forall|k: int| 0 <= k < n ==> (#[trigger] old(players)@[k]).wf(),
            forall|j: int| i <= j < n ==> players@[j] == old(players)@[j],
            forall|j: int|
                #![auto]
                0 <= j < i ==> players@[j] == (if tank_hit_by_tank(old(players)@, j) {
                    spec_died(old(players)@[j])
                } else {
                    old(players)@[j]
                }),
            forall|j: int| 0 <= j < i ==> (#[trigger] players@[j]).wf(),
        decreases n - i,
    {
        proof {
            assert(old(players)@[i as int].wf());
        }
        if hit[i] {
            let mut p = players[i];
            p.reset_input();
            p.deaths = if p.deaths == u32::MAX {
                u32::MAX
            } else {
                p.deaths + 1
            };
            p.respawn_timer = Some(0);
            p.tank = None;
            players[i] = p;
        }
        i = i + 1;
    }
}

/// Whether player `i`'s live tank touches some bullet.
pub open spec fn tank_hit_by_bullet(ps: Seq<Player>, bs: Seq<Bullet>, i: int) -> bool {
    &&& ps[i].tank is Some
    &&& exists|k: int|
        #![trigger bs[k]]
        0 <= k < bs.len() && circles_touching(
            ps[i].tank->Some_0.position,
            ps[i].tank->Some_0.radius as int,
            bs[k].position,
            bs[k].radius as int,
        )
}

/// Whether bullet `k` touches some live tank.
pub open spec fn bullet_hit_tank(ps: Seq<Player>, bs: Seq<Bullet>, k: int) -> bool {
    exists|i: int|
        #![trigger ps[i]]
        0 <= i < ps.len() && ps[i].tank is Some && circles_touching(
            ps[i].tank->Some_0.position,
            ps[i].tank->Some_0.radius as int,
            bs[k].position,
            bs[k].radius as int,
        )
}

/// The bullets of the first `k` that hit no tank, in order: a bullet that
/// hits is consumed.
pub open spec fn remaining_bullets(ps: Seq<Player>, bs: Seq<Bullet>, k: int) -> Seq<Bullet>
    decreases k,
{
    if k <= 0 {
        Seq::empty()
    } else {
        let rest = remaining_bullets(ps, bs, k - 1);
        if bullet_hit_tank(ps, bs, k - 1) {
            rest
        } else {
            rest.push(bs[k - 1])
        }
    }
}

/// Whether player `i`'s live tank touches some bullet.
fn tank_touches_bullets(players: &Vec<Player>, bullets: &Vec<Bullet>, i: usize) -> (r: bool)
    requires
        i < players@.len(),
        forall|k: int| 0 <= k < players@.len() ==> (#[trigger] players@[k]).wf(),
        forall|k: int| 0 <= k < bullets@.len() ==> (#[trigger] bullets@[k]).wf(),
    ensures
        r == tank_hit_by_bullet(players@, bullets@, i as int),
{
    let p = players[i];
    match p.tank {
        None => false,
        Some(t) => {
            let nb = bullets.len();
            let mut k: usize = 0;
            while k < nb
                invariant
                    nb == bullets@.len(),
                    k <= nb,
                    i < players@.len(),
                    players@[i as int].tank is Some,
                    t == players@[i as int].tank->Some_0,
                    t.wf(),
                    forall|m: int| 0 <= m < nb ==> (#[trigger] bullets@[m]).wf(),
                    forall|m: int|
                        #![trigger bullets@[m]]
                        0 <= m < k ==> !circles_touching(
                            t.position,
                            t.radius as int,
                            bullets@[m].position,
                            bullets@[m].radius as int,
                        ),
                decreases nb - k,
            {
                let b = bullets[k];
                if circles_touch(t.position, t.radius, b.position, b.radius) {
                    return true;
                }
                k = k + 1;
            }
            false
        },
    }
}

/// Whether bullet `k` touches some live tank.
fn bullet_touches_tanks(players: &Vec<Player>, bullets: &Vec<Bullet>, k: usize) -> (r: bool)
    requires
        k < bullets@.len(),
        forall|m: int| 0 <= m < players@.len() ==> (#[trigger] players@[m]).wf(),
        forall|m: int| 0 <= m < bullets@.len() ==> (#[trigger] bullets@[m]).wf(),
    ensures
        r == bullet_hit_tank(players@, bullets@, k as int),
{
    let b = bullets[k];
    let np = players.len();
    let mut i: usize = 0;
    while i < np
        invariant
            np == players@.len(),
            i <= np,
            k < bullets@.len(),
            b == bullets@[k as int],
            b.wf(),
            forall|m: int| 0 <= m < np ==> (#[trigger] players@[m]).wf(),
            forall|m: int|
                #![trigger players@[m]]
                0 <= m < i ==> !(players@[m].tank is Some && circles_touching(
                    players@[m].tank->Some_0.position,
                    players@[m].tank->Some_0.radius as int,
                    b.position,
                    b.radius as int,
                )),
        decreases np - i,
    {
        let p = players[i];
        match p.tank {
            None => (),
            Some(t) => {
                if circles_touch(t.position, t.radius, b.position, b.radius) {
                    return true;
                }
            },
        }
        i = i + 1;
    }
    false
}

/// Destroys every tank a bullet touches (a death against its owner) and
/// consumes the bullet.
pub fn tank_bullet_collision(players: &mut Vec<Player>, bullets: &mut Vec<Bullet>)
    requires
        forall|i: int| 0 <= i < old(players)@.len() ==> (#[trigger] old(players)@[i]).wf(),
        forall|i: int| 0 <= i < old(bullets)@.len() ==> (#[trigger] old(bullets)@[i]).wf(),
    ensures
        final(players)@.len() == old(players)@.len(),
        forall|i: int|
            #![auto]
            0 <= i < old(players)@.len() ==> final(players)@[i] == (if tank_hit_by_bullet(
                old(players)@,
                old(bullets)@,
                i,
            ) {
                spec_died(old(players)@[i])
            } else {
                old(players)@[i]
            }),
        final(bullets)@ == remaining_bullets(old(players)@, old(bullets)@, old(bullets)@.len() as int),
        forall|i: int| 0 <= i < final(players)@.len() ==> (#[trigger] final(players)@[i]).wf(),
        forall|i: int| 0 <= i < final(bullets)@.len() ==> (#[trigger] final(bullets)@[i]).wf(),
        forall|i: int|
            #![auto]
            0 <= i < old(players)@.len() ==> final(players)@[i].port == old(players)@[i].port
                && final(players)@[i].secret == old(players)@[i].secret,
{
    let np = players.len();
    let nb = bullets.len();
    // which tanks are hit, judged against the pass-start state
    let mut tank_flag: Vec<bool> = Vec::new();
    let mut i: usize = 0;
    while i < np
        invariant
            np == players@.len(),
            nb == bullets@.len(),
            i <= np,
            players@ == old(players)@,
            bullets@ == old(bullets)@,
            tank_flag@.len() == i,
            forall|k: int|
                #![auto]
                0 <= k < i ==> tank_flag@[k] == tank_hit_by_bullet(players@, bullets@, k),
            forall|k: int| 0 <= k < np ==> (#[trigger] players@[k]).wf(),
            forall|k: int| 0 <= k < nb ==> (#[trigger] bullets@[k]).wf(),
        decreases np - i,
    {
        let h = tank_touches_bullets(players, bullets, i);
        tank_flag.push(h);
        i = i + 1;
    }
    // consume every bullet that hit, keeping the others in order
    let mut out: Vec<Bullet> = Vec::new();
    let mut k: usize = 0;
    while k < nb
        invariant
            np == players@.len(),
            nb == bullets@.len(),
            k <= nb,
            players@ == old(players)@,
            bullets@ == old(bullets)@,
            out@ == remaining_bullets(players@, bullets@, k as int),
            forall|m: int| 0 <= m < np ==> (#[trigger] players@[m]).wf(),
            forall|m: int| 0 <= m < nb ==> (#[trigger] bullets@[m]).wf(),
            forall|m: int| 0 <= m < out@.len() ==> (#[trigger] out@[m]).wf(),
        decreases nb - k,
    {
        let b = bullets[k];
        let h = bullet_touches_tanks(players, bullets, k);
        if !h {
            out.push(b);
        }
        k = k + 1;
    }
    // kill the marked tanks
    let mut i: usize = 0;
    while i < np
        invariant
            np == players@.len(),
            i <= np,
            players@.len() == old(players)@.len(),
            tank_flag@.len() == np,
            forall|k2: int|
                #![auto]
                0 <= k2 < np ==> tank_flag@[k2] == tank_hit_by_bullet(
                    old(players)@,
                    old(bullets)@,
                    k2,
                ),
            forall|k2: int| 0 <= k2 < np ==> (#[trigger] old(players)@[k2]).wf(),
            forall|j: int| i <= j < np ==> players@[j] == old(players)@[j],
            forall|j: int|
                #![auto]
                0 <= j < i ==> players@[j] == (if tank_hit_by_bullet(
                    old(players)@,
                    old(bullets)@,
                    j,
                ) {
                    spec_died(old(players)@[j])
                } else {
                    old(players)@[j]
                }),
            forall|j: int| 0 <= j < i ==> (#[trigger] players@[j]).wf(),
        decreases np - i,
    {
        proof {
            assert(old(players)@[i as int].wf());
        }
        if tank_flag[i] {
            let mut p = players[i];
            p.reset_input();
            p.deaths = if p.deaths == u32::MAX {
                u32::MAX
            } else {
                p.deaths + 1
            };
            p.respawn_timer = Some(0);
            p.tank = None;
            players[i] = p;
        }
        i = i + 1;
    }
    *bullets = out;
}

} // verus!

verus! {

/// One bullet-wall encounter: a bullet overlapping the segment has its
/// velocity reflected about the wall's outward normal and its bounce
/// counter raised (the counter saturates just past the largest budget,
/// which never masks a destruction).
pub open spec fn spec_bounce(b: Bullet, w: Wall) -> Bullet {
    if wall_overlap(b.position, b.radius as int, w) {
        Bullet {
            velocity: crate::entities::spec_reflect(b.velocity, w.normal),
            bounces: if b.bounces <= BOUNCE_LIMIT {
                (b.bounces + 1) as i8
            } else {
                b.bounces
            },
            ..b
        }
    } else {
        b
    }
}

/// The bullet after meeting the first `k` walls in order.
pub open spec fn spec_bounce_all(b: Bullet, ws: Seq<Wall>, k: int) -> Bullet
    decreases k,
{
    if k <= 0 {
        b
    } else {
        spec_bounce(spec_bounce_all(b, ws, k - 1), ws[k - 1])
    }
}

/// The bullets that survive the wall pass, in order, each with its bounces
/// applied: a bullet whose counter passes its budget is destroyed.
pub open spec fn after_wall_bounces(bs: Seq<Bullet>, ws: Seq<Wall>, k: int) -> Seq<Bullet>
    decreases k,
{
    if k <= 0 {
        Seq::empty()
    } else {
        let rest = after_wall_bounces(bs, ws, k - 1);
        let b = spec_bounce_all(bs[k - 1], ws, ws.len() as int);
        if b.bounces <= b.max_bounces {
            rest.push(b)
        } else {
            rest
        }
    }
}

/// The bounce budget is exact: a bullet that has bounced as often as its
/// budget allows is still alive, and one more qualifying bounce pushes its
/// counter past the budget, which destroys it; without a qualifying bounce
/// it flies on unchanged.
pub proof fn lemma_bounce_budget(b: Bullet, w: Wall)
    requires
        b.wf(),
        b.bounces == b.max_bounces,
    ensures
        b.bounces <= b.max_bounces,
        wall_overlap(b.position, b.radius as int, w) ==> spec_bounce(b, w).bounces > spec_bounce(
            b,
            w,
        ).max_bounces,
        !wall_overlap(b.position, b.radius as int, w) ==> spec_bounce(b, w) == b,
{
}

/// Reflects every bullet off every wall it overlaps, in wall order, and
/// destroys the bullets whose bounce counters pass their budgets.
pub fn bullet_wall_collision(bullets: &mut Vec<Bullet>, walls: &Vec<Wall>)
    requires
        forall|i: int| 0 <= i < old(bullets)@.len() ==> (#[trigger] old(bullets)@[i]).wf(),
        forall|i: int| 0 <= i < walls@.len() ==> (#[trigger] walls@[i]).wf(),
    ensures
        final(bullets)@ == after_wall_bounces(old(bullets)@, walls@, old(bullets)@.len() as int),
        forall|i: int| 0 <= i < final(bullets)@.len() ==> (#[trigger] final(bullets)@[i]).wf(),
{
    let nb = bullets.len();
    let nw = walls.len();
    let mut out: Vec<Bullet> = Vec::new();
    let mut i: usize = 0;
    while i < nb
        invariant
            nb == bullets@.len(),
            nw == walls@.len(),
            i <= nb,
            bullets@ == old(bullets)@,
            forall|m: int| 0 <= m < nb ==> (#[trigger] bullets@[m]).wf(),
            forall|m: int| 0 <= m < nw ==> (#[trigger] walls@[m]).wf(),
            out@ == after_wall_bounces(bullets@, walls@, i as int),
            forall|m: int| 0 <= m < out@.len() ==> (#[trigger] out@[m]).wf(),
        decreases nb - i,
    {
        let mut b = bullets[i];
        let mut j: usize = 0;
        while j < nw
            invariant
                nw == walls@.len(),
                j <= nw,
                i < bullets@.len(),
                forall|m: int| 0 <= m < nw ==> (#[trigger] walls@[m]).wf(),
                bullets@[i as int].wf(),
                b == spec_bounce_all(bullets@[i as int], walls@, j as int),
                b.wf(),
            decreases nw - j,
        {
            let w = walls[j];
            let (ind, out_d) = wall_dists(b.position, &w);
            if -(w.half_length + b.radius) <= ind && ind <= w.half_length + b.radius && out_d
                < b.radius {
                b.reflect(w.normal);
                if b.bounces <= BOUNCE_LIMIT {
                    b.bounces = b.bounces + 1;
                }
            }
            j = j + 1;
        }
        if b.bounces <= b.max_bounces {
            out.push(b);
        }
        i = i + 1;
    }
    proof {
        assert(out@ == after_wall_bounces(old(bullets)@, walls@, old(bullets)@.len() as int));
    }
    *bullets = out;
}

} // verus!
