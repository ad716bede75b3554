//! Motion integration for one fixed tick: clamped track and turret
//! acceleration, differential-drive tank kinematics with the pivot fallback
//! for a degenerate turn radius, and straight-line bullet flight.

use vstd::prelude::*;
use crate::entities::{Bullet, Player, Tank, Turret, DT_LIMIT, POS_LIMIT, RADIUS_LIMIT, VEL_LIMIT};
use crate::fixed::{
    clamp_i64, cos_mrad, div_t, div_trunc, div_trunc_s, div_ts, lemma_div_t_bound,
    lemma_div_ts_bound, lemma_mul_bound, norm_angle, sin_mrad, spec_clamp, spec_cos, spec_sin,
    Vec2, SCALE, TAU_MRAD,
};

verus! {

/// Acceleration targets clamped into the per-player range, then applied to
/// the tank's tracks and turret.
pub open spec fn spec_apply_controls(p: Player) -> Player {
    match p.tank {
        None => p,
        Some(t) => Player {
            tank: Some(
                Tank {
                    track_accelerations: Vec2 {
                        x: spec_clamp(
                            p.tracks_acceleration_target.x as int,
                            -p.track_max_acceleration.x as int,
                            p.track_max_acceleration.x as int,
                        ) as i64,
                        y: spec_clamp(
                            p.tracks_acceleration_target.y as int,
                            -p.track_max_acceleration.y as int,
                            p.track_max_acceleration.y as int,
                        ) as i64,
                    },
                    turret: Turret {
                        acceleration: spec_clamp(
                            p.turret_acceleration_target as int,
                            -p.turret_max_acceleration as int,
                            p.turret_max_acceleration as int,
                        ) as i64,
                        ..t.turret
                    },
                    ..t
                },
            ),
            ..p
        },
    }
}

/// Copies every player's clamped control targets onto its live tank.
pub fn apply_controls(players: &mut Vec<Player>)
    requires
        forall|i: int| 0 <= i < old(players)@.len() ==> #[trigger] old(players)@[i].wf(),
    ensures
        final(players)@.len() == old(players)@.len(),
        forall|i: int|
            0 <= i < old(players)@.len() ==> final(players)@[i] == spec_apply_controls(
                #[trigger] old(players)@[i],
            ),
        forall|i: int| 0 <= i < final(players)@.len() ==> #[trigger] final(players)@[i].wf(),
{
    let n = players.len();
    let mut i: usize = 0;
    while i < n
        invariant
            n == players@.len(),
            i <= n,
            players@.len() == old(players)@.len(),
            forall|j: int| i <= j < n ==> players@[j] == old(players)@[j],
            forall|j: int|
                0 <= j < i ==> players@[j] == spec_apply_controls(#[trigger] old(players)@[j]),
            forall|j: int| 0 <= j < n ==> #[trigger] old(players)@[j].wf(),
            forall|j: int| 0 <= j < i ==> #[trigger] players@[j].wf(),
        decreases n - i,
    {
        let mut p = players[i];
        proof {
            assert(old(players)@[i as int].wf());
        }
        match p.tank {
            None => (),
            Some(t) => {
                let mut t = t;
                t.track_accelerations = Vec2 {
                    x: clamp_i64(
                        p.tracks_acceleration_target.x,
                        -p.track_max_acceleration.x,
                        p.track_max_acceleration.x,
                    ),
                    y: clamp_i64(
                        p.tracks_acceleration_target.y,
                        -p.track_max_acceleration.y,
                        p.track_max_acceleration.y,
                    ),
                };
                t.turret.acceleration = clamp_i64(
                    p.turret_acceleration_target,
                    -p.turret_max_acceleration,
                    p.turret_max_acceleration,
                );
                p.tank = Some(t);
                players[i] = p;
            },
        }
        i = i + 1;
    }
}

/// Track velocities after one tick: acceleration integrated, then clamped
/// into the per-component maximum.
pub open spec fn spec_integrate_tracks(t: Tank, dt: int) -> Vec2 {
    Vec2 {
        x: spec_clamp(
            t.track_velocities.x + div_t(t.track_accelerations.x * dt, SCALE as int),
            -t.track_max_velocity.x as int,
            t.track_max_velocity.x as int,
        ) as i64,
        y: spec_clamp(
            t.track_velocities.y + div_t(t.track_accelerations.y * dt, SCALE as int),
            -t.track_max_velocity.y as int,
            t.track_max_velocity.y as int,
        ) as i64,
    }
}

/// One tick of differential-drive motion.
///
/// Equal track velocities move the tank straight along its heading.
/// Unequal ones rotate it about a pivot offset sideways by the tank radius
/// plus a turn radius derived from the slower track; a turn radius that
/// truncates to zero (turning in place) falls back to a step driven by the
/// other track about a pivot offset by the full width, which avoids the
/// division by zero.
pub open spec fn spec_move_tank(t: Tank, dt: int) -> Tank {
    let v = spec_integrate_tracks(t, dt);
    if v.x == v.y {
        let avg = div_t(v.x + v.y, 2);
        let px = spec_clamp(
            t.position.x + div_t(-spec_sin(t.angle as int) * avg * dt, 1_000_000),
            -POS_LIMIT as int,
            POS_LIMIT as int,
        ) as i64;
        let py = spec_clamp(
            t.position.y + div_t(spec_cos(t.angle as int) * avg * dt, 1_000_000),
            -POS_LIMIT as int,
            POS_LIMIT as int,
        ) as i64;
        Tank { position: Vec2 { x: px, y: py }, track_velocities: v, ..t }
    } else {
        let radius = div_ts(2 * t.radius * v.y, v.x - v.y);
        let step = if radius != 0 {
            div_ts(v.y * dt * (SCALE as int), (TAU_MRAD as int) * radius)
        } else {
            div_t(v.x * dt * (SCALE as int), (TAU_MRAD as int) * (2 * t.radius + radius))
        };
        let axis_x = t.position.x + div_t(spec_cos(t.angle as int) * (t.radius + radius), SCALE as int);
        let axis_y = t.position.y + div_t(spec_sin(t.angle as int) * (t.radius + radius), SCALE as int);
        let relx = t.position.x - axis_x;
        let rely = t.position.y - axis_y;
        let phi = (-step) % (TAU_MRAD as int);
        let c = spec_cos(phi);
        let s = spec_sin(phi);
        let px = spec_clamp(
            axis_x + div_t(relx * c - rely * s, SCALE as int),
            -POS_LIMIT as int,
            POS_LIMIT as int,
        ) as i64;
        let py = spec_clamp(
            axis_y + div_t(relx * s + rely * c, SCALE as int),
            -POS_LIMIT as int,
            POS_LIMIT as int,
        ) as i64;
        let na = ((t.angle - step) % (TAU_MRAD as int)) as i64;
        Tank { position: Vec2 { x: px, y: py }, angle: na, track_velocities: v, ..t }
    }
}

/// Track velocity after integration never exceeds the configured maximum,
/// component-wise, whatever acceleration input is stored on the tank.
pub proof fn lemma_track_velocity_clamped(t: Tank, dt: int)
    requires
        0 <= t.track_max_velocity.x,
        0 <= t.track_max_velocity.y,
    ensures
        -t.track_max_velocity.x <= spec_move_tank(t, dt).track_velocities.x
            <= t.track_max_velocity.x,
        -t.track_max_velocity.y <= spec_move_tank(t, dt).track_velocities.y
            <= t.track_max_velocity.y,
{
}

/// Integrates one tank by one tick.
fn move_tank(t: &mut Tank, dt: u64)
    requires
        old(t).wf(),
        dt <= DT_LIMIT,
    ensures
        *final(t) == spec_move_tank(*old(t), dt as int),
        final(t).wf(),
{
    let dti = dt as i64;
    proof {
        lemma_mul_bound(t.track_accelerations.x as int, dti as int, VEL_LIMIT as int, DT_LIMIT as int);
        lemma_mul_bound(t.track_accelerations.y as int, dti as int, VEL_LIMIT as int, DT_LIMIT as int);
        lemma_div_t_bound(
            t.track_accelerations.x * dti,
            SCALE as int,
            (VEL_LIMIT as int) * (DT_LIMIT as int),
        );
        lemma_div_t_bound(
            t.track_accelerations.y * dti,
            SCALE as int,
            (VEL_LIMIT as int) * (DT_LIMIT as int),
        );
    }
    let vx = clamp_i64(
        t.track_velocities.x + div_trunc(t.track_accelerations.x * dti, SCALE),
        -t.track_max_velocity.x,
        t.track_max_velocity.x,
    );
    let vy = clamp_i64(
        t.track_velocities.y + div_trunc(t.track_accelerations.y * dti, SCALE),
        -t.track_max_velocity.y,
        t.track_max_velocity.y,
    );
    let v = Vec2 { x: vx, y: vy };
    proof {
        assert(v == spec_integrate_tracks(*old(t), dt as int));
    }
    let sin_a = sin_mrad(t.angle);
    let cos_a = cos_mrad(t.angle);
    if vx == vy {
        let avg = div_trunc(vx + vy, 2);
        proof {
            lemma_div_t_bound(vx + vy, 2, 2 * (VEL_LIMIT as int));
            lemma_mul_bound(-sin_a as int, avg as int, SCALE as int, 2 * (VEL_LIMIT as int));
            lemma_mul_bound(
                -sin_a * avg,
                dti as int,
                2 * (SCALE as int) * (VEL_LIMIT as int),
                DT_LIMIT as int,
            );
            lemma_mul_bound(cos_a as int, avg as int, SCALE as int, 2 * (VEL_LIMIT as int));
            lemma_mul_bound(
                cos_a * avg,
                dti as int,
                2 * (SCALE as int) * (VEL_LIMIT as int),
                DT_LIMIT as int,
            );
            lemma_div_t_bound(
                -sin_a * avg * dti,
                1_000_000,
                2 * (SCALE as int) * (VEL_LIMIT as int) * (DT_LIMIT as int),
            );
            lemma_div_t_bound(
                cos_a * avg * dti,
                1_000_000,
                2 * (SCALE as int) * (VEL_LIMIT as int) * (DT_LIMIT as int),
            );
        }
        let px = clamp_i64(
            t.position.x + div_trunc(-sin_a * avg * dti, 1_000_000),
            -POS_LIMIT,
            POS_LIMIT,
        );
        let py = clamp_i64(
            t.position.y + div_trunc(cos_a * avg * dti, 1_000_000),
            -POS_LIMIT,
            POS_LIMIT,
        );
        t.position = Vec2 { x: px, y: py };
        t.track_velocities = v;
    } else {
        proof {
            lemma_mul_bound(2 * (t.radius as int), vy as int, 2 * (RADIUS_LIMIT as int), VEL_LIMIT as int);
            lemma_div_ts_bound(
                2 * (t.radius as int) * (vy as int),
                vx as int - vy as int,
                2 * (RADIUS_LIMIT as int) * (VEL_LIMIT as int),
            );
        }
        let radius = div_trunc_s(2 * t.radius * vy, vx - vy);
        let step: i64;
        proof {
            lemma_mul_bound(vy as int, dti as int, VEL_LIMIT as int, DT_LIMIT as int);
            lemma_mul_bound(
                vy * dti,
                SCALE as int,
                (VEL_LIMIT as int) * (DT_LIMIT as int),
                SCALE as int,
            );
            lemma_mul_bound(vx as int, dti as int, VEL_LIMIT as int, DT_LIMIT as int);
            lemma_mul_bound(
                vx * dti,
                SCALE as int,
                (VEL_LIMIT as int) * (DT_LIMIT as int),
                SCALE as int,
            );
            lemma_mul_bound(
                TAU_MRAD as int,
                radius as int,
                TAU_MRAD as int,
                2 * (RADIUS_LIMIT as int) * (VEL_LIMIT as int),
            );
        }
        if radius != 0 {
            proof {
                lemma_div_ts_bound(
                    (vy as int) * (dti as int) * (SCALE as int),
                    (TAU_MRAD as int) * (radius as int),
                    (VEL_LIMIT as int) * (DT_LIMIT as int) * (SCALE as int),
                );
            }
            step = div_trunc_s(vy * dti * SCALE, TAU_MRAD * radius);
        } else {
            proof {
                lemma_div_t_bound(
                    (vx as int) * (dti as int) * (SCALE as int),
                    (TAU_MRAD as int) * (2 * (t.radius as int) + radius as int),
                    (VEL_LIMIT as int) * (DT_LIMIT as int) * (SCALE as int),
                );
            }
            step = div_trunc(vx * dti * SCALE, TAU_MRAD * (2 * t.radius + radius));
        }
        let ghost m1 = (RADIUS_LIMIT as int) + 2 * (RADIUS_LIMIT as int) * (VEL_LIMIT as int);
        proof {
            lemma_mul_bound(cos_a as int, t.radius as int + radius as int, SCALE as int, m1);
            lemma_mul_bound(sin_a as int, t.radius as int + radius as int, SCALE as int, m1);
            crate::fixed::lemma_div_t_scaled(
                (cos_a as int) * (t.radius as int + radius as int),
                SCALE as int,
                m1,
            );
            crate::fixed::lemma_div_t_scaled(
                (sin_a as int) * (t.radius as int + radius as int),
                SCALE as int,
                m1,
            );
        }
        let axis_x = t.position.x + div_trunc(cos_a * (t.radius + radius), SCALE);
        let axis_y = t.position.y + div_trunc(sin_a * (t.radius + radius), SCALE);
        let relx = t.position.x - axis_x;
        let rely = t.position.y - axis_y;
        let phi = norm_angle(-step);
        let c = cos_mrad(phi);
        let s = sin_mrad(phi);
        proof {
            lemma_mul_bound(relx as int, c as int, m1, SCALE as int);
            lemma_mul_bound(rely as int, s as int, m1, SCALE as int);
            lemma_mul_bound(relx as int, s as int, m1, SCALE as int);
            lemma_mul_bound(rely as int, c as int, m1, SCALE as int);
            crate::fixed::lemma_div_t_scaled(
                (relx as int) * (c as int) - (rely as int) * (s as int),
                SCALE as int,
                2 * m1,
            );
            crate::fixed::lemma_div_t_scaled(
                (relx as int) * (s as int) + (rely as int) * (c as int),
                SCALE as int,
                2 * m1,
            );
        }
        let px = clamp_i64(
            axis_x + div_trunc(relx * c - rely * s, SCALE),
            -POS_LIMIT,
            POS_LIMIT,
        );
        let py = clamp_i64(
            axis_y + div_trunc(relx * s + rely * c, SCALE),
            -POS_LIMIT,
            POS_LIMIT,
        );
        let na = norm_angle(t.angle - step);
        t.position = Vec2 { x: px, y: py };
        t.angle = na;
        t.track_velocities = v;
    }
}

/// Integrates every live tank by one tick.
pub fn move_tanks(players: &mut Vec<Player>, dt: u64)
    requires
        forall|i: int| 0 <= i < old(players)@.len() ==> #[trigger] old(players)@[i].wf(),
        dt <= DT_LIMIT,
    ensures
        final(players)@.len() == old(players)@.len(),
        forall|i: int|
            0 <= i < old(players)@.len() ==> final(players)@[i] == (match old(players)@[i].tank {
                Some(t) => Player { tank: Some(spec_move_tank(t, dt as int)), ..#[trigger] old(
                    players,
                )@[i] },
                None => old(players)@[i],
            }),
        forall|i: int| 0 <= i < final(players)@.len() ==> #[trigger] final(players)@[i].wf(),
{
    let n = players.len();
    let mut i: usize = 0;
    while i < n
        invariant
            n == players@.len(),
            i <= n,
            players@.len() == old(players)@.len(),
            dt <= DT_LIMIT,
            forall|j: int| i <= j < n ==> players@[j] == old(players)@[j],
            forall|j: int|
                0 <= j < i ==> players@[j] == (match old(players)@[j].tank {
                    Some(t) => Player { tank: Some(spec_move_tank(t, dt as int)), ..#[trigger] old(
                        players,
                    )@[j] },
                    None => old(players)@[j],
                }),
            forall|j: int| 0 <= j < n ==> #[trigger] old(players)@[j].wf(),
            forall|j: int| 0 <= j < i ==> #[trigger] players@[j].wf(),
        decreases n - i,
    {
        let mut p = players[i];
        proof {
            assert(old(players)@[i as int].wf());
        }
        match p.tank {
            None => (),
            Some(t) => {
                let mut t = t;
                move_tank(&mut t, dt);
                p.tank = Some(t);
                players[i] = p;
            },
        }
        i = i + 1;
    }
}

/// One tick of turret rotation: clamped angular acceleration integrates
/// into angular velocity, which turns the turret about its mount.
pub open spec fn spec_update_turret(u: Turret, dt: int) -> Turret {
    let v = spec_clamp(
        u.velocity + div_t(u.acceleration * dt, SCALE as int),
        -u.max_velocity as int,
        u.max_velocity as int,
    ) as i64;
    let a = ((u.angle + div_t(v * dt, SCALE as int)) % (TAU_MRAD as int)) as i64;
    Turret { angle: a, velocity: v, ..u }
}

/// Rotates every live tank's turret by one tick.
pub fn update_turrets(players: &mut Vec<Player>, dt: u64)
    requires
        forall|i: int| 0 <= i < old(players)@.len() ==> #[trigger] old(players)@[i].wf(),
        dt <= DT_LIMIT,
    ensures
        final(players)@.len() == old(players)@.len(),
        forall|i: int|
            0 <= i < old(players)@.len() ==> final(players)@[i] == (match old(players)@[i].tank {
                Some(t) => Player {
                    tank: Some(Tank { turret: spec_update_turret(t.turret, dt as int), ..t }),
                    ..#[trigger] old(players)@[i]
                },
                None => old(players)@[i],
            }),
        forall|i: int| 0 <= i < final(players)@.len() ==> #[trigger] final(players)@[i].wf(),
{
    let dti = dt as i64;
    let n = players.len();
    let mut i: usize = 0;
    while i < n
        invariant
            n == players@.len(),
            i <= n,
            players@.len() == old(players)@.len(),
            dti == dt,
            dt <= DT_LIMIT,
            forall|j: int| i <= j < n ==> players@[j] == old(players)@[j],
            forall|j: int|
                0 <= j < i ==> players@[j] == (match old(players)@[j].tank {
                    Some(t) => Player {
                        tank: Some(Tank { turret: spec_update_turret(t.turret, dt as int), ..t }),
                        ..#[trigger] old(players)@[j]
                    },
                    None => old(players)@[j],
                }),
            forall|j: int| 0 <= j < n ==> #[trigger] old(players)@[j].wf(),
            forall|j: int| 0 <= j < i ==> #[trigger] players@[j].wf(),
        decreases n - i,
    {
        let mut p = players[i];
        proof {
            assert(old(players)@[i as int].wf());
        }
        match p.tank {
            None => (),
            Some(t) => {
                let mut t = t;
                proof {
                    lemma_mul_bound(
                        t.turret.acceleration as int,
                        dti as int,
                        VEL_LIMIT as int,
                        DT_LIMIT as int,
                    );
                    lemma_div_t_bound(
                        (t.turret.acceleration as int) * (dti as int),
                        SCALE as int,
                        (VEL_LIMIT as int) * (DT_LIMIT as int),
                    );
                }
                let v = clamp_i64(
                    t.turret.velocity + div_trunc(t.turret.acceleration * dti, SCALE),
                    -t.turret.max_velocity,
                    t.turret.max_velocity,
                );
                proof {
                    lemma_mul_bound(v as int, dti as int, VEL_LIMIT as int, DT_LIMIT as int);
                    lemma_div_t_bound(
                        (v as int) * (dti as int),
                        SCALE as int,
                        (VEL_LIMIT as int) * (DT_LIMIT as int),
                    );
                }
                let a = norm_angle(t.turret.angle + div_trunc(v * dti, SCALE));
                t.turret = Turret { angle: a, velocity: v, ..t.turret };
                p.tank = Some(t);
                players[i] = p;
            },
        }
        i = i + 1;
    }
}

/// One tick of bullet flight: no acceleration, position integrates straight
/// from the velocity.
pub open spec fn spec_move_bullet(b: Bullet, dt: int) -> Bullet {
    Bullet {
        position: Vec2 {
            x: spec_clamp(
                b.position.x + div_t(b.velocity.x * dt, SCALE as int),
                -POS_LIMIT as int,
                POS_LIMIT as int,
            ) as i64,
            y: spec_clamp(
                b.position.y + div_t(b.velocity.y * dt, SCALE as int),
                -POS_LIMIT as int,
                POS_LIMIT as int,
            ) as i64,
        },
        ..b
    }
}

/// Moves every bullet by one tick.
pub fn move_bullets(bullets: &mut Vec<Bullet>, dt: u64)
    requires
        forall|i: int| 0 <= i < old(bullets)@.len() ==> #[trigger] old(bullets)@[i].wf(),
        dt <= DT_LIMIT,
    ensures
        final(bullets)@.len() == old(bullets)@.len(),
        forall|i: int|
            0 <= i < old(bullets)@.len() ==> final(bullets)@[i] == spec_move_bullet(
                #[trigger] old(bullets)@[i],
                dt as int,
            ),
        forall|i: int| 0 <= i < final(bullets)@.len() ==> #[trigger] final(bullets)@[i].wf(),
{
    let dti = dt as i64;
    let n = bullets.len();
    let mut i: usize = 0;
    while i < n
        invariant
            n == bullets@.len(),
            i <= n,
            bullets@.len() == old(bullets)@.len(),
            dti == dt,
            dt <= DT_LIMIT,
            forall|j: int| i <= j < n ==> bullets@[j] == old(bullets)@[j],
            forall|j: int|
                0 <= j < i ==> bullets@[j] == spec_move_bullet(
                    #[trigger] old(bullets)@[j],
                    dt as int,
                ),
            forall|j: int| 0 <= j < n ==> #[trigger] old(bullets)@[j].wf(),
            forall|j: int| 0 <= j < i ==> #[trigger] bullets@[j].wf(),
        decreases n - i,
    {
        let mut b = bullets[i];
        proof {
            assert(old(bullets)@[i as int].wf());
            lemma_mul_bound(b.velocity.x as int, dti as int, VEL_LIMIT as int, DT_LIMIT as int);
            lemma_mul_bound(b.velocity.y as int, dti as int, VEL_LIMIT as int, DT_LIMIT as int);
            lemma_div_t_bound(
                (b.velocity.x as int) * (dti as int),
                SCALE as int,
                (VEL_LIMIT as int) * (DT_LIMIT as int),
            );
            lemma_div_t_bound(
                (b.velocity.y as int) * (dti as int),
                SCALE as int,
                (VEL_LIMIT as int) * (DT_LIMIT as int),
            );
        }
        b.position = Vec2 {
            x: clamp_i64(
                b.position.x + div_trunc(b.velocity.x * dti, SCALE),
                -POS_LIMIT,
                POS_LIMIT,
            ),
            y: clamp_i64(
                b.position.y + div_trunc(b.velocity.y * dti, SCALE),
                -POS_LIMIT,
                POS_LIMIT,
            ),
        };
        bullets[i] = b;
        i = i + 1;
    }
}

} // verus!
