//! The simulation world and the fixed-tick game loop: drain decoded inputs,
//! authenticate and apply controls, integrate motion, resolve collisions,
//! do the post-tick bookkeeping (respawn, shoot cooldown, shooting,
//! inactivity eviction), and build the per-player broadcast.

use vstd::prelude::*;
use crate::collision::{
    after_wall_bounces, bullet_bullet_collision, bullet_wall_collision, remaining_bullets,
    spec_died, spec_tank_wall, tank_bullet_collision, tank_hit_by_bullet, tank_hit_by_tank,
    tank_tank_collision, tank_wall_collision, WALL_COUNT_LIMIT,
};
use crate::entities::{
    Bullet, Config, Player, Spawn, Tank, Wall, DT_LIMIT, POS_LIMIT, RADIUS_LIMIT, VEL_LIMIT,
};
use crate::fixed::{
    clamp_i64, cos_mrad, div_t, div_trunc, lemma_div_t_scaled, lemma_mul_bound, norm_angle,
    sin_mrad, spec_clamp, spec_cos, spec_sin, Vec2, SCALE, TAU_MRAD,
};
use crate::map::GameMap;
use crate::motion::{
    apply_controls, move_bullets, move_tanks, spec_apply_controls, spec_move_bullet,
    spec_move_tank, spec_update_turret, update_turrets,
};
use crate::session::{
    connect_rel, control_rel, evict, handle_connect, handle_control, pick_spawn,
    player_disconnect, players_wf, respawn_tank, spawn_pos_ok, spawns_wf,
};

verus! {

/// All live state the server owns: tuning, static map geometry, connected
/// players (each owning its tank and turret), and free-flying bullets.
pub struct World {
    pub config: Config,
    pub walls: Vec<Wall>,
    pub spawns: Vec<Spawn>,
    pub players: Vec<Player>,
    pub bullets: Vec<Bullet>,
}

impl World {
    pub open spec fn wf(self) -> bool {
        &&& self.config.wf()
        &&& forall|i: int| 0 <= i < self.walls@.len() ==> (#[trigger] self.walls@[i]).wf()
        &&& self.walls@.len() <= WALL_COUNT_LIMIT
        &&& spawns_wf(self.spawns@)
        &&& players_wf(self.players@)
        &&& forall|i: int| 0 <= i < self.bullets@.len() ==> (#[trigger] self.bullets@[i]).wf()
    }

    /// A world with a loaded map and no one connected yet.
    pub fn new(config: Config, map: GameMap) -> (r: World)
        requires
            config.wf(),
            map.wf(),
        ensures
            r.wf(),
            r.config == config,
            r.walls == map.walls,
            r.spawns == map.spawns,
            r.players@.len() == 0,
            r.bullets@.len() == 0,
    {
        World { config, walls: map.walls, spawns: map.spawns, players: Vec::new(), bullets: Vec::new() }
    }
}

/// The timer after `dt` more milliseconds, saturating at the top.
pub open spec fn saturating_add_u64(t: u64, dt: u64) -> u64 {
    if t + dt > u64::MAX {
        u64::MAX
    } else {
        (t + dt) as u64
    }
}

/// How one respawn pass takes a player list `ps0` to `ps1`: every respawn
/// countdown grows by `dt`; whoever reaches the configured delay gets a
/// fresh tank at some spawn position and a cleared countdown.
pub open spec fn respawn_rel(
    ps0: Seq<Player>,
    ps1: Seq<Player>,
    spawns: Seq<Spawn>,
    config: Config,
    dt: u64,
) -> bool {
    &&& ps1.len() == ps0.len()
    &&& forall|i: int|
        #![trigger ps0[i]]
        0 <= i < ps0.len() ==> {
            let p = ps0[i];
            match p.respawn_timer {
                None => ps1[i] == p,
                Some(t0) => {
                    let t1 = saturating_add_u64(t0, dt);
                    if t1 >= config.respawn_delay {
                        exists|pos: Vec2|
                            #![auto]
                            spawn_pos_ok(spawns, pos) && ps1[i] == (Player {
                                respawn_timer: None,
                                tank: Some(respawn_tank(p, pos)),
                                ..p
                            })
                    } else {
                        ps1[i] == (Player { respawn_timer: Some(t1), ..p })
                    }
                },
            }
        }
}

/// Respawns every dead player whose countdown has run out, at a spawn
/// point, with a fresh tank built from its captured limits; a countdown
/// still running just accumulates.
pub fn player_respawn(players: &mut Vec<Player>, spawns: &Vec<Spawn>, config: &Config, dt: u64)
    requires
        players_wf(old(players)@),
        spawns_wf(spawns@),
    ensures
        players_wf(final(players)@),
        respawn_rel(old(players)@, final(players)@, spawns@, *config, dt),
{
    let n = players.len();
    let mut i: usize = 0;
    while i < n
        invariant
            n == players@.len(),
            i <= n,
            players@.len() == old(players)@.len(),
            players_wf(old(players)@),
            spawns_wf(spawns@),
            players_wf(players@),
            forall|j: int| i <= j < n ==> players@[j] == old(players)@[j],
            forall|j: int|
                #![trigger old(players)@[j]]
                0 <= j < i ==> {
                    let p = old(players)@[j];
                    match p.respawn_timer {
                        None => players@[j] == p,
                        Some(t0) => {
                            let t1 = saturating_add_u64(t0, dt);
                            if t1 >= config.respawn_delay {
                                exists|pos: Vec2|
                                    #![auto]
                                    spawn_pos_ok(spawns@, pos) && players@[j] == (Player {
                                        respawn_timer: None,
                                        tank: Some(respawn_tank(p, pos)),
                                        ..p
                                    })
                            } else {
                                players@[j] == (Player { respawn_timer: Some(t1), ..p })
                            }
                        },
                    }
                },
        decreases n - i,
    {
        let mut p = players[i];
        proof {
            assert(old(players)@[i as int].wf());
        }
        match p.respawn_timer {
            None => (),
            Some(t0) => {
                let t1 = if t0 > u64::MAX - dt {
                    u64::MAX
                } else {
                    t0 + dt
                };
                if t1 >= config.respawn_delay {
                    let position = pick_spawn(spawns);
                    p.respawn_timer = None;
                    p.tank = Some(
                        Tank::new(
                            position,
                            p.tank_radius,
                            p.track_max_velocity,
                            p.turret_max_velocity,
                        ),
                    );
                    players[i] = p;
                    proof {
                        assert(players@[i as int] == (Player {
                            respawn_timer: None,
                            tank: Some(respawn_tank(old(players)@[i as int], position)),
                            ..old(players)@[i as int]
                        }));
                    }
                } else {
                    p.respawn_timer = Some(t1);
                    players[i] = p;
                }
            },
        }
        proof {
            assert(forall|j: int|
                0 <= j < players@.len() ==> players@[j].port == old(players)@[j].port && players@[
                    j
                ].secret == old(players)@[j].secret);
        }
        i = i + 1;
    }
}

/// The player with its shoot cooldown charged by `dt`: a cooldown that
/// reaches the configured delay clears, permitting the next shot.
pub open spec fn spec_cooldown(p: Player, dt: u64) -> Player {
    match p.shoot_timer {
        None => p,
        Some(t0) => {
            let t1 = saturating_add_u64(t0, dt);
            if t1 >= p.shoot_delay {
                Player { shoot_timer: None, ..p }
            } else {
                Player { shoot_timer: Some(t1), ..p }
            }
        },
    }
}

/// Charges every running shoot cooldown by `dt`.
pub fn shoot_countdown(players: &mut Vec<Player>, dt: u64)
    requires
        players_wf(old(players)@),
    ensures
        players_wf(final(players)@),
        final(players)@.len() == old(players)@.len(),
        forall|i: int|
            0 <= i < old(players)@.len() ==> final(players)@[i] == spec_cooldown(
                #[trigger] old(players)@[i],
                dt,
            ),
{
    let n = players.len();
    let mut i: usize = 0;
    while i < n
        invariant
            n == players@.len(),
            i <= n,
            players@.len() == old(players)@.len(),
            players_wf(old(players)@),
            players_wf(players@),
            forall|j: int| i <= j < n ==> players@[j] == old(players)@[j],
            forall|j: int|
                0 <= j < i ==> players@[j] == spec_cooldown(#[trigger] old(players)@[j], dt),
        decreases n - i,
    {
        let mut p = players[i];
        proof {
            assert(old(players)@[i as int].wf());
        }
        match p.shoot_timer {
            None => (),
            Some(t0) => {
                let t1 = if t0 > u64::MAX - dt {
                    u64::MAX
                } else {
                    t0 + dt
                };
                if t1 >= p.shoot_delay {
                    p.shoot_timer = None;
                } else {
                    p.shoot_timer = Some(t1);
                }
                players[i] = p;
            },
        }
        proof {
            assert(forall|j: int|
                0 <= j < players@.len() ==> players@[j].port == old(players)@[j].port && players@[
                    j
                ].secret == old(players)@[j].secret);
        }
        i = i + 1;
    }
}

/// Whether the player fires this tick: shoot flag set, no cooldown running,
/// and a live tank to fire from.
pub open spec fn wants_shot(p: Player) -> bool {
    p.tank is Some && p.shoot && p.shoot_timer is None
}

/// The world-space heading for an angle: the unit vector the tank's nose
/// points along, scaled by `SCALE`.
pub open spec fn spec_forward(a: int) -> Vec2 {
    Vec2 { x: (-spec_sin(a)) as i64, y: spec_cos(a) as i64 }
}

/// The bullet a player fires: placed at the turret muzzle (one tank radius
/// plus one bullet radius ahead of the tank center, along the turret's
/// world heading), flying along that heading at the player's bullet speed.
pub open spec fn spec_new_bullet(p: Player) -> Bullet
    recommends
        wants_shot(p),
{
    let t = p.tank->Some_0;
    let a = (t.angle + t.turret.angle) % (TAU_MRAD as int);
    let dx = -spec_sin(a);
    let dy = spec_cos(a);
    Bullet {
        position: Vec2 {
            x: spec_clamp(
                t.position.x + div_t(dx * (t.radius + p.bullet_radius), SCALE as int),
                -POS_LIMIT as int,
                POS_LIMIT as int,
            ) as i64,
            y: spec_clamp(
                t.position.y + div_t(dy * (t.radius + p.bullet_radius), SCALE as int),
                -POS_LIMIT as int,
                POS_LIMIT as int,
            ) as i64,
        },
        velocity: Vec2 {
            x: div_t(dx * p.bullet_speed, SCALE as int) as i64,
            y: div_t(dy * p.bullet_speed, SCALE as int) as i64,
        },
        radius: p.bullet_radius,
        bounces: 0,
        max_bounces: p.bullet_max_bounces,
    }
}

/// The bullets fired by the first `k` players this tick, in player order.
pub open spec fn spawned_bullets(ps: Seq<Player>, k: int) -> Seq<Bullet>
    decreases k,
{
    if k <= 0 {
        Seq::empty()
    } else {
        let rest = spawned_bullets(ps, k - 1);
        if wants_shot(ps[k - 1]) {
            rest.push(spec_new_bullet(ps[k - 1]))
        } else {
            rest
        }
    }
}

/// Spawns a bullet for every player whose shoot flag is set and whose
/// cooldown has elapsed, then clears the flag and starts the cooldown.
pub fn shoot_bullets(players: &mut Vec<Player>, bullets: &mut Vec<Bullet>)
    requires
        players_wf(old(players)@),
        forall|i: int| 0 <= i < old(bullets)@.len() ==> (#[trigger] old(bullets)@[i]).wf(),
    ensures
        players_wf(final(players)@),
        final(players)@.len() == old(players)@.len(),
        forall|i: int|
            #![auto]
            0 <= i < old(players)@.len() ==> final(players)@[i] == (if wants_shot(
                old(players)@[i],
            ) {
                Player { shoot: false, shoot_timer: Some(0u64), ..old(players)@[i] }
            } else {
                old(players)@[i]
            }),
        final(bullets)@ == old(bullets)@ + spawned_bullets(
            old(players)@,
            old(players)@.len() as int,
        ),
        forall|i: int| 0 <= i < final(bullets)@.len() ==> (#[trigger] final(bullets)@[i]).wf(),
{
    let n = players.len();
    let mut i: usize = 0;
    proof {
        assert(bullets@ =~= old(bullets)@ + spawned_bullets(old(players)@, 0));
    }
    while i < n
        invariant
            n == players@.len(),
            i <= n,
            players@.len() == old(players)@.len(),
            players_wf(old(players)@),
            players_wf(players@),
            forall|j: int| i <= j < n ==> players@[j] == old(players)@[j],
            forall|j: int|
                #![auto]
                0 <= j < i ==> players@[j] == (if wants_shot(old(players)@[j]) {
                    Player { shoot: false, shoot_timer: Some(0u64), ..old(players)@[j] }
                } else {
                    old(players)@[j]
                }),
            bullets@ == old(bullets)@ + spawned_bullets(old(players)@, i as int),
            forall|j: int| 0 <= j < bullets@.len() ==> (#[trigger] bullets@[j]).wf(),
        decreases n - i,
    {
        let mut p = players[i];
        proof {
            assert(old(players)@[i as int].wf());
        }
        match p.tank {
            None => (),
            Some(t) => {
                if p.shoot && p.shoot_timer.is_none() {
                    let a = norm_angle(t.angle + t.turret.angle);
                    let sin_a = sin_mrad(a);
                    let cos_a = cos_mrad(a);
                    let reach = t.radius + p.bullet_radius;
                    proof {
                        lemma_mul_bound(
                            -sin_a as int,
                            reach as int,
                            SCALE as int,
                            2 * (RADIUS_LIMIT as int),
                        );
                        lemma_mul_bound(
                            cos_a as int,
                            reach as int,
                            SCALE as int,
                            2 * (RADIUS_LIMIT as int),
                        );
                        lemma_div_t_scaled(
                            (-sin_a as int) * (reach as int),
                            SCALE as int,
                            2 * (RADIUS_LIMIT as int),
                        );
                        lemma_div_t_scaled(
                            (cos_a as int) * (reach as int),
                            SCALE as int,
                            2 * (RADIUS_LIMIT as int),
                        );
                        lemma_mul_bound(
                            -sin_a as int,
                            p.bullet_speed as int,
                            SCALE as int,
                            VEL_LIMIT as int,
                        );
                        lemma_mul_bound(
                            cos_a as int,
                            p.bullet_speed as int,
                            SCALE as int,
                            VEL_LIMIT as int,
                        );
                        lemma_div_t_scaled(
                            (-sin_a as int) * (p.bullet_speed as int),
                            SCALE as int,
                            VEL_LIMIT as int,
                        );
                        lemma_div_t_scaled(
                            (cos_a as int) * (p.bullet_speed as int),
                            SCALE as int,
                            VEL_LIMIT as int,
                        );
                    }
                    let b = Bullet {
                        position: Vec2 {
                            x: clamp_i64(
                                t.position.x + div_trunc(-sin_a * reach, SCALE),
                                -POS_LIMIT,
                                POS_LIMIT,
                            ),
                            y: clamp_i64(
                                t.position.y + div_trunc(cos_a * reach, SCALE),
                                -POS_LIMIT,
                                POS_LIMIT,
                            ),
                        },
                        velocity: Vec2 {
                            x: div_trunc(-sin_a * p.bullet_speed, SCALE),
                            y: div_trunc(cos_a * p.bullet_speed, SCALE),
                        },
                        radius: p.bullet_radius,
                        bounces: 0,
                        max_bounces: p.bullet_max_bounces,
                    };
                    proof {
                        assert(b == spec_new_bullet(old(players)@[i as int]));
                    }
                    bullets.push(b);
                    p.shoot = false;
                    p.shoot_timer = Some(0);
                    players[i] = p;
                    proof {
                        assert(bullets@ =~= old(bullets)@ + spawned_bullets(
                            old(players)@,
                            i + 1,
                        ));
                    }
                }
            },
        }
        proof {
            assert(forall|j: int|
                0 <= j < players@.len() ==> players@[j].port == old(players)@[j].port && players@[
                    j
                ].secret == old(players)@[j].secret);
            assert(bullets@ =~= old(bullets)@ + spawned_bullets(old(players)@, i + 1));
        }
        i = i + 1;
    }
}

/// One tank entry of the broadcast: position, body heading and turret
/// heading, all in world space.
#[derive(Debug, Clone, Copy, PartialEq, Eq, Structural)]
pub struct TankSnapshot {
    pub position: Vec2,
    pub tank_direction: Vec2,
    pub turret_direction: Vec2,
}

/// One bullet entry of the broadcast: position and velocity direction.
#[derive(Debug, Clone, Copy, PartialEq, Eq, Structural)]
pub struct BulletSnapshot {
    pub position: Vec2,
    pub direction: Vec2,
}

pub open spec fn spec_tank_snapshot(t: Tank) -> TankSnapshot {
    TankSnapshot {
        position: t.position,
        tank_direction: spec_forward(t.angle as int),
        turret_direction: spec_forward((t.angle + t.turret.angle) % (TAU_MRAD as int)),
    }
}

/// The snapshots of the live tanks of the first `k` players, in order.
pub open spec fn live_tank_snapshots(ps: Seq<Player>, k: int) -> Seq<TankSnapshot>
    decreases k,
{
    if k <= 0 {
        Seq::empty()
    } else {
        let rest = live_tank_snapshots(ps, k - 1);
        match ps[k - 1].tank {
            Some(t) => rest.push(spec_tank_snapshot(t)),
            None => rest,
        }
    }
}

/// Builds the broadcast for this tick: who receives it (every connected
/// player, stamped with its own secret, and nobody else), and the one
/// snapshot of all live tanks and bullets that every recipient gets.
pub fn send_state(players: &Vec<Player>, bullets: &Vec<Bullet>) -> (r: (
    Vec<(u16, u128)>,
    Vec<TankSnapshot>,
    Vec<BulletSnapshot>,
))
    requires
        forall|i: int| 0 <= i < players@.len() ==> (#[trigger] players@[i]).wf(),
    ensures
        r.0@.len() == players@.len(),
        forall|i: int|
            #![auto]
            0 <= i < players@.len() ==> r.0@[i] == (players@[i].port, players@[i].secret),
        r.1@ == live_tank_snapshots(players@, players@.len() as int),
        r.2@.len() == bullets@.len(),
        forall|i: int|
            #![auto]
            0 <= i < bullets@.len() ==> r.2@[i] == (BulletSnapshot {
                position: bullets@[i].position,
                direction: bullets@[i].velocity,
            }),
{
    let n = players.len();
    let mut recipients: Vec<(u16, u128)> = Vec::new();
    let mut tanks: Vec<TankSnapshot> = Vec::new();
    let mut i: usize = 0;
    while i < n
        invariant
            n == players@.len(),
            i <= n,
            forall|j: int| 0 <= j < n ==> (#[trigger] players@[j]).wf(),
            recipients@.len() == i,
            forall|j: int|
                #![auto]
                0 <= j < i ==> recipients@[j] == (players@[j].port, players@[j].secret),
            tanks@ == live_tank_snapshots(players@, i as int),
        decreases n - i,
    {
        let p = players[i];
        proof {
            assert(players@[i as int].wf());
        }
        recipients.push((p.port, p.secret));
        match p.tank {
            None => (),
            Some(t) => {
                let a = norm_angle(t.angle + t.turret.angle);
                let snap = TankSnapshot {
                    position: t.position,
                    tank_direction: Vec2 { x: -sin_mrad(t.angle), y: cos_mrad(t.angle) },
                    turret_direction: Vec2 { x: -sin_mrad(a), y: cos_mrad(a) },
                };
                proof {
                    assert(snap == spec_tank_snapshot(t));
                }
                tanks.push(snap);
            },
        }
        i = i + 1;
    }
    let nb = bullets.len();
    let mut out_bullets: Vec<BulletSnapshot> = Vec::new();
    let mut k: usize = 0;
    while k < nb
        invariant
            nb == bullets@.len(),
            k <= nb,
            out_bullets@.len() == k,
            forall|j: int|
                #![auto]
                0 <= j < k ==> out_bullets@[j] == (BulletSnapshot {
                    position: bullets@[j].position,
                    direction: bullets@[j].velocity,
                }),
        decreases nb - k,
    {
        let b = bullets[k];
        out_bullets.push(BulletSnapshot { position: b.position, direction: b.velocity });
        k = k + 1;
    }
    (recipients, tanks, out_bullets)
}

/// One decoded and unit-converted inbound datagram, tagged with the UDP
/// source port the transport reported.
#[derive(Debug, Clone, Copy, PartialEq, Eq, Structural)]
pub enum Inbound {
    Connect { source_port: u16, self_port: u16 },
    Control {
        source_port: u16,
        self_port: u16,
        secret: u128,
        tracks_acceleration_target: Vec2,
        turret_acceleration_target: i64,
        shoot: bool,
    },
}

/// Every player's clamped control targets applied to its live tank.
pub open spec fn spec_apply_controls_all(ps: Seq<Player>) -> Seq<Player> {
    Seq::new(ps.len(), |i: int| spec_apply_controls(ps[i]))
}

/// Every live tank integrated by one tick.
pub open spec fn spec_move_tanks_all(ps: Seq<Player>, dt: u64) -> Seq<Player> {
    Seq::new(
        ps.len(),
        |i: int|
            match ps[i].tank {
                Some(t) => Player { tank: Some(spec_move_tank(t, dt as int)), ..ps[i] },
                None => ps[i],
            },
    )
}

/// Every live tank's turret rotated by one tick.
pub open spec fn spec_update_turrets_all(ps: Seq<Player>, dt: u64) -> Seq<Player> {
    Seq::new(
        ps.len(),
        |i: int|
            match ps[i].tank {
                Some(t) => Player {
                    tank: Some(Tank { turret: spec_update_turret(t.turret, dt as int), ..t }),
                    ..ps[i]
                },
                None => ps[i],
            },
    )
}

/// Every bullet moved by one tick.
pub open spec fn spec_move_bullets_all(bs: Seq<Bullet>, dt: u64) -> Seq<Bullet> {
    Seq::new(bs.len(), |i: int| spec_move_bullet(bs[i], dt as int))
}

/// Every live tank pushed out of the walls it overlaps.
pub open spec fn spec_tank_wall_all(ps: Seq<Player>, walls: Seq<Wall>) -> Seq<Player> {
    Seq::new(
        ps.len(),
        |i: int|
            match ps[i].tank {
                Some(t) => Player { tank: Some(spec_tank_wall(t, walls)), ..ps[i] },
                None => ps[i],
            },
    )
}

/// Every pair of touching tanks destroyed, a death against each owner.
pub open spec fn spec_tank_tank_all(ps: Seq<Player>) -> Seq<Player> {
    Seq::new(
        ps.len(),
        |i: int|
            if tank_hit_by_tank(ps, i) {
                spec_died(ps[i])
            } else {
                ps[i]
            },
    )
}

/// Every tank a bullet touches destroyed, a death against its owner.
pub open spec fn spec_tank_bullet_all(ps: Seq<Player>, bs: Seq<Bullet>) -> Seq<Player> {
    Seq::new(
        ps.len(),
        |i: int|
            if tank_hit_by_bullet(ps, bs, i) {
                spec_died(ps[i])
            } else {
                ps[i]
            },
    )
}

/// Every running shoot cooldown charged by `dt`.
pub open spec fn spec_cooldown_all(ps: Seq<Player>, dt: u64) -> Seq<Player> {
    Seq::new(ps.len(), |i: int| spec_cooldown(ps[i], dt))
}

/// Every firing player's shoot flag cleared and its cooldown started.
pub open spec fn spec_shot_all(ps: Seq<Player>) -> Seq<Player> {
    Seq::new(
        ps.len(),
        |i: int|
            if wants_shot(ps[i]) {
                Player { shoot: false, shoot_timer: Some(0u64), ..ps[i] }
            } else {
                ps[i]
            },
    )
}

/// How one drained datagram takes a player list `ps0` to `ps1`.
pub open spec fn inbound_step(
    ps0: Seq<Player>,
    ps1: Seq<Player>,
    spawns: Seq<Spawn>,
    config: Config,
    ev: Inbound,
) -> bool {
    match ev {
        Inbound::Connect { source_port, self_port } => connect_rel(
            ps0,
            ps1,
            spawns,
            config,
            source_port,
            self_port,
        ),
        Inbound::Control {
            source_port,
            self_port,
            secret,
            tracks_acceleration_target,
            turret_acceleration_target,
            shoot,
        } => control_rel(
            ps0,
            ps1,
            source_port,
            self_port,
            secret,
            tracks_acceleration_target,
            turret_acceleration_target,
            shoot,
        ),
    }
}

/// How the whole drained queue, applied in arrival order, takes a player
/// list `ps0` to `ps1`.
pub open spec fn inbound_rel(
    ps0: Seq<Player>,
    ps1: Seq<Player>,
    spawns: Seq<Spawn>,
    config: Config,
    evs: Seq<Inbound>,
) -> bool
    decreases evs.len(),
{
    if evs.len() == 0 {
        ps1 == ps0
    } else {
        exists|mid: Seq<Player>|
            #![auto]
            inbound_rel(ps0, mid, spawns, config, evs.drop_last()) && inbound_step(
                mid,
                ps1,
                spawns,
                config,
                evs.last(),
            )
    }
}

/// The deterministic middle of a tick: clamped controls applied; tank,
/// turret and bullet motion integrated; and the collision passes run in the
/// canonical order (tank-wall, tank-tank, tank-bullet, bullet-wall,
/// bullet-bullet, the last inert).  Returns the players and the bullets as
/// they stand before the post-tick bookkeeping.
pub open spec fn spec_integrate_and_collide(
    ps: Seq<Player>,
    bs: Seq<Bullet>,
    walls: Seq<Wall>,
    dt: u64,
) -> (Seq<Player>, Seq<Bullet>) {
    let ps_controlled = spec_apply_controls_all(ps);
    let ps_moved = spec_move_tanks_all(ps_controlled, dt);
    let ps_turned = spec_update_turrets_all(ps_moved, dt);
    let bs_moved = spec_move_bullets_all(bs, dt);
    let ps_pushed = spec_tank_wall_all(ps_turned, walls);
    let ps_rammed = spec_tank_tank_all(ps_pushed);
    let ps_hit = spec_tank_bullet_all(ps_rammed, bs_moved);
    let bs_left = remaining_bullets(ps_rammed, bs_moved, bs_moved.len() as int);
    let bs_bounced = after_wall_bounces(bs_left, walls, bs_left.len() as int);
    (ps_hit, bs_bounced)
}

/// The post-tick bookkeeping after the respawn draws: shoot cooldowns
/// charged, pending shots fired (the new bullets appended in player order),
/// and the inactive evicted.
pub open spec fn spec_post_tick(ps: Seq<Player>, bs: Seq<Bullet>, config: Config, dt: u64) -> (
    Seq<Player>,
    Seq<Bullet>,
) {
    let ps_cooled = spec_cooldown_all(ps, dt);
    let bs_all = bs + spawned_bullets(ps_cooled, ps_cooled.len() as int);
    let ps_fired = spec_shot_all(ps_cooled);
    (evict(ps_fired, config.inactivity_timeout, dt), bs_all)
}

/// One fixed tick of the authoritative loop, in the canonical order: apply
/// the drained inputs, copy controls onto the tanks, integrate tank, turret
/// and bullet motion, resolve collisions (tank-wall, tank-tank,
/// tank-bullet, bullet-wall, bullet-bullet), then the post-tick
/// bookkeeping: respawns, shoot cooldowns, new shots, inactivity eviction.
/// The caller builds the broadcast afterwards with `send_state`.
pub fn tick(world: &mut World, inbound: &Vec<Inbound>, dt: u64)
    requires
        old(world).wf(),
        dt <= DT_LIMIT,
    ensures
        final(world).wf(),
        final(world).config == old(world).config,
        final(world).walls == old(world).walls,
        final(world).spawns == old(world).spawns,
        exists|ps_in: Seq<Player>, ps_resp: Seq<Player>|
            {
                &&& #[trigger] inbound_rel(
                    old(world).players@,
                    ps_in,
                    old(world).spawns@,
                    old(world).config,
                    inbound@,
                )
                &&& #[trigger] respawn_rel(
                    spec_integrate_and_collide(
                        ps_in,
                        old(world).bullets@,
                        old(world).walls@,
                        dt,
                    ).0,
                    ps_resp,
                    old(world).spawns@,
                    old(world).config,
                    dt,
                )
                &&& (final(world).players@, final(world).bullets@) == spec_post_tick(
                    ps_resp,
                    spec_integrate_and_collide(
                        ps_in,
                        old(world).bullets@,
                        old(world).walls@,
                        dt,
                    ).1,
                    old(world).config,
                    dt,
                )
            },
{
    let n = inbound.len();
    let mut i: usize = 0;
    proof {
        assert(inbound@.subrange(0, 0) =~= Seq::<Inbound>::empty());
    }
    while i < n
        invariant
            n == inbound@.len(),
            i <= n,
            world.config == old(world).config,
            world.walls == old(world).walls,
            world.spawns == old(world).spawns,
            world.bullets == old(world).bullets,
            old(world).wf(),
            players_wf(world.players@),
            inbound_rel(
                old(world).players@,
                world.players@,
                old(world).spawns@,
                old(world).config,
                inbound@.subrange(0, i as int),
            ),
        decreases n - i,
    {
        let ghost prev = world.players@;
        match inbound[i] {
            Inbound::Connect { source_port, self_port } => {
                handle_connect(
                    &mut world.players,
                    &world.spawns,
                    &world.config,
                    source_port,
                    self_port,
                );
                proof {
                    assert(inbound_step(
                        prev,
                        world.players@,
                        old(world).spawns@,
                        old(world).config,
                        inbound@[i as int],
                    ));
                }
            },
            Inbound::Control {
                source_port,
                self_port,
                secret,
                tracks_acceleration_target,
                turret_acceleration_target,
                shoot,
            } => {
                handle_control(
                    &mut world.players,
                    source_port,
                    self_port,
                    secret,
                    tracks_acceleration_target,
                    turret_acceleration_target,
                    shoot,
                );
                proof {
                    assert(inbound_step(
                        prev,
                        world.players@,
                        old(world).spawns@,
                        old(world).config,
                        inbound@[i as int],
                    ));
                }
            },
        }
        proof {
            assert(inbound@.subrange(0, i + 1).drop_last() =~= inbound@.subrange(0, i as int));
            assert(inbound@.subrange(0, i + 1).last() == inbound@[i as int]);
            assert(inbound_rel(
                old(world).players@,
                world.players@,
                old(world).spawns@,
                old(world).config,
                inbound@.subrange(0, i + 1),
            ));
        }
        i = i + 1;
    }
    proof {
        assert(inbound@.subrange(0, n as int) =~= inbound@);
    }
    let ghost bs0 = world.bullets@;
    let ghost ps_a = world.players@;
    apply_controls(&mut world.players);
    proof {
        crate::session::lemma_uniqueness_carries(ps_a, world.players@);
    }
    let ghost ps_b = world.players@;
    move_tanks(&mut world.players, dt);
    proof {
        crate::session::lemma_uniqueness_carries(ps_b, world.players@);
    }
    let ghost ps_c = world.players@;
    update_turrets(&mut world.players, dt);
    proof {
        crate::session::lemma_uniqueness_carries(ps_c, world.players@);
    }
    move_bullets(&mut world.bullets, dt);
    let ghost bs1 = world.bullets@;
    let ghost ps_d = world.players@;
    tank_wall_collision(&mut world.players, &world.walls);
    proof {
        crate::session::lemma_uniqueness_carries(ps_d, world.players@);
    }
    let ghost ps_e = world.players@;
    tank_tank_collision(&mut world.players);
    proof {
        crate::session::lemma_uniqueness_carries(ps_e, world.players@);
    }
    let ghost ps_f = world.players@;
    tank_bullet_collision(&mut world.players, &mut world.bullets);
    proof {
        crate::session::lemma_uniqueness_carries(ps_f, world.players@);
    }
    let ghost ps_g = world.players@;
    let ghost bs2 = world.bullets@;
    bullet_wall_collision(&mut world.bullets, &world.walls);
    bullet_bullet_collision(&mut world.bullets);
    let ghost bs3 = world.bullets@;
    player_respawn(&mut world.players, &world.spawns, &world.config, dt);
    let ghost ps_resp = world.players@;
    shoot_countdown(&mut world.players, dt);
    let ghost ps_h = world.players@;
    shoot_bullets(&mut world.players, &mut world.bullets);
    let ghost ps_i = world.players@;
    player_disconnect(&mut world.players, &world.config, dt);
    proof {
        let cfg = old(world).config;
        let wls = old(world).walls@;
        assert(ps_b =~= spec_apply_controls_all(ps_a));
        assert(ps_c =~= spec_move_tanks_all(ps_b, dt));
        assert(ps_d =~= spec_update_turrets_all(ps_c, dt));
        assert(bs1 =~= spec_move_bullets_all(bs0, dt));
        assert(ps_e =~= spec_tank_wall_all(ps_d, wls));
        assert(ps_f =~= spec_tank_tank_all(ps_e));
        assert(ps_g =~= spec_tank_bullet_all(ps_f, bs1));
        assert(bs2 == remaining_bullets(ps_f, bs1, bs1.len() as int));
        assert(bs3 == after_wall_bounces(bs2, wls, bs2.len() as int));
        assert(spec_integrate_and_collide(ps_a, bs0, wls, dt) == (ps_g, bs3));
        assert(ps_h =~= spec_cooldown_all(ps_resp, dt));
        assert(ps_i =~= spec_shot_all(ps_h));
        assert(world.bullets@ == bs3 + spawned_bullets(ps_h, ps_h.len() as int));
        assert(world.players@ == evict(ps_i, cfg.inactivity_timeout, dt));
        assert(respawn_rel(
            spec_integrate_and_collide(ps_a, bs0, wls, dt).0,
            ps_resp,
            old(world).spawns@,
            cfg,
            dt,
        ));
        assert((world.players@, world.bullets@) == spec_post_tick(
            ps_resp,
            spec_integrate_and_collide(ps_a, bs0, wls, dt).1,
            cfg,
            dt,
        ));
    }
}

} // verus!
