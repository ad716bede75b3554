//! The live entities of the simulation: players, tanks, turrets, bullets,
//! walls and spawn points, with the invariants every tick preserves.

use vstd::prelude::*;
use crate::fixed::{
    clamp_i64, div_t, div_trunc, in_range, spec_clamp, Vec2, SCALE, TAU_MRAD,
};

verus! {

/// Positions never leave `[-POS_LIMIT, POS_LIMIT]` on either axis.
pub const POS_LIMIT: i64 = 100_000_000;

/// Velocities, accelerations and angular rates are bounded by this.
pub const VEL_LIMIT: i64 = 10_000_000;

/// Collision radii are bounded by this.
pub const RADIUS_LIMIT: i64 = 1_000_000;

/// A tick never spans more than this many milliseconds.
pub const DT_LIMIT: u64 = 10_000;

/// A bullet survives at most this many bounces.
pub const BOUNCE_LIMIT: i8 = 100;

/// The numeric tuning parameters of the server.  Times are milliseconds,
/// lengths milli-units, speeds milli-units (or milliradians) per second.
#[derive(Debug, Clone, Copy, PartialEq, Eq, Structural)]
pub struct Config {
    pub inactivity_timeout: u64,
    pub respawn_delay: u64,
    pub tank_radius: i64,
    pub track_max_velocity: Vec2,
    pub track_max_acceleration: Vec2,
    pub turret_max_velocity: i64,
    pub turret_max_acceleration: i64,
    pub shoot_delay: u64,
    pub bullet_radius: i64,
    pub bullet_speed: i64,
    pub bullet_max_bounces: i8,
    pub physics_steps: u8,
}

impl Config {
    /// Every limit within the ranges the fixed-point arithmetic is proved for.
    pub open spec fn wf(self) -> bool {
        &&& 0 < self.tank_radius <= RADIUS_LIMIT
        &&& 0 <= self.track_max_velocity.x <= VEL_LIMIT
        &&& 0 <= self.track_max_velocity.y <= VEL_LIMIT
        &&& 0 <= self.track_max_acceleration.x <= VEL_LIMIT
        &&& 0 <= self.track_max_acceleration.y <= VEL_LIMIT
        &&& 0 <= self.turret_max_velocity <= VEL_LIMIT
        &&& 0 <= self.turret_max_acceleration <= VEL_LIMIT
        &&& 0 < self.bullet_radius <= RADIUS_LIMIT
        &&& 0 <= self.bullet_speed <= VEL_LIMIT
        &&& 0 <= self.bullet_max_bounces <= BOUNCE_LIMIT
    }
}

impl Default for Config {
    /// The stock tuning used when no configuration file overrides it.
    fn default() -> (r: Config)
        ensures
            r.wf(),
            r.inactivity_timeout == 5000,
            r.respawn_delay == 5000,
            r.tank_radius == 12_000,
            r.track_max_velocity == (Vec2 { x: 500_000i64, y: 500_000i64 }),
            r.track_max_acceleration == (Vec2 { x: 100_000i64, y: 100_000i64 }),
            r.turret_max_velocity == 300_000,
            r.turret_max_acceleration == 100_000,
            r.shoot_delay == 1000,
            r.bullet_radius == 5_000,
            r.bullet_speed == 100_000,
            r.bullet_max_bounces == 2,
            r.physics_steps == 8,
    {
        Config {
            inactivity_timeout: 5000,
            respawn_delay: 5000,
            tank_radius: 12_000,
            track_max_velocity: Vec2 { x: 500_000, y: 500_000 },
            track_max_acceleration: Vec2 { x: 100_000, y: 100_000 },
            turret_max_velocity: 300_000,
            turret_max_acceleration: 100_000,
            shoot_delay: 1000,
            bullet_radius: 5_000,
            bullet_speed: 100_000,
            bullet_max_bounces: 2,
            physics_steps: 8,
        }
    }
}

/// A turret, owned by one tank; its angle is relative to the tank body.
#[derive(Debug, Clone, Copy, PartialEq, Eq, Structural)]
pub struct Turret {
    /// Orientation relative to the tank body, milliradians in `[0, TAU_MRAD)`.
    pub angle: i64,
    /// Rotational speed, milliradians per second.
    pub velocity: i64,
    /// Rotational acceleration, milliradians per second squared.
    pub acceleration: i64,
    /// Largest allowed rotational speed.
    pub max_velocity: i64,
}

impl Turret {
    pub open spec fn wf(self) -> bool {
        &&& 0 <= self.angle < TAU_MRAD
        &&& 0 <= self.max_velocity <= VEL_LIMIT
        &&& -self.max_velocity <= self.velocity <= self.max_velocity
        &&& -VEL_LIMIT <= self.acceleration <= VEL_LIMIT
    }

    /// A turret at rest pointing with the tank body.
    pub fn new(max_velocity: i64) -> (r: Turret)
        requires
            0 <= max_velocity <= VEL_LIMIT,
        ensures
            r == (Turret { angle: 0i64, velocity: 0i64, acceleration: 0i64, max_velocity }),
            r.wf(),
    {
        Turret { angle: 0, velocity: 0, acceleration: 0, max_velocity }
    }
}

/// A tank, owned by one player while alive.
#[derive(Debug, Clone, Copy, PartialEq, Eq, Structural)]
pub struct Tank {
    /// Center position, milli-units.
    pub position: Vec2,
    /// Body heading, milliradians in `[0, TAU_MRAD)`.
    pub angle: i64,
    /// Velocities of the two tracks (x left, y right).
    pub track_velocities: Vec2,
    /// Accelerations of the two tracks.
    pub track_accelerations: Vec2,
    /// Radius of the collision circle.
    pub radius: i64,
    /// Largest allowed track velocities, component-wise.
    pub track_max_velocity: Vec2,
    /// The turret mounted on this tank.
    pub turret: Turret,
}

impl Tank {
    pub open spec fn wf(self) -> bool {
        &&& in_range(self.position, POS_LIMIT as int)
        &&& 0 <= self.angle < TAU_MRAD
        &&& 0 <= self.track_max_velocity.x <= VEL_LIMIT
        &&& 0 <= self.track_max_velocity.y <= VEL_LIMIT
        &&& -self.track_max_velocity.x <= self.track_velocities.x <= self.track_max_velocity.x
        &&& -self.track_max_velocity.y <= self.track_velocities.y <= self.track_max_velocity.y
        &&& -VEL_LIMIT <= self.track_accelerations.x <= VEL_LIMIT
        &&& -VEL_LIMIT <= self.track_accelerations.y <= VEL_LIMIT
        &&& 0 < self.radius <= RADIUS_LIMIT
        &&& self.turret.wf()
    }

    /// A tank at rest at `position`, heading straight up, turret aligned.
    pub fn new(position: Vec2, radius: i64, track_max_velocity: Vec2, turret_max_velocity: i64) -> (r:
        Tank)
        requires
            in_range(position, POS_LIMIT as int),
            0 < radius <= RADIUS_LIMIT,
            0 <= track_max_velocity.x <= VEL_LIMIT,
            0 <= track_max_velocity.y <= VEL_LIMIT,
            0 <= turret_max_velocity <= VEL_LIMIT,
        ensures
            r.wf(),
            r.position == position,
            r.angle == 0,
            r.track_velocities == (Vec2 { x: 0i64, y: 0i64 }),
            r.track_accelerations == (Vec2 { x: 0i64, y: 0i64 }),
            r.radius == radius,
            r.track_max_velocity == track_max_velocity,
            r.turret == (Turret {
                angle: 0i64,
                velocity: 0i64,
                acceleration: 0i64,
                max_velocity: turret_max_velocity,
            }),
    {
        Tank {
            position,
            angle: 0,
            track_velocities: Vec2 { x: 0, y: 0 },
            track_accelerations: Vec2 { x: 0, y: 0 },
            radius,
            track_max_velocity,
            turret: Turret::new(turret_max_velocity),
        }
    }
}

/// A bullet in flight; free-standing once fired.
#[derive(Debug, Clone, Copy, PartialEq, Eq, Structural)]
pub struct Bullet {
    /// Center position, milli-units.
    pub position: Vec2,
    /// Velocity vector, milli-units per second.
    pub velocity: Vec2,
    /// Radius of the collision circle.
    pub radius: i64,
    /// How many times this bullet has bounced so far.
    pub bounces: i8,
    /// How many bounces it survives.
    pub max_bounces: i8,
}

/// The new velocity after reflecting `v` about the scaled normal `n` and
/// clamping back into the velocity range.
pub open spec fn spec_reflect(v: Vec2, n: Vec2) -> Vec2 {
    let d = v.x * n.x + v.y * n.y;
    Vec2 {
        x: spec_clamp(v.x - div_t(2 * d * n.x, SCALE * SCALE), -VEL_LIMIT as int, VEL_LIMIT as int)
            as i64,
        y: spec_clamp(v.y - div_t(2 * d * n.y, SCALE * SCALE), -VEL_LIMIT as int, VEL_LIMIT as int)
            as i64,
    }
}

impl Bullet {
    pub open spec fn wf(self) -> bool {
        &&& in_range(self.position, POS_LIMIT as int)
        &&& in_range(self.velocity, VEL_LIMIT as int)
        &&& 0 < self.radius <= RADIUS_LIMIT
        &&& 0 <= self.max_bounces <= BOUNCE_LIMIT
        &&& 0 <= self.bounces <= BOUNCE_LIMIT + 1
    }

    /// A fresh bullet that has not bounced yet.
    pub fn new(position: Vec2, velocity: Vec2, radius: i64, max_bounces: i8) -> (r: Bullet)
        requires
            in_range(position, POS_LIMIT as int),
            in_range(velocity, VEL_LIMIT as int),
            0 < radius <= RADIUS_LIMIT,
            0 <= max_bounces <= BOUNCE_LIMIT,
        ensures
            r == (Bullet { position, velocity, radius, bounces: 0i8, max_bounces }),
            r.wf(),
    {
        Bullet { position, velocity, radius, bounces: 0, max_bounces }
    }

    /// Counts one bounce; true means the bullet still lives.
    pub fn add_bounce(&mut self) -> (alive: bool)
        requires
            old(self).wf(),
            old(self).bounces <= old(self).max_bounces,
        ensures
            *final(self) == (Bullet { bounces: (old(self).bounces + 1) as i8, ..*old(self) }),
            alive == (old(self).bounces + 1 <= old(self).max_bounces),
            final(self).wf(),
    {
        self.bounces = self.bounces + 1;
        self.bounces <= self.max_bounces
    }

    /// Reflects the velocity about a wall's outward normal (scaled by
    /// `SCALE`), clamping back into the velocity range.
    pub fn reflect(&mut self, normal: Vec2)
        requires
            old(self).wf(),
            in_range(normal, SCALE as int),
        ensures
            *final(self) == (Bullet { velocity: spec_reflect(old(self).velocity, normal), ..*old(
                self,
            ) }),
            final(self).wf(),
    {
        let v = self.velocity;
        proof {
            crate::fixed::lemma_mul_bound(
                v.x as int,
                normal.x as int,
                VEL_LIMIT as int,
                SCALE as int,
            );
            crate::fixed::lemma_mul_bound(
                v.y as int,
                normal.y as int,
                VEL_LIMIT as int,
                SCALE as int,
            );
        }
        let d = v.x * normal.x + v.y * normal.y;
        proof {
            crate::fixed::lemma_mul_bound(
                2 * (d as int),
                normal.x as int,
                4 * (VEL_LIMIT as int) * (SCALE as int),
                SCALE as int,
            );
            crate::fixed::lemma_mul_bound(
                2 * (d as int),
                normal.y as int,
                4 * (VEL_LIMIT as int) * (SCALE as int),
                SCALE as int,
            );
            crate::fixed::lemma_div_t_bound(
                2 * (d as int) * (normal.x as int),
                (SCALE as int) * (SCALE as int),
                4 * (VEL_LIMIT as int) * (SCALE as int) * (SCALE as int),
            );
            crate::fixed::lemma_div_t_bound(
                2 * (d as int) * (normal.y as int),
                (SCALE as int) * (SCALE as int),
                4 * (VEL_LIMIT as int) * (SCALE as int) * (SCALE as int),
            );
        }
        let rx = v.x - div_trunc(2 * d * normal.x, SCALE * SCALE);
        let ry = v.y - div_trunc(2 * d * normal.y, SCALE * SCALE);
        self.velocity = Vec2 {
            x: clamp_i64(rx, -VEL_LIMIT, VEL_LIMIT),
            y: clamp_i64(ry, -VEL_LIMIT, VEL_LIMIT),
        };
    }
}

/// A static wall segment, immutable once the map is loaded.
#[derive(Debug, Clone, Copy, PartialEq, Eq, Structural)]
pub struct Wall {
    /// Midpoint of the segment, milli-units.
    pub origin: Vec2,
    /// Unit direction along the segment, scaled by `SCALE`.
    pub direction: Vec2,
    /// Outward unit normal, scaled by `SCALE`.
    pub normal: Vec2,
    /// Half the segment length, milli-units.
    pub half_length: i64,
}

impl Wall {
    pub open spec fn wf(self) -> bool {
        &&& in_range(self.origin, POS_LIMIT as int)
        &&& in_range(self.direction, SCALE as int)
        &&& in_range(self.normal, SCALE as int)
        &&& 0 <= self.half_length <= 4 * POS_LIMIT
    }
}

/// A spawn point marker of the loaded map.
#[derive(Debug, Clone, Copy, PartialEq, Eq, Structural)]
pub struct Spawn {
    /// Where a tank spawned here is placed, milli-units.
    pub position: Vec2,
}

impl Spawn {
    pub open spec fn wf(self) -> bool {
        in_range(self.position, POS_LIMIT as int)
    }
}

/// A connected player: identity, timers, last inputs, limits captured at
/// connect time, and the tank while one is alive.
#[derive(Debug, Clone, Copy, PartialEq, Eq, Structural)]
pub struct Player {
    /// The port the player's messages come from and replies go to.
    pub port: u16,
    /// The 128-bit session secret proving authorship of control messages.
    pub secret: u128,
    /// Milliseconds since the last accepted control message.
    pub timeout: u64,
    /// How many times this player's tank was destroyed.
    pub deaths: u32,
    /// Milliseconds since death, while waiting to respawn.
    pub respawn_timer: Option<u64>,
    /// The tank, absent between death and respawn.
    pub tank: Option<Tank>,
    // Limits captured from the configuration at connect time.
    pub tank_radius: i64,
    pub track_max_velocity: Vec2,
    pub track_max_acceleration: Vec2,
    pub turret_max_velocity: i64,
    pub turret_max_acceleration: i64,
    pub shoot_delay: u64,
    pub bullet_radius: i64,
    pub bullet_speed: i64,
    pub bullet_max_bounces: i8,
    // Last accepted control inputs.
    pub tracks_acceleration_target: Vec2,
    pub turret_acceleration_target: i64,
    pub shoot: bool,
    /// Milliseconds since the last shot, while the cooldown runs.
    pub shoot_timer: Option<u64>,
}

impl Player {
    pub open spec fn wf(self) -> bool {
        &&& 0 < self.tank_radius <= RADIUS_LIMIT
        &&& 0 <= self.track_max_velocity.x <= VEL_LIMIT
        &&& 0 <= self.track_max_velocity.y <= VEL_LIMIT
        &&& 0 <= self.track_max_acceleration.x <= VEL_LIMIT
        &&& 0 <= self.track_max_acceleration.y <= VEL_LIMIT
        &&& 0 <= self.turret_max_velocity <= VEL_LIMIT
        &&& 0 <= self.turret_max_acceleration <= VEL_LIMIT
        &&& 0 < self.bullet_radius <= RADIUS_LIMIT
        &&& 0 <= self.bullet_speed <= VEL_LIMIT
        &&& 0 <= self.bullet_max_bounces <= BOUNCE_LIMIT
        &&& match self.tank {
            Some(t) => t.wf(),
            None => true,
        }
    }

    /// A fresh player with a tank at `position` and the limits of `config`.
    pub fn spawn(port: u16, secret: u128, position: Vec2, config: &Config) -> (r: Player)
        requires
            config.wf(),
            in_range(position, POS_LIMIT as int),
        ensures
            r.wf(),
            r.port == port,
            r.secret == secret,
            r.timeout == 0,
            r.deaths == 0,
            r.respawn_timer is None,
            r.tank is Some,
            r.tank matches Some(t) && t == Tank::spawned_at(position, *config),
            r.tank_radius == config.tank_radius,
            r.track_max_velocity == config.track_max_velocity,
            r.track_max_acceleration == config.track_max_acceleration,
            r.turret_max_velocity == config.turret_max_velocity,
            r.turret_max_acceleration == config.turret_max_acceleration,
            r.shoot_delay == config.shoot_delay,
            r.bullet_radius == config.bullet_radius,
            r.bullet_speed == config.bullet_speed,
            r.bullet_max_bounces == config.bullet_max_bounces,
            r.tracks_acceleration_target == (Vec2 { x: 0i64, y: 0i64 }),
            r.turret_acceleration_target == 0,
            !r.shoot,
            r.shoot_timer is None,
            r == Player::spawned(port, secret, position, *config),
    {
        Player {
            port,
            secret,
            timeout: 0,
            deaths: 0,
            respawn_timer: None,
            tank: Some(
                Tank::new(
                    position,
                    config.tank_radius,
                    config.track_max_velocity,
                    config.turret_max_velocity,
                ),
            ),
            tank_radius: config.tank_radius,
            track_max_velocity: config.track_max_velocity,
            track_max_acceleration: config.track_max_acceleration,
            turret_max_velocity: config.turret_max_velocity,
            turret_max_acceleration: config.turret_max_acceleration,
            shoot_delay: config.shoot_delay,
            bullet_radius: config.bullet_radius,
            bullet_speed: config.bullet_speed,
            bullet_max_bounces: config.bullet_max_bounces,
            tracks_acceleration_target: Vec2 { x: 0, y: 0 },
            turret_acceleration_target: 0,
            shoot: false,
            shoot_timer: None,
        }
    }

    /// Clears the last input given by the player.
    pub fn reset_input(&mut self)
        ensures
            *final(self) == (Player {
                shoot: false,
                tracks_acceleration_target: Vec2 { x: 0i64, y: 0i64 },
                turret_acceleration_target: 0i64,
                ..*old(self)
            }),
    {
        self.shoot = false;
        self.tracks_acceleration_target = Vec2 { x: 0, y: 0 };
        self.turret_acceleration_target = 0;
    }

    /// The player's tank has died: clear input, count the death, start the
    /// respawn countdown.
    pub fn death(&mut self)
        requires
            old(self).deaths < u32::MAX,
        ensures
            *final(self) == (Player {
                shoot: false,
                tracks_acceleration_target: Vec2 { x: 0i64, y: 0i64 },
                turret_acceleration_target: 0i64,
                deaths: (old(self).deaths + 1) as u32,
                respawn_timer: Some(0u64),
                ..*old(self)
            }),
    {
        self.reset_input();
        self.deaths = self.deaths + 1;
        self.respawn_timer = Some(0);
    }

    /// How many times this player's tank was destroyed.
    pub fn get_deaths(&self) -> (r: u32)
        ensures
            r == self.deaths,
    {
        self.deaths
    }
}

impl Player {
    /// The player record that `spawn` builds.
    pub open spec fn spawned(port: u16, secret: u128, position: Vec2, config: Config) -> Player {
        Player {
            port,
            secret,
            timeout: 0,
            deaths: 0,
            respawn_timer: None,
            tank: Some(Tank::spawned_at(position, config)),
            tank_radius: config.tank_radius,
            track_max_velocity: config.track_max_velocity,
            track_max_acceleration: config.track_max_acceleration,
            turret_max_velocity: config.turret_max_velocity,
            turret_max_acceleration: config.turret_max_acceleration,
            shoot_delay: config.shoot_delay,
            bullet_radius: config.bullet_radius,
            bullet_speed: config.bullet_speed,
            bullet_max_bounces: config.bullet_max_bounces,
            tracks_acceleration_target: Vec2 { x: 0, y: 0 },
            turret_acceleration_target: 0,
            shoot: false,
            shoot_timer: None,
        }
    }
}

impl Tank {
    /// The tank a player gets at connect or respawn time.
    pub open spec fn spawned_at(position: Vec2, config: Config) -> Tank {
        Tank {
            position,
            angle: 0,
            track_velocities: Vec2 { x: 0, y: 0 },
            track_accelerations: Vec2 { x: 0, y: 0 },
            radius: config.tank_radius,
            track_max_velocity: config.track_max_velocity,
            turret: Turret {
                angle: 0,
                velocity: 0,
                acceleration: 0,
                max_velocity: config.turret_max_velocity,
            },
        }
    }
}

} // verus!
