use tanks::collision::{bullet_wall_collision, tank_bullet_collision, tank_tank_collision};
use tanks::entities::{Bullet, Config, Player, Spawn, Wall};
use tanks::fixed::Vec2;
use tanks::map::GameMap;
use tanks::motion::{apply_controls, move_tanks};
use tanks::session::{fresh_secret, handle_connect, handle_control, player_disconnect};
use tanks::world::{
    player_respawn, send_state, shoot_bullets, shoot_countdown, tick, Inbound, World,
};

fn spawned_player(port: u16, secret: u128, x: i64, y: i64) -> Player {
    let config = Config::default();
    Player::spawn(port, secret, Vec2 { x, y }, &config)
}

fn floor_wall() -> Wall {
    // a horizontal wall through the origin, normal pointing up
    Wall {
        origin: Vec2 { x: 0, y: 0 },
        direction: Vec2 { x: 1000, y: 0 },
        normal: Vec2 { x: 0, y: 1000 },
        half_length: 100_000,
    }
}

#[test]
fn track_velocity_stays_clamped() {
    // any sequence of acceleration inputs: ask for far more than allowed
    let mut players = vec![spawned_player(4001, 1, 0, 0)];
    handle_control(&mut players, 4001, 4001, 1, Vec2 { x: 1_000_000_000, y: -1_000_000_000 }, 0, false);
    for _ in 0..20 {
        apply_controls(&mut players);
        move_tanks(&mut players, 1000);
        let t = players[0].tank.unwrap();
        let max = t.track_max_velocity;
        assert!(-max.x <= t.track_velocities.x && t.track_velocities.x <= max.x);
        assert!(-max.y <= t.track_velocities.y && t.track_velocities.y <= max.y);
    }
    // after twenty seconds at full acceleration both tracks sit at the limit
    let t = players[0].tank.unwrap();
    assert_eq!(t.track_velocities.x, 500_000);
    assert_eq!(t.track_velocities.y, -500_000);
}

#[test]
fn tank_tank_contact_is_mutual() {
    // centers 10 units apart, radii 12 + 12: both die in the same tick
    let mut players = vec![
        spawned_player(4001, 1, 0, 0),
        spawned_player(4002, 2, 10_000, 0),
        spawned_player(4003, 3, 90_000_000, 0),
    ];
    tank_tank_collision(&mut players);
    assert!(players[0].tank.is_none());
    assert!(players[1].tank.is_none());
    assert!(players[2].tank.is_some());
    assert_eq!(players[0].deaths, 1);
    assert_eq!(players[1].deaths, 1);
    assert_eq!(players[2].deaths, 0);
    assert_eq!(players[0].respawn_timer, Some(0));
    // the pass is idempotent on the dead: running it again changes nothing
    tank_tank_collision(&mut players);
    assert_eq!(players[0].deaths, 1);
    assert_eq!(players[1].deaths, 1);
}

#[test]
fn bullet_bounce_budget_is_exact() {
    let walls = vec![floor_wall()];
    // a bullet flying into the wall with its counter at the budget
    let mut bullets = vec![Bullet {
        position: Vec2 { x: 0, y: 3000 },
        velocity: Vec2 { x: 0, y: -100_000 },
        radius: 5000,
        bounces: 2,
        max_bounces: 2,
    }];
    // with its counter exactly at the budget it is still alive before the hit
    assert!(bullets[0].bounces <= bullets[0].max_bounces);
    bullet_wall_collision(&mut bullets, &walls);
    // one more qualifying bounce destroys it
    assert!(bullets.is_empty());
    // the same bullet one bounce earlier survives, reflected
    let mut bullets = vec![Bullet {
        position: Vec2 { x: 7000, y: 3000 },
        velocity: Vec2 { x: 40_000, y: -100_000 },
        radius: 5000,
        bounces: 1,
        max_bounces: 2,
    }];
    bullet_wall_collision(&mut bullets, &walls);
    assert_eq!(bullets.len(), 1);
    assert_eq!(bullets[0].bounces, 2);
    // the velocity component along the wall normal is negated exactly
    assert_eq!(bullets[0].velocity, Vec2 { x: 40_000, y: 100_000 });
}

#[test]
fn tank_bullet_hit_consumes_both() {
    let mut players = vec![spawned_player(4001, 1, 0, 0)];
    let mut bullets = vec![
        Bullet {
            position: Vec2 { x: 10_000, y: 0 },
            velocity: Vec2 { x: 0, y: 0 },
            radius: 5000,
            bounces: 0,
            max_bounces: 2,
        },
        Bullet {
            position: Vec2 { x: 50_000_000, y: 0 },
            velocity: Vec2 { x: 0, y: 0 },
            radius: 5000,
            bounces: 0,
            max_bounces: 2,
        },
    ];
    tank_bullet_collision(&mut players, &mut bullets);
    assert!(players[0].tank.is_none());
    assert_eq!(players[0].deaths, 1);
    // the hitting bullet is consumed, the distant one flies on
    assert_eq!(bullets.len(), 1);
    assert_eq!(bullets[0].position, Vec2 { x: 50_000_000, y: 0 });
}

#[test]
fn inactivity_eviction_is_exact() {
    let config = Config::default(); // five-second timeout
    let mut players = vec![spawned_player(4001, 1, 0, 0), spawned_player(4002, 2, 50_000, 0)];
    players[0].timeout = 4500;
    player_disconnect(&mut players, &config, 1000);
    // the silent player is removed, exactly once; the active one stays
    assert_eq!(players.len(), 1);
    assert_eq!(players[0].port, 4002);
    assert_eq!(players[0].timeout, 1000);
    // no further state message goes to the evicted port
    let (recipients, _, _) = send_state(&players, &vec![]);
    assert!(recipients.iter().all(|(port, _)| *port != 4001));
    // running eviction again removes nothing more
    player_disconnect(&mut players, &config, 1000);
    assert_eq!(players.len(), 1);
}

#[test]
fn wrong_secret_has_no_effect() {
    let mut players = vec![spawned_player(5000, 0xfeed, 0, 0)];
    let before = players[0];
    handle_control(&mut players, 5000, 5000, 0xdead, Vec2 { x: 7, y: 8 }, 9, true);
    assert_eq!(players[0], before);
    // and so does a port claim that does not match the source port
    handle_control(&mut players, 4999, 5000, 0xfeed, Vec2 { x: 7, y: 8 }, 9, true);
    assert_eq!(players[0], before);
    // the matching pair takes effect and resets the inactivity timer
    players[0].timeout = 1234;
    handle_control(&mut players, 5000, 5000, 0xfeed, Vec2 { x: 7, y: 8 }, 9, true);
    assert_eq!(players[0].tracks_acceleration_target, Vec2 { x: 7, y: 8 });
    assert_eq!(players[0].turret_acceleration_target, 9);
    assert!(players[0].shoot);
    assert_eq!(players[0].timeout, 0);
}

#[test]
fn spoofed_connect_is_dropped() {
    let config = Config::default();
    let spawns = vec![Spawn { position: Vec2 { x: 0, y: 0 } }];
    let mut players = vec![];
    handle_connect(&mut players, &spawns, &config, 4000, 5000);
    assert!(players.is_empty());
}

#[test]
fn reconnect_keeps_the_secret() {
    let config = Config::default();
    let spawns = vec![Spawn { position: Vec2 { x: 1000, y: 2000 } }];
    let mut players = vec![];
    handle_connect(&mut players, &spawns, &config, 5000, 5000);
    assert_eq!(players.len(), 1);
    let secret = players[0].secret;
    players[0].tank = None;
    players[0].shoot = true;
    handle_connect(&mut players, &spawns, &config, 5000, 5000);
    assert_eq!(players.len(), 1);
    assert_eq!(players[0].secret, secret);
    assert!(!players[0].shoot);
    let t = players[0].tank.unwrap();
    assert_eq!(t.position, Vec2 { x: 1000, y: 2000 });
}

#[test]
fn fresh_secrets_collide_with_nobody() {
    let mut players = vec![];
    for i in 0..32 {
        players.push(spawned_player(4000 + i as u16, i as u128, 0, 0));
    }
    let s = fresh_secret(&players);
    assert!(players.iter().all(|p| p.secret != s));
}

#[test]
fn shooting_and_cooldown() {
    let mut players = vec![spawned_player(4001, 1, 0, 0)];
    players[0].shoot = true;
    let mut bullets = vec![];
    shoot_bullets(&mut players, &mut bullets);
    assert_eq!(bullets.len(), 1);
    // muzzle: one tank radius plus one bullet radius ahead, heading up
    assert_eq!(bullets[0].position, Vec2 { x: 0, y: 17_000 });
    assert_eq!(bullets[0].velocity, Vec2 { x: 0, y: 100_000 });
    assert_eq!(bullets[0].max_bounces, 2);
    assert!(!players[0].shoot);
    assert_eq!(players[0].shoot_timer, Some(0));
    // while the cooldown runs, a set flag does not fire
    players[0].shoot = true;
    shoot_bullets(&mut players, &mut bullets);
    assert_eq!(bullets.len(), 1);
    // once the configured delay has accumulated, the cooldown clears
    shoot_countdown(&mut players, 400);
    assert_eq!(players[0].shoot_timer, Some(400));
    shoot_countdown(&mut players, 600);
    assert_eq!(players[0].shoot_timer, None);
    shoot_bullets(&mut players, &mut bullets);
    assert_eq!(bullets.len(), 2);
}

#[test]
fn respawn_after_delay() {
    let config = Config::default(); // five-second respawn delay
    let spawns = vec![Spawn { position: Vec2 { x: 3000, y: 4000 } }];
    let mut players = vec![spawned_player(4001, 1, 0, 0)];
    players[0].tank = None;
    players[0].respawn_timer = Some(0);
    player_respawn(&mut players, &spawns, &config, 1000);
    assert!(players[0].tank.is_none());
    assert_eq!(players[0].respawn_timer, Some(1000));
    player_respawn(&mut players, &spawns, &config, 4000);
    let t = players[0].tank.unwrap();
    assert_eq!(t.position, Vec2 { x: 3000, y: 4000 });
    assert_eq!(players[0].respawn_timer, None);
}

#[test]
fn connect_then_broadcast_carries_secret_and_tank() {
    // end to end: a connect from source port 5000 claiming port 5000 creates
    // a player with a fresh secret and a tank at a spawn point; the next
    // broadcast to that player carries that secret and a tank entry
    let config = Config::default();
    let map = GameMap {
        walls: vec![],
        spawns: vec![Spawn { position: Vec2 { x: 1000, y: 2000 } }],
    };
    let mut world = World::new(config, map);
    let inbound = vec![Inbound::Connect { source_port: 5000, self_port: 5000 }];
    tick(&mut world, &inbound, 100);
    assert_eq!(world.players.len(), 1);
    let secret = world.players[0].secret;
    let (recipients, tanks, bullets) = send_state(&world.players, &world.bullets);
    assert_eq!(recipients, vec![(5000u16, secret)]);
    assert_eq!(tanks.len(), 1);
    assert_eq!(tanks[0].position, Vec2 { x: 1000, y: 2000 });
    assert_eq!(tanks[0].tank_direction, Vec2 { x: 0, y: 1000 });
    assert!(bullets.is_empty());

    // a control message with a wrong secret changes no acceleration
    let before = world.players[0].tank.unwrap().track_accelerations;
    let inbound = vec![Inbound::Control {
        source_port: 5000,
        self_port: 5000,
        secret: secret.wrapping_add(1),
        tracks_acceleration_target: Vec2 { x: 50_000, y: 50_000 },
        turret_acceleration_target: 0,
        shoot: false,
    }];
    tick(&mut world, &inbound, 100);
    assert_eq!(world.players[0].tank.unwrap().track_accelerations, before);
    assert_eq!(world.players[0].tracks_acceleration_target, Vec2 { x: 0, y: 0 });

    // the right secret steers the tank
    let inbound = vec![Inbound::Control {
        source_port: 5000,
        self_port: 5000,
        secret,
        tracks_acceleration_target: Vec2 { x: 50_000, y: 50_000 },
        turret_acceleration_target: 0,
        shoot: false,
    }];
    tick(&mut world, &inbound, 100);
    let t = world.players[0].tank.unwrap();
    assert_eq!(t.track_accelerations, Vec2 { x: 50_000, y: 50_000 });
    assert_eq!(t.track_velocities, Vec2 { x: 5000, y: 5000 });
}
