use tanks::codec::{ClientMessages, ServerMessages, WireVec};
use tanks::entities::{Bullet, Config};
use tanks::fixed::{cos_mrad, div_trunc, div_trunc_s, isqrt, norm_angle, sin_mrad, Vec2};
use tanks::map::{wall_from_segment, GameMap, WallSegment};
use tanks::team_code::State;

#[test]
fn trig_hits_the_axes() {
    assert_eq!(sin_mrad(0), 0);
    assert_eq!(sin_mrad(1571), 1000);
    assert_eq!(sin_mrad(3142), 0);
    assert_eq!(sin_mrad(4713), -1000);
    assert_eq!(cos_mrad(0), 1000);
    assert_eq!(cos_mrad(3142), -1000);
}

#[test]
fn integer_square_roots() {
    assert_eq!(isqrt(0), 0);
    assert_eq!(isqrt(1), 1);
    assert_eq!(isqrt(15), 3);
    assert_eq!(isqrt(16), 4);
    assert_eq!(isqrt(i64::MAX), 3_037_000_499);
}

#[test]
fn truncating_division_and_angles() {
    assert_eq!(div_trunc(7, 2), 3);
    assert_eq!(div_trunc(-7, 2), -3);
    assert_eq!(div_trunc_s(7, -2), -3);
    assert_eq!(div_trunc_s(-7, -2), 3);
    assert_eq!(norm_angle(0), 0);
    assert_eq!(norm_angle(6284), 0);
    assert_eq!(norm_angle(-1), 6283);
    assert_eq!(norm_angle(6285), 1);
}

#[test]
fn wall_built_from_endpoints() {
    // a vertical segment of length 20 units
    let seg = WallSegment {
        from: Vec2 { x: 0, y: -10_000 },
        to: Vec2 { x: 0, y: 10_000 },
        normal: None,
    };
    let w = wall_from_segment(&seg).unwrap();
    assert_eq!(w.origin, Vec2 { x: 0, y: 0 });
    assert_eq!(w.direction, Vec2 { x: 0, y: 1000 });
    // no stated normal: the direction turned a quarter turn to the left
    assert_eq!(w.normal, Vec2 { x: -1000, y: 0 });
    assert_eq!(w.half_length, 10_000);
    // a stated normal is normalized, whatever its length
    let seg = WallSegment {
        from: Vec2 { x: 0, y: -10_000 },
        to: Vec2 { x: 0, y: 10_000 },
        normal: Some(Vec2 { x: 500, y: 0 }),
    };
    let w = wall_from_segment(&seg).unwrap();
    assert_eq!(w.normal, Vec2 { x: 1000, y: 0 });
    // a zero-length segment denotes no wall
    let seg = WallSegment {
        from: Vec2 { x: 5, y: 5 },
        to: Vec2 { x: 5, y: 5 },
        normal: None,
    };
    assert!(wall_from_segment(&seg).is_none());
}

#[test]
fn map_skips_degenerate_segments() {
    let segments = vec![
        WallSegment { from: Vec2 { x: 0, y: 0 }, to: Vec2 { x: 0, y: 0 }, normal: None },
        WallSegment {
            from: Vec2 { x: -5000, y: 0 },
            to: Vec2 { x: 5000, y: 0 },
            normal: Some(Vec2 { x: 0, y: 2000 }),
        },
    ];
    let map = GameMap::from_segments(&segments, vec![]);
    assert_eq!(map.walls.len(), 1);
    assert_eq!(map.walls[0].origin, Vec2 { x: 0, y: 0 });
    assert_eq!(map.walls[0].direction, Vec2 { x: 1000, y: 0 });
    assert_eq!(map.walls[0].normal, Vec2 { x: 0, y: 1000 });
    assert_eq!(map.walls[0].half_length, 5000);
}

#[test]
fn bullet_reflection_negates_the_normal_component() {
    let mut b = Bullet {
        position: Vec2 { x: 0, y: 0 },
        velocity: Vec2 { x: 12_345, y: -67_890 },
        radius: 5000,
        bounces: 0,
        max_bounces: 2,
    };
    b.reflect(Vec2 { x: 0, y: 1000 });
    assert_eq!(b.velocity, Vec2 { x: 12_345, y: 67_890 });
    b.reflect(Vec2 { x: -1000, y: 0 });
    assert_eq!(b.velocity, Vec2 { x: -12_345, y: 67_890 });
}

#[test]
fn bounce_counting() {
    let mut b = Bullet {
        position: Vec2 { x: 0, y: 0 },
        velocity: Vec2 { x: 0, y: 0 },
        radius: 5000,
        bounces: 0,
        max_bounces: 2,
    };
    assert!(b.add_bounce());
    assert!(b.add_bounce());
    // the bounce that passes the budget reports the bullet dead
    assert!(!b.add_bounce());
    assert_eq!(b.bounces, 3);
}

#[test]
fn stock_configuration() {
    let c = Config::default();
    assert_eq!(c.inactivity_timeout, 5000);
    assert_eq!(c.respawn_delay, 5000);
    assert_eq!(c.tank_radius, 12_000);
    assert_eq!(c.track_max_velocity, Vec2 { x: 500_000, y: 500_000 });
    assert_eq!(c.track_max_acceleration, Vec2 { x: 100_000, y: 100_000 });
    assert_eq!(c.turret_max_velocity, 300_000);
    assert_eq!(c.turret_max_acceleration, 100_000);
    assert_eq!(c.shoot_delay, 1000);
    assert_eq!(c.bullet_radius, 5000);
    assert_eq!(c.bullet_speed, 100_000);
    assert_eq!(c.bullet_max_bounces, 2);
    assert_eq!(c.physics_steps, 8);
}

#[test]
fn client_answers() {
    let mut state = State::new();
    let map = ServerMessages::MapChange { secret: 1, walls: vec![] };
    assert_eq!(state.handle_message(&map), None);
    let broadcast = ServerMessages::State { secret: 0xabcd, tanks: vec![], bullets: vec![] };
    assert_eq!(
        state.handle_message(&broadcast),
        Some(ClientMessages::Control {
            self_port: 0,
            secret: 0xabcd,
            tracks_acceleration_target: WireVec { x: 0, y: 0 },
            turret_acceleration_target: 0,
            shoot: true,
        })
    );
    assert_eq!(
        state.handle_message(&ServerMessages::Disconnected),
        Some(ClientMessages::Connect { self_port: 0 })
    );
}
