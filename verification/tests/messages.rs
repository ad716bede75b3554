use std::time::UNIX_EPOCH;

use tanks::codec::{Bullet, ClientMessages, DecodeError, ServerMessages, Tank, Wall, WireVec};

fn random_wire() -> WireVec {
    WireVec { x: rand::random::<f32>().to_bits(), y: rand::random::<f32>().to_bits() }
}

#[test]
fn test_client() {
    let cm = ClientMessages::Connect {
        self_port: (UNIX_EPOCH.elapsed().unwrap().as_secs() % (u16::MAX as u64)) as u16,
    };
    println!("{:?} -> {:?}", cm, cm.to_vec());
    assert_eq!(cm.to_vec().len(), 3);
    assert_eq!(ClientMessages::try_from_bytes(&cm.to_vec()[..]).unwrap(), cm);
    let cm = ClientMessages::Control {
        self_port: rand::random(),
        secret: rand::random(),
        tracks_acceleration_target: random_wire(),
        turret_acceleration_target: rand::random::<f32>().to_bits(),
        shoot: true,
    };
    println!("{:?} -> {:?}", cm, cm.to_vec());
    assert_eq!(cm.to_vec().len(), 32);
    assert_eq!(ClientMessages::try_from_bytes(&cm.to_vec()[..]).unwrap(), cm);
}

#[test]
fn test_walls() {
    let wall_count = rand::random_range(0..32);
    let mut walls = vec![];
    for _ in 0..wall_count {
        walls.push(Wall { origin: random_wire(), direction_length: random_wire() })
    }
    let map = ServerMessages::MapChange { secret: rand::random(), walls };
    assert_eq!(map.to_vec().len(), 18 + wall_count * 16);
    assert_eq!(ServerMessages::try_from_bytes(&map.to_vec()[..]).unwrap(), map);
}

#[test]
fn test_status() {
    let tank_count = rand::random_range(0..8);
    let bullet_count = rand::random_range(0..32);
    let state = ServerMessages::State {
        secret: rand::random(),
        tanks: (0..tank_count)
            .map(|_| Tank {
                position: random_wire(),
                tank_direction: random_wire(),
                turret_direction: random_wire(),
            })
            .collect(),
        bullets: (0..bullet_count)
            .map(|_| Bullet { position: random_wire(), direction: random_wire() })
            .collect(),
    };

    assert_eq!(state.to_vec().len(), 19 + tank_count * 24 + bullet_count * 16);
    match ServerMessages::try_from_bytes(&state.to_vec()[..]).unwrap() {
        ServerMessages::State { tanks, bullets, .. } => {
            assert_eq!(tanks.len(), tank_count);
            assert_eq!(bullets.len(), bullet_count);
        }
        _ => assert!(false, "Something is very wrong"),
    }
    assert_eq!(ServerMessages::try_from_bytes(&state.to_vec()[..]).unwrap(), state);
}

#[test]
fn test_disconnect() {
    assert_eq!(
        ServerMessages::try_from_bytes(&ServerMessages::Disconnected.to_vec()[..]).unwrap(),
        ServerMessages::Disconnected
    );
}

#[test]
fn round_trip_boundary_counts() {
    // zero walls
    let map = ServerMessages::MapChange { secret: 7, walls: vec![] };
    assert_eq!(map.to_vec().len(), 18);
    assert_eq!(ServerMessages::try_from_bytes(&map.to_vec()[..]).unwrap(), map);
    // the largest representable counts: 255 of each list
    let w = Wall {
        origin: WireVec { x: 1, y: 2 },
        direction_length: WireVec { x: 3, y: 4 },
    };
    let map = ServerMessages::MapChange { secret: u128::MAX, walls: vec![w; 255] };
    assert_eq!(map.to_vec().len(), 18 + 255 * 16);
    assert_eq!(ServerMessages::try_from_bytes(&map.to_vec()[..]).unwrap(), map);
    let t = Tank {
        position: WireVec { x: 5, y: 6 },
        tank_direction: WireVec { x: 7, y: 8 },
        turret_direction: WireVec { x: 9, y: 10 },
    };
    let b = Bullet { position: WireVec { x: 11, y: 12 }, direction: WireVec { x: 13, y: 14 } };
    let state = ServerMessages::State {
        secret: 0,
        tanks: vec![t; 255],
        bullets: vec![b; 255],
    };
    assert_eq!(state.to_vec().len(), 19 + 255 * 24 + 255 * 16);
    assert_eq!(ServerMessages::try_from_bytes(&state.to_vec()[..]).unwrap(), state);
    // zero tanks and bullets
    let state = ServerMessages::State { secret: 1, tanks: vec![], bullets: vec![] };
    assert_eq!(state.to_vec().len(), 19);
    assert_eq!(ServerMessages::try_from_bytes(&state.to_vec()[..]).unwrap(), state);
}

#[test]
fn exact_client_bytes() {
    let cm = ClientMessages::Connect { self_port: 0x1234 };
    assert_eq!(cm.to_vec(), vec![0x00, 0x12, 0x34]);
    let cm = ClientMessages::Control {
        self_port: 0x0102,
        secret: 0x000102030405060708090a0b0c0d0e0f,
        tracks_acceleration_target: WireVec { x: 0xdeadbeef, y: 0x01020304 },
        turret_acceleration_target: 0xcafebabe,
        shoot: false,
    };
    let v = cm.to_vec();
    assert_eq!(v[0], 0x01);
    assert_eq!(&v[1..3], &[0x01, 0x02]);
    assert_eq!(
        &v[3..19],
        &[0x00, 0x01, 0x02, 0x03, 0x04, 0x05, 0x06, 0x07, 0x08, 0x09, 0x0a, 0x0b, 0x0c, 0x0d,
            0x0e, 0x0f]
    );
    assert_eq!(&v[19..23], &[0xde, 0xad, 0xbe, 0xef]);
    assert_eq!(&v[23..27], &[0x01, 0x02, 0x03, 0x04]);
    assert_eq!(&v[27..31], &[0xca, 0xfe, 0xba, 0xbe]);
    assert_eq!(v[31], 0x00);
}

#[test]
fn truncated_buffers_are_errors() {
    // shorter than the tag's fixed minimum length, for every tag
    assert_eq!(ClientMessages::try_from_bytes(&[]), Err(DecodeError::Truncated));
    assert_eq!(ClientMessages::try_from_bytes(&[0x00, 0x12]), Err(DecodeError::Truncated));
    assert_eq!(ClientMessages::try_from_bytes(&vec![0x01; 31][..]), Err(DecodeError::Truncated));
    assert_eq!(ServerMessages::try_from_bytes(&[]), Err(DecodeError::Truncated));
    assert_eq!(ServerMessages::try_from_bytes(&vec![0x00; 17][..]), Err(DecodeError::Truncated));
    assert_eq!(ServerMessages::try_from_bytes(&vec![0x01; 18][..]), Err(DecodeError::Truncated));
    // a declared count whose payload exceeds the remaining buffer
    let mut v = vec![0u8; 18];
    v[17] = 2; // two walls declared, none present
    assert_eq!(ServerMessages::try_from_bytes(&v[..]), Err(DecodeError::Truncated));
    let mut v = vec![0u8; 19];
    v[0] = 0x01;
    v[17] = 1; // one tank declared, none present
    assert_eq!(ServerMessages::try_from_bytes(&v[..]), Err(DecodeError::Truncated));
    // a complete state whose bullet count overruns the buffer
    let mut v = vec![0u8; 19];
    v[0] = 0x01;
    v[18] = 3;
    assert_eq!(ServerMessages::try_from_bytes(&v[..]), Err(DecodeError::Truncated));
}

#[test]
fn unknown_tags_are_errors() {
    assert_eq!(ClientMessages::try_from_bytes(&[0x02]), Err(DecodeError::UnknownTag));
    assert_eq!(ClientMessages::try_from_bytes(&[0xff, 1, 2, 3]), Err(DecodeError::UnknownTag));
    assert_eq!(ServerMessages::try_from_bytes(&[0x03]), Err(DecodeError::UnknownTag));
    assert_eq!(ServerMessages::try_from_bytes(&[0x7f]), Err(DecodeError::UnknownTag));
}

#[test]
fn set_port_and_secret() {
    let mut cm = ClientMessages::connect();
    cm.set_port(4001);
    assert_eq!(cm, ClientMessages::Connect { self_port: 4001 });
    cm.set_secret(99); // a connect message has no secret to set
    assert_eq!(cm, ClientMessages::Connect { self_port: 4001 });
    let mut cm = ClientMessages::control(WireVec { x: 1, y: 2 }, 3, false);
    cm.set_port(5000);
    cm.set_secret(42);
    assert_eq!(
        cm,
        ClientMessages::Control {
            self_port: 5000,
            secret: 42,
            tracks_acceleration_target: WireVec { x: 1, y: 2 },
            turret_acceleration_target: 3,
            shoot: false,
        }
    );
}

#[test]
fn trailing_bytes_are_tolerated() {
    // a datagram read into a fixed buffer may carry padding after the message
    let mut v = ClientMessages::Connect { self_port: 4000 }.to_vec();
    v.extend_from_slice(&[0; 29]);
    assert_eq!(
        ClientMessages::try_from_bytes(&v[..]).unwrap(),
        ClientMessages::Connect { self_port: 4000 }
    );
}
